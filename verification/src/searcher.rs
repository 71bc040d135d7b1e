//! The per-worker search step: splice a suffix into a reusable candidate
//! buffer, evaluate the selector, and keep the pair when it meets the
//! zero-byte threshold.

use crate::selector::{count_zero_bytes, selector_of, Selector};
use crate::signature::{append_bytes, candidate_of, FunctionSignature, SuffixWithSelector};
use vstd::prelude::*;

verus! {

/// One searcher's private state: a candidate buffer pre-built as
/// `name + "_" + L filler bytes + inputs`, reused for every suffix so that
/// only the fixed splice window `[name.len() + 1, name.len() + 1 + L)` is
/// ever rewritten.
pub struct SearchWorker {
    buffer: Vec<u8>,
    name_len: usize,
    suffix_len: usize,
    threshold: u8,
    sig_name: Ghost<Seq<u8>>,
    sig_inputs: Ghost<Seq<u8>>,
}

impl SearchWorker {
    /// The signature name this worker searches for.
    pub closed spec fn name(self) -> Seq<u8> {
        self.sig_name@
    }

    /// The signature's parenthesized input list.
    pub closed spec fn inputs(self) -> Seq<u8> {
        self.sig_inputs@
    }

    /// The fixed suffix length.
    pub closed spec fn suffix_len(self) -> nat {
        self.suffix_len as nat
    }

    /// The minimum zero-byte count a match must reach.
    pub closed spec fn threshold(self) -> u8 {
        self.threshold
    }

    /// The buffer always holds the name, the separator and the inputs in
    /// their fixed places; only the splice window varies.
    pub closed spec fn wf(self) -> bool {
        &&& self.name_len == self.sig_name@.len()
        &&& self.buffer@.len() == self.name_len + 1 + self.suffix_len + self.sig_inputs@.len()
        &&& forall|q: int|
            0 <= q < self.sig_name@.len() ==> self.buffer@[q] == #[trigger] self.sig_name@[q]
        &&& self.buffer@[self.name_len as int] == 95u8
        &&& forall|q: int|
            0 <= q < self.sig_inputs@.len() ==> self.buffer@[self.name_len + 1 + self.suffix_len
                + q] == #[trigger] self.sig_inputs@[q]
    }

    /// A worker for one signature, suffix length and threshold, with its
    /// buffer pre-initialized (filler blanks in the splice window).
    pub fn new(signature: &FunctionSignature, suffix_length: u8, zero_bytes: u8) -> (w:
        SearchWorker)
        requires
            signature.name@.len() + 1 + suffix_length + signature.inputs@.len() <= usize::MAX,
        ensures
            w.wf(),
            w.name() == signature.name@,
            w.inputs() == signature.inputs@,
            w.suffix_len() == suffix_length,
            w.threshold() == zero_bytes,
    {
        let name_len = signature.name.len();
        let mut buffer: Vec<u8> = Vec::new();
        append_bytes(&mut buffer, signature.name.as_slice());
        buffer.push(95);
        let mut i: usize = 0;
        let ghost after_sep = buffer@;
        while i < suffix_length as usize
            invariant
                0 <= i <= suffix_length,
                buffer@ =~= after_sep + Seq::new(i as nat, |q: int| 32u8),
                after_sep.len() + suffix_length <= usize::MAX,
            decreases suffix_length - i,
        {
            buffer.push(32);
            proof {
                assert(buffer@ =~= after_sep + Seq::new((i + 1) as nat, |q: int| 32u8));
            }
            i += 1;
        }
        append_bytes(&mut buffer, signature.inputs.as_slice());
        let w = SearchWorker {
            buffer,
            name_len,
            suffix_len: suffix_length as usize,
            threshold: zero_bytes,
            sig_name: Ghost(signature.name@),
            sig_inputs: Ghost(signature.inputs@),
        };
        w
    }

    /// One search step: splice `suffix` into the buffer, evaluate the
    /// selector of the candidate, and return the pair exactly when its
    /// zero-byte count reaches the threshold.
    pub fn process(&mut self, suffix: Vec<u8>) -> (m: Option<SuffixWithSelector>)
        requires
            old(self).wf(),
            suffix@.len() == old(self).suffix_len(),
        ensures
            final(self).wf(),
            final(self).name() == old(self).name(),
            final(self).inputs() == old(self).inputs(),
            final(self).suffix_len() == old(self).suffix_len(),
            final(self).threshold() == old(self).threshold(),
            ({
                let cand = candidate_of(old(self).name(), suffix@, old(self).inputs());
                &&& (m is Some <==> count_zero_bytes(selector_of(cand)) >= old(self).threshold())
                &&& (m is Some ==> m->Some_0.suffix@ == suffix@)
                &&& (m is Some ==> m->Some_0.selector@ == selector_of(cand))
            }),
    {
        let ghost cand = candidate_of(self.sig_name@, suffix@, self.sig_inputs@);
        let buffer_len = self.buffer.len();
        let mut k: usize = 0;
        while k < suffix.len()
            invariant
                0 <= k <= suffix@.len(),
                suffix@.len() == self.suffix_len,
                self.buffer@.len() == buffer_len,
                self.wf(),
                self.name_len == old(self).name_len,
                self.suffix_len == old(self).suffix_len,
                self.threshold == old(self).threshold,
                self.sig_name@ == old(self).sig_name@,
                self.sig_inputs@ == old(self).sig_inputs@,
                forall|q: int|
                    0 <= q < k ==> self.buffer@[self.name_len + 1 + q] == #[trigger] suffix@[q],
            decreases suffix@.len() - k,
        {
            self.buffer.set(self.name_len + 1 + k, suffix[k]);
            k += 1;
        }
        proof {
            assert(self.buffer@ =~= cand) by {
                assert forall|q: int| 0 <= q < self.buffer@.len() implies self.buffer@[q]
                    == cand[q] by {
                    let nl = self.name_len as int;
                    let sl = self.suffix_len as int;
                    if q < nl {
                        assert(self.buffer@[q] == self.sig_name@[q]);
                    } else if q == nl {
                    } else if q < nl + 1 + sl {
                        assert(self.buffer@[nl + 1 + (q - nl - 1)] == suffix@[q - nl - 1]);
                    } else {
                        assert(self.buffer@[nl + 1 + sl + (q - nl - 1 - sl)] == self.sig_inputs@[q
                            - nl - 1 - sl]);
                    }
                }
            }
        }
        let sel = Selector::new(self.buffer.as_slice());
        let count = sel.zero_count();
        if count < self.threshold {
            None
        } else {
            Some(SuffixWithSelector::new(suffix, sel))
        }
    }
}

} // verus!
