//! Grouping of matches for presentation: the finite post-search match
//! stream is bucketed by zero-byte count (0 through 4), and each match can
//! be rendered as its full candidate string with its selector.

use crate::selector::{count_zero_bytes, lemma_count_zero_bytes_le_len, Selector};
use crate::signature::{append_bytes, candidate_of, FunctionSignature, SuffixWithSelector};
use vstd::prelude::*;

verus! {

/// The matches with one particular zero-byte count.
pub struct SuffixesWithSelector {
    pub suffixes: Vec<SuffixWithSelector>,
    pub zero_count: u8,
}

impl SuffixesWithSelector {
    /// Every held match has exactly this group's zero-byte count.
    pub open spec fn wf(self) -> bool {
        forall|k: int|
            0 <= k < self.suffixes@.len() ==> count_zero_bytes(
                (#[trigger] self.suffixes@[k]).selector@,
            ) == self.zero_count
    }

    /// An empty group for the given zero-byte count.
    pub fn new(zero_count: u8) -> (r: SuffixesWithSelector)
        ensures
            r.wf(),
            r.zero_count == zero_count,
            r.suffixes@.len() == 0,
    {
        SuffixesWithSelector { suffixes: Vec::new(), zero_count }
    }
}

/// All matches for one signature, grouped by zero-byte count into the five
/// buckets 0 through 4.
pub struct GroupedSelector {
    pub signature: FunctionSignature,
    pub selectors_by_zero_bytes: Vec<SuffixesWithSelector>,
}

impl GroupedSelector {
    /// The matches in the bucket for zero-byte count `i`.
    pub open spec fn bucket(self, i: int) -> Seq<SuffixWithSelector> {
        self.selectors_by_zero_bytes@[i].suffixes@
    }

    /// Five buckets, one per possible zero-byte count, each holding only
    /// matches of its own count.
    pub open spec fn wf(self) -> bool {
        &&& self.selectors_by_zero_bytes@.len() == 5
        &&& forall|i: int|
            0 <= i < 5 ==> (#[trigger] self.selectors_by_zero_bytes@[i]).zero_count == i
        &&& forall|i: int| 0 <= i < 5 ==> (#[trigger] self.selectors_by_zero_bytes@[i]).wf()
    }

    /// Empty groups for one signature.
    pub fn new(signature: FunctionSignature) -> (r: GroupedSelector)
        ensures
            r.wf(),
            r.signature == signature,
            forall|i: int| 0 <= i < 5 ==> #[trigger] r.bucket(i) =~= Seq::<
                SuffixWithSelector,
            >::empty(),
    {
        let mut groups: Vec<SuffixesWithSelector> = Vec::new();
        groups.push(SuffixesWithSelector::new(0));
        groups.push(SuffixesWithSelector::new(1));
        groups.push(SuffixesWithSelector::new(2));
        groups.push(SuffixesWithSelector::new(3));
        groups.push(SuffixesWithSelector::new(4));
        GroupedSelector { signature, selectors_by_zero_bytes: groups }
    }

    /// Files a match in the bucket of its selector's zero-byte count; no
    /// other bucket changes.
    pub fn add(&mut self, suffix_with_selector: SuffixWithSelector)
        requires
            old(self).wf(),
        ensures
            final(self).wf(),
            final(self).signature == old(self).signature,
            ({
                let c = count_zero_bytes(suffix_with_selector.selector@) as int;
                &&& final(self).bucket(c) =~= old(self).bucket(c).push(suffix_with_selector)
                &&& forall|i: int|
                    0 <= i < 5 && i != c ==> #[trigger] final(self).bucket(i) =~= old(self).bucket(
                        i,
                    )
            }),
    {
        let c = suffix_with_selector.selector.zero_count();
        proof {
            lemma_count_zero_bytes_le_len(suffix_with_selector.selector@);
        }
        let mut group = self.selectors_by_zero_bytes.remove(c as usize);
        group.suffixes.push(suffix_with_selector);
        self.selectors_by_zero_bytes.insert(c as usize, group);
        proof {
            assert(self.selectors_by_zero_bytes@ =~= old(self).selectors_by_zero_bytes@.update(
                c as int,
                group,
            ));
        }
    }
}

/// A fully rendered candidate: the complete signature text together with
/// its selector.
pub struct SignatureWithSelector {
    pub signature: Vec<u8>,
    pub selector: Selector,
}

impl SignatureWithSelector {
    /// The candidate string `name + "_" + suffix + inputs` of a match,
    /// paired with the match's selector.
    pub fn new(signature: &FunctionSignature, suffix_with_selector: &SuffixWithSelector) -> (r:
        SignatureWithSelector)
        requires
            signature.name@.len() + 1 + suffix_with_selector.suffix@.len()
                + signature.inputs@.len() <= usize::MAX,
        ensures
            r.signature@ == candidate_of(
                signature.name@,
                suffix_with_selector.suffix@,
                signature.inputs@,
            ),
            r.selector == suffix_with_selector.selector,
    {
        let mut text: Vec<u8> = Vec::new();
        append_bytes(&mut text, signature.name.as_slice());
        text.push(95);
        append_bytes(&mut text, suffix_with_selector.suffix.as_slice());
        append_bytes(&mut text, signature.inputs.as_slice());
        proof {
            assert(text@ =~= candidate_of(
                signature.name@,
                suffix_with_selector.suffix@,
                signature.inputs@,
            ));
        }
        SignatureWithSelector { signature: text, selector: suffix_with_selector.selector }
    }
}

} // verus!
