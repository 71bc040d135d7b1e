//! Function signatures and the candidate strings built from them.
//!
//! A signature is a function name plus its canonical parenthesized
//! parameter-type string; a candidate is `name + "_" + suffix + inputs`,
//! the exact bytes that get hashed.

use crate::selector::{selector_of, Selector};
use vstd::prelude::*;

verus! {

/// Appends all of `src` to `dst`.
pub fn append_bytes(dst: &mut Vec<u8>, src: &[u8])
    requires
        old(dst)@.len() + src@.len() <= usize::MAX,
    ensures
        final(dst)@ == old(dst)@ + src@,
{
    let ghost start = dst@;
    let mut i: usize = 0;
    while i < src.len()
        invariant
            0 <= i <= src@.len(),
            start.len() + src@.len() <= usize::MAX,
            dst@ =~= start + src@.subrange(0, i as int),
        decreases src@.len() - i,
    {
        dst.push(src[i]);
        proof {
            assert(dst@ =~= start + src@.subrange(0, i + 1));
        }
        i += 1;
    }
    proof {
        assert(dst@ =~= start + src@);
    }
}

/// A function signature: `name` is the bare identifier, `inputs` the
/// parenthesized parameter-type list, both as their exact bytes.
#[derive(Debug, Clone)]
pub struct FunctionSignature {
    pub name: Vec<u8>,
    pub inputs: Vec<u8>,
}

/// The canonical text of the signature itself: `name + inputs`.
pub open spec fn canonical_of(name: Seq<u8>, inputs: Seq<u8>) -> Seq<u8> {
    name + inputs
}

/// The candidate string for a suffix: `name + "_" + suffix + inputs`.
pub open spec fn candidate_of(name: Seq<u8>, suffix: Seq<u8>, inputs: Seq<u8>) -> Seq<u8> {
    name + seq![95u8] + suffix + inputs
}

impl FunctionSignature {
    /// A well-formed signature: a non-empty name and a parenthesized input
    /// list.
    pub open spec fn wf(self) -> bool {
        &&& self.name@.len() > 0
        &&& self.inputs@.len() >= 2
        &&& self.inputs@.first() == 40u8
        &&& self.inputs@.last() == 41u8
    }

    /// The selector of the signature itself, without any suffix.
    pub fn selector(&self) -> (s: Selector)
        requires
            self.name@.len() + self.inputs@.len() <= usize::MAX,
        ensures
            s@ == selector_of(canonical_of(self.name@, self.inputs@)),
            s@.len() == 4,
    {
        let mut text: Vec<u8> = Vec::new();
        append_bytes(&mut text, self.name.as_slice());
        append_bytes(&mut text, self.inputs.as_slice());
        proof {
            assert(text@ =~= canonical_of(self.name@, self.inputs@));
        }
        Selector::new(text.as_slice())
    }
}

/// A qualifying suffix together with the selector of its candidate string.
#[derive(Debug, Clone)]
pub struct SuffixWithSelector {
    pub suffix: Vec<u8>,
    pub selector: Selector,
}

impl SuffixWithSelector {
    /// Pairs a suffix with its selector.
    pub fn new(suffix: Vec<u8>, selector: Selector) -> (r: SuffixWithSelector)
        ensures
            r.suffix@ == suffix@,
            r.selector == selector,
    {
        SuffixWithSelector { suffix, selector }
    }
}

} // verus!
