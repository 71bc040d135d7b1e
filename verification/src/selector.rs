//! The 4-byte selector of a canonical signature string: the first four bytes
//! of the Keccak-256 digest of its bytes, and the count of zero bytes in it.

use vstd::prelude::*;

verus! {

/// The first four bytes of the Keccak-256 digest of `bytes`.
///
/// The digest is a pure function of the input bytes alone; its value is not
/// restated here, only named, and everything downstream is proved in terms
/// of this name.
pub uninterp spec fn selector_of(bytes: Seq<u8>) -> Seq<u8>;

/// Relies on tiny_keccak's Keccak-256 (`Keccak::v256`, `Hasher::update`,
/// `Hasher::finalize`): the digest depends on the input bytes alone, and
/// `finalize` fills the 4-byte output buffer with the first four digest
/// bytes.
#[verifier::external_body]
fn keccak_selector(input: &[u8]) -> (r: [u8; 4])
    ensures
        r@ == selector_of(input@),
{
    let mut out = [0u8; 4];
    let mut hasher = tiny_keccak::Keccak::v256();
    tiny_keccak::Hasher::update(&mut hasher, input);
    tiny_keccak::Hasher::finalize(hasher, &mut out);
    out
}

/// How many bytes of `s` are zero.
pub open spec fn count_zero_bytes(s: Seq<u8>) -> nat
    decreases s.len(),
{
    if s.len() == 0 {
        0
    } else {
        count_zero_bytes(s.drop_last()) + if s.last() == 0u8 {
            1nat
        } else {
            0nat
        }
    }
}

/// The zero-byte count never exceeds the length.
pub proof fn lemma_count_zero_bytes_le_len(s: Seq<u8>)
    ensures
        count_zero_bytes(s) <= s.len(),
    decreases s.len(),
{
    if s.len() > 0 {
        lemma_count_zero_bytes_le_len(s.drop_last());
    }
}

/// A sequence of nothing but zero bytes has full count.
pub proof fn lemma_count_zero_bytes_all_zero(s: Seq<u8>)
    requires
        forall|i: int| 0 <= i < s.len() ==> s[i] == 0u8,
    ensures
        count_zero_bytes(s) == s.len(),
    decreases s.len(),
{
    if s.len() > 0 {
        lemma_count_zero_bytes_all_zero(s.drop_last());
    }
}

/// A sequence without a zero byte has count zero.
pub proof fn lemma_count_zero_bytes_none_zero(s: Seq<u8>)
    requires
        forall|i: int| 0 <= i < s.len() ==> s[i] != 0u8,
    ensures
        count_zero_bytes(s) == 0,
    decreases s.len(),
{
    if s.len() > 0 {
        lemma_count_zero_bytes_none_zero(s.drop_last());
    }
}

/// A 4-byte selector.
#[derive(Debug, Clone, Copy)]
pub struct Selector {
    bytes: [u8; 4],
}

impl View for Selector {
    type V = Seq<u8>;

    closed spec fn view(&self) -> Seq<u8> {
        self.bytes@
    }
}

/// The ASCII byte for the hexadecimal digit `n`, lower case.
pub open spec fn spec_hex_digit(n: u8) -> u8
    recommends
        n < 16,
{
    if n < 10 {
        (48 + n) as u8
    } else {
        (87 + n) as u8
    }
}

/// The lower-case hexadecimal rendering of `s`, two digits a byte.
pub open spec fn hex_render(s: Seq<u8>) -> Seq<u8>
    decreases s.len(),
{
    if s.len() == 0 {
        Seq::empty()
    } else {
        hex_render(s.drop_last()) + seq![
            spec_hex_digit(s.last() / 16),
            spec_hex_digit(s.last() % 16),
        ]
    }
}

/// The display form of a selector: `0x` followed by its hex rendering.
pub open spec fn hex_display(s: Seq<u8>) -> Seq<u8> {
    seq![48u8, 120u8] + hex_render(s)
}

impl Selector {
    /// A selector from its four raw bytes.
    pub fn from_bytes(bytes: [u8; 4]) -> (s: Selector)
        ensures
            s@ == bytes@,
    {
        Selector { bytes }
    }

    /// The selector of the given canonical signature bytes.
    pub fn new(signature: &[u8]) -> (s: Selector)
        ensures
            s@ == selector_of(signature@),
            s@.len() == 4,
    {
        Selector { bytes: keccak_selector(signature) }
    }

    /// How many of the four selector bytes are zero; always in `[0, 4]`.
    pub fn zero_count(&self) -> (count: u8)
        ensures
            count == count_zero_bytes(self@),
            count <= 4,
    {
        let mut count: u8 = 0;
        let mut i: usize = 0;
        while i < 4
            invariant
                0 <= i <= 4,
                self@.len() == 4,
                count == count_zero_bytes(self@.subrange(0, i as int)),
                count <= i,
            decreases 4 - i,
        {
            proof {
                assert(self@.subrange(0, i + 1).drop_last() =~= self@.subrange(0, i as int));
                assert(self@.subrange(0, i + 1).last() == self@[i as int]);
            }
            if self.bytes[i] == 0 {
                count += 1;
            }
            i += 1;
        }
        proof {
            assert(self@.subrange(0, 4) =~= self@);
        }
        count
    }

    /// The display bytes of this selector: `0x` and eight lower-case hex
    /// digits.
    pub fn to_hex(&self) -> (r: Vec<u8>)
        ensures
            r@ == hex_display(self@),
    {
        let mut r: Vec<u8> = Vec::new();
        r.push(48);
        r.push(120);
        let mut i: usize = 0;
        while i < 4
            invariant
                0 <= i <= 4,
                self@.len() == 4,
                r@ == seq![48u8, 120u8] + hex_render(self@.subrange(0, i as int)),
            decreases 4 - i,
        {
            let b = self.bytes[i];
            proof {
                assert(self@.subrange(0, i + 1).drop_last() =~= self@.subrange(0, i as int));
                assert(self@.subrange(0, i + 1).last() == self@[i as int]);
            }
            let hi = b / 16;
            let lo = b % 16;
            r.push(if hi < 10 { 48 + hi } else { 87 + hi });
            r.push(if lo < 10 { 48 + lo } else { 87 + lo });
            i += 1;
        }
        proof {
            assert(self@.subrange(0, 4) =~= self@);
        }
        r
    }
}

} // verus!
