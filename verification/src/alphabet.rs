//! The fixed 64-symbol alphabet that suffixes are drawn from:
//! `a`-`z`, `A`-`Z`, `0`-`9`, `$`, `_`, in that order.

use vstd::prelude::*;

verus! {

/// The byte at position `i` of the alphabet.
pub open spec fn spec_alphabet(i: int) -> u8
    recommends
        0 <= i < 64,
{
    if i < 26 {
        (97 + i) as u8  // 'a'..='z'
    } else if i < 52 {
        (65 + (i - 26)) as u8  // 'A'..='Z'
    } else if i < 62 {
        (48 + (i - 52)) as u8  // '0'..='9'
    } else if i == 62 {
        36u8  // '$'
    } else {
        95u8  // '_'
    }
}

/// True of bytes that occur in the alphabet.
pub open spec fn is_alphabet_byte(b: u8) -> bool {
    exists|i: int| 0 <= i < 64 && spec_alphabet(i) == b
}

/// Every position's byte is an alphabet byte.
pub proof fn lemma_alphabet_byte(i: int)
    requires
        0 <= i < 64,
    ensures
        is_alphabet_byte(spec_alphabet(i)),
{
}

/// Distinct positions hold distinct bytes.
pub proof fn lemma_alphabet_injective(i: int, j: int)
    requires
        0 <= i < 64,
        0 <= j < 64,
        i != j,
    ensures
        spec_alphabet(i) != spec_alphabet(j),
{
}

/// The byte at position `i` of the alphabet.
pub fn alphabet_char(i: u8) -> (r: u8)
    requires
        i < 64,
    ensures
        r == spec_alphabet(i as int),
        is_alphabet_byte(r),
{
    let r: u8 = if i < 26 {
        97 + i
    } else if i < 52 {
        65 + (i - 26)
    } else if i < 62 {
        48 + (i - 52)
    } else if i == 62 {
        36
    } else {
        95
    };
    r
}

} // verus!
