//! Validation of the zero-byte threshold given on the command line: a
//! decimal number that must lie within the selector's length, 1 to 4.

use vstd::prelude::*;
use vstd::string::StringSliceAdditionalSpecFns;

verus! {

/// The digits of a number literal: an optional leading `+` sign is
/// stripped, as the standard integer parser does.
pub open spec fn digits_of(s: Seq<u8>) -> Seq<u8> {
    if s.len() > 0 && s[0] == 43u8 {
        s.skip(1)
    } else {
        s
    }
}

/// A non-empty run of ASCII decimal digits.
pub open spec fn all_dec_digits(s: Seq<u8>) -> bool {
    s.len() > 0 && forall|i: int| 0 <= i < s.len() ==> 48 <= #[trigger] s[i] <= 57
}

/// The value of a digit run read as a decimal number.
pub open spec fn dec_value(s: Seq<u8>) -> int
    decreases s.len(),
{
    if s.len() == 0 {
        0
    } else {
        dec_value(s.drop_last()) * 10 + s.last() - 48
    }
}

proof fn lemma_dec_value_nonneg(s: Seq<u8>)
    requires
        forall|i: int| 0 <= i < s.len() ==> 48 <= #[trigger] s[i] <= 57,
    ensures
        dec_value(s) >= 0,
    decreases s.len(),
{
    if s.len() > 0 {
        lemma_dec_value_nonneg(s.drop_last());
    }
}

/// Reading more digits never shrinks the value.
proof fn lemma_dec_value_prefix(s: Seq<u8>, j: int)
    requires
        0 <= j <= s.len(),
        forall|i: int| 0 <= i < s.len() ==> 48 <= #[trigger] s[i] <= 57,
    ensures
        dec_value(s) >= dec_value(s.subrange(0, j)),
    decreases s.len() - j,
{
    if j == s.len() {
        assert(s.subrange(0, j) =~= s);
    } else {
        lemma_dec_value_prefix(s.drop_last(), j);
        assert(s.drop_last().subrange(0, j) =~= s.subrange(0, j));
        lemma_dec_value_nonneg(s.drop_last());
    }
}

/// Checks that a command-line value is a decimal number within the
/// selector's length: `Ok` exactly on digit runs (with optional `+` sign)
/// whose value is 1 to 4, the number of bytes a selector has.
pub fn zero_bytes_within_selector_length(s: &str) -> (r: Result<u8, String>)
    ensures
        ({
            let b = digits_of(s.spec_bytes());
            &&& (r is Ok <==> all_dec_digits(b) && 1 <= dec_value(b) <= 4)
            &&& (r is Ok ==> r->Ok_0 == dec_value(b))
            &&& (r is Err ==> if !all_dec_digits(b) || dec_value(b) > 255 {
                r->Err_0@ == "not a number"@
            } else {
                r->Err_0@
                    == "Number of bytes to be zeroed out not within length of function selector 1-4"@
            })
        }),
{
    let bytes = s.as_bytes();
    let n = bytes.len();
    let mut i: usize = 0;
    if n > 0 && bytes[0] == 43 {
        i = 1;
    }
    let ghost b = digits_of(s.spec_bytes());
    proof {
        assert(b =~= bytes@.subrange(i as int, n as int));
    }
    if i >= n {
        return Err("not a number".to_owned());
    }
    let mut value: u32 = 0;
    let mut j: usize = i;
    while j < n
        invariant
            i <= j <= n,
            i < n,
            n == bytes@.len(),
            bytes@ == s.spec_bytes(),
            b == digits_of(s.spec_bytes()),
            b =~= bytes@.subrange(i as int, n as int),
            forall|q: int| i <= q < j ==> 48 <= #[trigger] bytes@[q] <= 57,
            value == dec_value(bytes@.subrange(i as int, j as int)),
            value <= 255,
        decreases n - j,
    {
        let c = bytes[j];
        if c < 48 || c > 57 {
            proof {
                assert(b[j - i] == bytes@[j as int]);
            }
            return Err("not a number".to_owned());
        }
        proof {
            assert(bytes@.subrange(i as int, j + 1).drop_last() =~= bytes@.subrange(
                i as int,
                j as int,
            ));
            assert(bytes@.subrange(i as int, j + 1).last() == bytes@[j as int]);
        }
        value = value * 10 + (c - 48) as u32;
        if value > 255 {
            proof {
                if all_dec_digits(b) {
                    lemma_dec_value_prefix(b, j + 1 - i);
                    assert(b.subrange(0, j + 1 - i) =~= bytes@.subrange(i as int, j + 1));
                }
            }
            return Err("not a number".to_owned());
        }
        j += 1;
    }
    proof {
        assert(bytes@.subrange(i as int, n as int) =~= b);
        assert(all_dec_digits(b));
    }
    if 1 <= value && value <= 4 {
        Ok(value as u8)
    } else {
        Err("Number of bytes to be zeroed out not within length of function selector 1-4".to_owned())
    }
}

} // verus!
