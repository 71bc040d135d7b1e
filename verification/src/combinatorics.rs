//! Binomial coefficients, used for the exact cardinality of the suffix
//! search space: the number of length-`r` combinations with replacement
//! over an alphabet of `n` symbols is `C(n + r - 1, r)`.

use vstd::arithmetic::power2::{lemma2_to64, lemma_pow2_adds, lemma_pow2_pos, pow2};
use vstd::prelude::*;

verus! {

/// The binomial coefficient `C(n, k)`, by Pascal's rule.
pub open spec fn binomial(n: nat, k: nat) -> nat
    decreases n, k,
{
    if k == 0 {
        1
    } else if n == 0 {
        0
    } else {
        binomial((n - 1) as nat, (k - 1) as nat) + binomial((n - 1) as nat, k)
    }
}

/// Choosing more items than are available leaves no combination.
pub proof fn lemma_binomial_above_diagonal(n: nat, k: nat)
    requires
        k > n,
    ensures
        binomial(n, k) == 0,
    decreases n,
{
    if n > 0 {
        lemma_binomial_above_diagonal((n - 1) as nat, (k - 1) as nat);
        lemma_binomial_above_diagonal((n - 1) as nat, k);
    }
}

/// Every binomial coefficient is bounded by the corresponding power of two.
pub proof fn lemma_binomial_le_pow2(n: nat, k: nat)
    ensures
        binomial(n, k) <= pow2(n),
    decreases n,
{
    lemma_pow2_pos(n);
    if k == 0 {
    } else if n == 0 {
    } else {
        lemma_binomial_le_pow2((n - 1) as nat, (k - 1) as nat);
        lemma_binomial_le_pow2((n - 1) as nat, k);
        assert(pow2(n) == 2 * pow2((n - 1) as nat)) by {
            lemma_pow2_adds(1, (n - 1) as nat);
            lemma2_to64();
        }
    }
}

/// Concrete bound: any `C(n, k)` with `n <= 83` fits comfortably in `u128`.
pub proof fn lemma_binomial_fits_u128(n: nat, k: nat)
    requires
        n <= 83,
    ensures
        binomial(n, k) <= 0x80000_0000_0000_0000_0000,
    decreases 83 - n,
{
    if n < 83 {
        lemma_binomial_fits_u128((n + 1) as nat, k);
        if k > 0 {
            assert(binomial((n + 1) as nat, k) == binomial(n, (k - 1) as nat) + binomial(n, k));
        }
    } else {
        lemma_binomial_le_pow2(83, k);
        assert(pow2(83) == 0x80000_0000_0000_0000_0000) by {
            lemma_pow2_adds(64, 19);
            lemma2_to64();
        }
    }
}

/// The number of length-`r` combinations with replacement over `n` symbols,
/// computed exactly: `C(n + r - 1, r)`.
///
/// The Pascal-triangle row is carried in a vector, so the computation is
/// exact for the whole supported range (`n` up to the 64-symbol alphabet,
/// `r` up to the longest supported suffix) without overflow.
pub fn number_of_combinations_with_replacement(n: u128, r: u128) -> (c: u128)
    requires
        1 <= n <= 64,
        1 <= r <= 20,
    ensures
        c == binomial((n + r - 1) as nat, r as nat),
{
    let m: usize = (n + r - 1) as usize;
    let width: usize = r as usize + 1;
    let mut row: Vec<u128> = Vec::new();
    row.push(1);
    let mut j: usize = 1;
    while j < width
        invariant
            1 <= j <= width,
            row@.len() == j,
            row@[0] == 1,
            forall|p: int| 1 <= p < j ==> row@[p] == 0,
        decreases width - j,
    {
        row.push(0);
        j += 1;
    }
    proof {
        assert(forall|p: int| 0 <= p < width ==> row@[p] == binomial(0, p as nat));
    }
    let mut i: usize = 1;
    while i <= m
        invariant
            1 <= i <= m + 1,
            1 <= m <= 83,
            width == r + 1,
            2 <= width <= 21,
            row@.len() == width,
            forall|p: int| 0 <= p < width ==> row@[p] == binomial((i - 1) as nat, p as nat),
        decreases m + 1 - i,
    {
        let mut j: usize = width - 1;
        while j >= 1
            invariant
                0 <= j < width,
                2 <= width <= 21,
                row@.len() == width,
                1 <= i <= m <= 83,
                forall|p: int| 0 <= p <= j ==> row@[p] == binomial((i - 1) as nat, p as nat),
                forall|p: int| j < p < width ==> row@[p] == binomial(i as nat, p as nat),
            decreases j,
        {
            proof {
                lemma_binomial_fits_u128((i - 1) as nat, (j - 1) as nat);
                lemma_binomial_fits_u128((i - 1) as nat, j as nat);
            }
            let updated: u128 = row[j] + row[j - 1];
            proof {
                assert(updated == binomial(i as nat, j as nat));
            }
            row.set(j, updated);
            j -= 1;
        }
        proof {
            assert(row@[0] == binomial(i as nat, 0));
        }
        i += 1;
    }
    row[width - 1]
}

} // verus!
