//! Enumeration of every length-`L` suffix over the 64-symbol alphabet in
//! combinations-with-replacement order: non-decreasing index tuples in
//! lexicographic order, each multiset exactly once, `C(63 + L, L)` in all.

use crate::alphabet::{
    alphabet_char, is_alphabet_byte, lemma_alphabet_byte, lemma_alphabet_injective, spec_alphabet,
};
use crate::combinatorics::{
    binomial, lemma_binomial_above_diagonal, number_of_combinations_with_replacement,
};
use vstd::prelude::*;

verus! {

/// An index tuple the generator walks through: entries below 64,
/// non-decreasing.
pub open spec fn valid_tuple(t: Seq<u8>) -> bool {
    &&& forall|i: int| 0 <= i < t.len() ==> #[trigger] t[i] < 64
    &&& forall|i: int| 0 <= i && i + 1 < t.len() ==> #[trigger] t[i] <= t[i + 1]
}

/// The number of non-decreasing tuples of length `len` whose entries lie in
/// `[lo, 64)`.
pub open spec fn cfrom(lo: int, len: nat) -> nat
    recommends
        0 <= lo <= 64,
    decreases len, 64 - lo,
{
    if len == 0 {
        1
    } else if lo >= 64 {
        0
    } else {
        cfrom(lo, (len - 1) as nat) + cfrom(lo + 1, len)
    }
}

/// The number of valid completions of `t` from position `i` on: tuples of
/// length `t.len() - i`, non-decreasing, entries below 64, lexicographically
/// at least `t`'s own tail — that is, how many emissions remain, the tail of
/// `t` itself included.
pub open spec fn rfrom(t: Seq<u8>, i: int) -> nat
    recommends
        0 <= i <= t.len(),
    decreases t.len() - i,
{
    if i < 0 || i >= t.len() {
        1
    } else {
        rfrom(t, i + 1) + cfrom(t[i] + 1, (t.len() - i) as nat)
    }
}

/// Tuples counted from the top symbol have exactly one representative: the
/// constant tuple.
proof fn lemma_cfrom_top(len: nat)
    ensures
        cfrom(63, len) == 1,
    decreases len,
{
    if len > 0 {
        lemma_cfrom_top((len - 1) as nat);
        reveal_with_fuel(cfrom, 2);
    }
}

/// `cfrom` is the binomial count: choosing `len` symbols with replacement
/// out of the `64 - lo` that remain.
pub proof fn lemma_cfrom_binomial(lo: int, len: nat)
    requires
        0 <= lo <= 64,
    ensures
        cfrom(lo, len) == binomial((64 - lo - 1 + len) as nat, len),
    decreases len, 64 - lo,
{
    if len == 0 {
    } else if lo == 64 {
        lemma_binomial_above_diagonal((len - 1) as nat, len);
    } else {
        lemma_cfrom_binomial(lo, (len - 1) as nat);
        lemma_cfrom_binomial(lo + 1, len);
    }
}

/// A tuple that is constant from position `i` on has as many remaining
/// completions as there are tuples over its remaining symbols.
proof fn lemma_rfrom_const_suffix(t: Seq<u8>, i: int, v: u8)
    requires
        0 <= i <= t.len(),
        v < 64,
        forall|k: int| i <= k < t.len() ==> t[k] == v,
    ensures
        rfrom(t, i) == cfrom(v as int, (t.len() - i) as nat),
    decreases t.len() - i,
{
    if i < t.len() {
        lemma_rfrom_const_suffix(t, i + 1, v);
    }
}

/// Remaining counts at position `j` agree up to the difference already
/// established at position `p`, when the two tuples agree on `[j, p)`.
proof fn lemma_rfrom_common_prefix(t: Seq<u8>, s: Seq<u8>, j: int, p: int)
    requires
        t.len() == s.len(),
        0 <= j <= p <= t.len(),
        forall|k: int| j <= k < p ==> s[k] == t[k],
        rfrom(t, p) == rfrom(s, p) + 1,
    ensures
        rfrom(t, j) == rfrom(s, j) + 1,
    decreases p - j,
{
    if j < p {
        lemma_rfrom_common_prefix(t, s, j + 1, p);
    }
}

/// Stepping from a tuple to its lexicographic successor lowers the number
/// of remaining completions by exactly one.
proof fn lemma_rfrom_succ(t: Seq<u8>, s: Seq<u8>, p: int)
    requires
        t.len() == s.len(),
        0 <= p < t.len(),
        t[p] < 63,
        forall|k: int| p < k < t.len() ==> t[k] == 63,
        forall|k: int| 0 <= k < p ==> s[k] == t[k],
        forall|k: int| p <= k < s.len() ==> s[k] == t[p] + 1,
    ensures
        rfrom(t, 0) == rfrom(s, 0) + 1,
{
    let v: u8 = (t[p] + 1) as u8;
    lemma_rfrom_const_suffix(t, p + 1, 63);
    lemma_cfrom_top((t.len() - p - 1) as nat);
    assert(rfrom(t, p + 1) == 1);
    lemma_rfrom_const_suffix(s, p, v);
    assert(rfrom(t, p) == 1 + cfrom(v as int, (t.len() - p) as nat));
    assert(rfrom(s, p) == cfrom(v as int, (t.len() - p) as nat));
    lemma_rfrom_common_prefix(t, s, 0, p);
}

/// Strict lexicographic order on tuples.
pub open spec fn lex_lt(a: Seq<u8>, b: Seq<u8>) -> bool {
    exists|k: int|
        0 <= k < a.len() && k < b.len() && a[k] < b[k] && (forall|j: int|
            0 <= j < k ==> a[j] == b[j])
}

/// Lexicographic order is transitive on equal-length tuples.
proof fn lemma_lex_lt_trans(a: Seq<u8>, b: Seq<u8>, c: Seq<u8>)
    requires
        a.len() == b.len(),
        b.len() == c.len(),
        lex_lt(a, b),
        lex_lt(b, c),
    ensures
        lex_lt(a, c),
{
    let k1 = choose|k: int|
        0 <= k < a.len() && k < b.len() && a[k] < b[k] && (forall|j: int|
            0 <= j < k ==> a[j] == b[j]);
    let k2 = choose|k: int|
        0 <= k < b.len() && k < c.len() && b[k] < c[k] && (forall|j: int|
            0 <= j < k ==> b[j] == c[j]);
    if k1 < k2 {
        assert(a[k1] < c[k1] && (forall|j: int| 0 <= j < k1 ==> a[j] == c[j]));
    } else if k2 < k1 {
        assert(a[k2] < c[k2] && (forall|j: int| 0 <= j < k2 ==> a[j] == c[j]));
    } else {
        assert(a[k1] < c[k1] && (forall|j: int| 0 <= j < k1 ==> a[j] == c[j]));
    }
}

/// A non-decreasing tuple is sorted between any two positions.
proof fn lemma_sorted_full(t: Seq<u8>, i: int, j: int)
    requires
        valid_tuple(t),
        0 <= i <= j < t.len(),
    ensures
        t[i] <= t[j],
    decreases j - i,
{
    if i < j {
        lemma_sorted_full(t, i + 1, j);
    }
}

/// Lexicographic order is total on equal-length tuples.
proof fn lemma_lex_total(a: Seq<u8>, b: Seq<u8>, i: int)
    requires
        a.len() == b.len(),
        0 <= i <= a.len(),
        forall|j: int| 0 <= j < i ==> a[j] == b[j],
    ensures
        lex_lt(a, b) || a =~= b || lex_lt(b, a),
    decreases a.len() - i,
{
    if i == a.len() {
        assert(a =~= b);
    } else if a[i] < b[i] {
        assert(lex_lt(a, b));
    } else if b[i] < a[i] {
        assert(lex_lt(b, a));
    } else {
        lemma_lex_total(a, b, i + 1);
    }
}

/// No valid tuple lies strictly between a tuple and its lexicographic
/// successor.
proof fn lemma_succ_tight(t: Seq<u8>, s: Seq<u8>, p: int, u: Seq<u8>)
    requires
        t.len() == s.len(),
        0 <= p < t.len(),
        t[p] < 63,
        forall|k: int| p < k < t.len() ==> t[k] == 63,
        forall|k: int| 0 <= k < p ==> s[k] == t[k],
        forall|k: int| p <= k < s.len() ==> s[k] == t[p] + 1,
        valid_tuple(u),
        u.len() == t.len(),
        lex_lt(u, s),
    ensures
        lex_lt(u, t) || u =~= t,
{
    if !lex_lt(u, t) && !(u =~= t) {
        lemma_lex_total(u, t, 0);
        assert(lex_lt(t, u));
        let k2 = choose|k: int|
            0 <= k < u.len() && k < s.len() && u[k] < s[k] && (forall|j: int|
                0 <= j < k ==> u[j] == s[j]);
        let k1 = choose|k: int|
            0 <= k < t.len() && k < u.len() && t[k] < u[k] && (forall|j: int|
                0 <= j < k ==> t[j] == u[j]);
        if k2 < p {
            assert(u[k2] < t[k2] && (forall|j: int| 0 <= j < k2 ==> u[j] == t[j]));
            assert(lex_lt(u, t));
        } else if k2 == p {
            if u[p] < t[p] {
                assert(u[p] < t[p] && (forall|j: int| 0 <= j < p ==> u[j] == t[j]));
                assert(lex_lt(u, t));
            } else {
                assert(u[p] == t[p]);
                if k1 < p {
                    assert(u[k1] == s[k1]);
                    assert(s[k1] == t[k1]);
                } else if k1 == p {
                    assert(t[k1] == u[k1]);
                } else {
                    assert(t[k1] == 63);
                    assert(u[k1] < 64);
                }
            }
        } else {
            assert(u[p] == s[p]);
            lemma_sorted_full(u, p, k2);
        }
    }
}

/// Lexicographically ordered tuples are distinct.
proof fn lemma_lex_lt_ne(a: Seq<u8>, b: Seq<u8>)
    requires
        lex_lt(a, b),
    ensures
        a != b,
{
    let k = choose|k: int|
        0 <= k < a.len() && k < b.len() && a[k] < b[k] && (forall|j: int|
            0 <= j < k ==> a[j] == b[j]);
    assert(a[k] != b[k]);
}

/// The suffix an index tuple stands for: its entries read through the
/// alphabet.
pub open spec fn tuple_to_suffix(t: Seq<u8>) -> Seq<u8> {
    Seq::new(t.len(), |i: int| spec_alphabet(t[i] as int))
}

/// Distinct tuples of equal length yield distinct suffixes.
proof fn lemma_tuple_to_suffix_injective(a: Seq<u8>, b: Seq<u8>)
    requires
        a.len() == b.len(),
        forall|i: int| 0 <= i < a.len() ==> #[trigger] a[i] < 64,
        forall|i: int| 0 <= i < b.len() ==> #[trigger] b[i] < 64,
        a != b,
    ensures
        tuple_to_suffix(a) != tuple_to_suffix(b),
{
    assert(exists|k: int| 0 <= k < a.len() && a[k] != b[k]) by {
        if forall|k: int| 0 <= k < a.len() ==> #[trigger] a[k] == b[k] {
            assert(a =~= b);
        }
    }
    let k = choose|k: int| 0 <= k < a.len() && a[k] != b[k];
    lemma_alphabet_injective(a[k] as int, b[k] as int);
    assert(tuple_to_suffix(a)[k] != tuple_to_suffix(b)[k]);
}

/// The suffix enumerator: walks every non-decreasing length-`L` index tuple
/// over the alphabet in lexicographic order and renders each as a suffix.
pub struct SuffixGenerator {
    state: Vec<u8>,
    done: bool,
    total: u128,
    emitted: Ghost<Seq<Seq<u8>>>,
}

impl SuffixGenerator {
    /// Length of every suffix this generator emits.
    pub closed spec fn suffix_len(self) -> nat {
        self.state@.len()
    }

    /// Whether the space is exhausted.
    pub closed spec fn is_done(self) -> bool {
        self.done
    }

    /// The index tuples emitted so far, in emission order.
    pub closed spec fn emitted_tuples(self) -> Seq<Seq<u8>> {
        self.emitted@
    }

    /// The suffixes emitted so far, in emission order.
    pub open spec fn emitted_suffixes(self) -> Seq<Seq<u8>> {
        self.emitted_tuples().map_values(|t: Seq<u8>| tuple_to_suffix(t))
    }

    /// The exact size of the space this generator enumerates.
    pub open spec fn space_size(self) -> nat {
        binomial((63 + self.suffix_len()) as nat, self.suffix_len())
    }

    /// Well-formedness: the walk state is a valid tuple, everything emitted
    /// so far was valid, strictly increasing in lexicographic order and
    /// below the current state, and the emitted count plus the remaining
    /// count is the exact size of the space.
    pub closed spec fn wf(self) -> bool {
        &&& 1 <= self.state@.len() <= 20
        &&& valid_tuple(self.state@)
        &&& self.total == cfrom(0, self.state@.len())
        &&& forall|k: int|
            0 <= k < self.emitted@.len() ==> (#[trigger] self.emitted@[k]).len()
                == self.state@.len()
        &&& forall|k: int| 0 <= k < self.emitted@.len() ==> valid_tuple(#[trigger] self.emitted@[k])
        &&& (!self.done ==> forall|k: int|
            0 <= k < self.emitted@.len() ==> lex_lt(#[trigger] self.emitted@[k], self.state@))
        &&& forall|k1: int, k2: int|
            0 <= k1 < k2 < self.emitted@.len() ==> lex_lt(self.emitted@[k1], self.emitted@[k2])
        &&& (!self.done ==> self.emitted@.len() + rfrom(self.state@, 0) == self.total)
        &&& (self.done ==> self.emitted@.len() == self.total)
        &&& (!self.done ==> forall|u: Seq<u8>|
            #![trigger lex_lt(u, self.state@)]
            valid_tuple(u) && u.len() == self.state@.len() && lex_lt(u, self.state@)
                ==> self.emitted@.contains(u))
        &&& (self.done ==> forall|u: Seq<u8>|
            #![trigger self.emitted@.contains(u)]
            valid_tuple(u) && u.len() == self.state@.len() ==> self.emitted@.contains(u))
    }

    /// The exact number of suffixes this generator enumerates in all:
    /// `C(63 + L, L)` for suffix length `L`. Available before any suffix is
    /// produced.
    pub fn total_count(&self) -> (n: u128)
        requires
            self.wf(),
        ensures
            n == self.space_size(),
    {
        proof {
            lemma_cfrom_binomial(0, self.suffix_len());
        }
        self.total
    }

    /// The next suffix in canonical order, or `None` once the space is
    /// exhausted. Every returned suffix has the configured length, is made
    /// of alphabet bytes only, and extends the emission record by itself.
    #[verifier::rlimit(60)]
    pub fn next_suffix(&mut self) -> (r: Option<Vec<u8>>)
        requires
            old(self).wf(),
        ensures
            final(self).wf(),
            final(self).suffix_len() == old(self).suffix_len(),
            r is Some <==> !old(self).is_done(),
            old(self).is_done() ==> *final(self) == *old(self),
            !old(self).is_done() ==> {
                &&& final(self).emitted_suffixes() =~= old(self).emitted_suffixes().push(
                    r->Some_0@,
                )
                &&& r->Some_0@.len() == old(self).suffix_len()
                &&& forall|j: int| 0 <= j < r->Some_0@.len() ==> is_alphabet_byte(r->Some_0@[j])
            },
    {
        if self.done {
            return None;
        }
        let ghost old_tuple = self.state@;
        let ghost old_emitted = self.emitted@;

        // Render the current tuple as a suffix.
        let len = self.state.len();
        let mut s: Vec<u8> = Vec::new();
        let mut i: usize = 0;
        while i < len
            invariant
                0 <= i <= len,
                self.state@ == old_tuple,
                len == old_tuple.len(),
                valid_tuple(old_tuple),
                s@ =~= tuple_to_suffix(old_tuple).subrange(0, i as int),
            decreases len - i,
        {
            let c = alphabet_char(self.state[i]);
            s.push(c);
            proof {
                assert(s@ =~= tuple_to_suffix(old_tuple).subrange(0, i + 1));
            }
            i += 1;
        }
        proof {
            assert(s@ =~= tuple_to_suffix(old_tuple));
        }

        // Record the emission.
        self.emitted = Ghost(self.emitted@.push(old_tuple));

        // Step to the lexicographic successor: find the rightmost entry
        // that can still grow.
        let mut j: usize = len;
        while j > 0 && self.state[j - 1] == 63
            invariant
                0 <= j <= len,
                self.state@ == old_tuple,
                len == old_tuple.len(),
                valid_tuple(old_tuple),
                forall|k: int| j <= k < len ==> old_tuple[k] == 63,
            decreases j,
        {
            j -= 1;
        }
        if j == 0 {
            // Everything is at the top symbol: the space is exhausted.
            self.done = true;
            proof {
                lemma_rfrom_const_suffix(old_tuple, 0, 63);
                lemma_cfrom_top(old_tuple.len());
                assert(rfrom(old_tuple, 0) == 1);
                assert(self.emitted@.len() == self.total);
                assert forall|k1: int, k2: int|
                    0 <= k1 < k2 < self.emitted@.len() implies lex_lt(
                    self.emitted@[k1],
                    self.emitted@[k2],
                ) by {
                    if k2 < old_emitted.len() {
                    } else {
                        assert(self.emitted@[k2] == old_tuple);
                        assert(lex_lt(old_emitted[k1], old_tuple));
                    }
                }
                assert forall|u: Seq<u8>|
                    valid_tuple(u) && u.len() == self.state@.len() implies #[trigger] self.emitted@.contains(
                    u,
                ) by {
                    lemma_lex_total(u, old_tuple, 0);
                    if lex_lt(old_tuple, u) {
                        let k = choose|k: int|
                            0 <= k < old_tuple.len() && k < u.len() && old_tuple[k] < u[k] && (
                            forall|j: int| 0 <= j < k ==> old_tuple[j] == u[j]);
                        assert(old_tuple[k] == 63);
                        assert(u[k] < 64);
                    } else if u =~= old_tuple {
                        assert(self.emitted@[old_emitted.len() as int] == u);
                    } else {
                        assert(lex_lt(u, old_tuple));
                        assert(old_emitted.contains(u));
                        let idx = choose|i: int| 0 <= i < old_emitted.len() && old_emitted[i] == u;
                        assert(self.emitted@[idx] == u);
                    }
                }
            }
            return Some(s);
        }
        let p = j - 1;
        let v = self.state[p] + 1;
        proof {
            assert(old_tuple[p as int] != 63);
            assert(old_tuple[p as int] < 64);
        }
        let mut k: usize = p;
        while k < len
            invariant
                p <= k <= len,
                p < len,
                self.state@.len() == len,
                len == old_tuple.len(),
                v == old_tuple[p as int] + 1,
                v <= 64,
                valid_tuple(old_tuple),
                old_tuple[p as int] < 63,
                self.done == false,
                self.total == old(self).total,
                self.emitted@ == old_emitted.push(old_tuple),
                old_emitted == old(self).emitted@,
                forall|q: int| 0 <= q < p ==> self.state@[q] == old_tuple[q],
                forall|q: int| p <= q < k ==> self.state@[q] == v,
                forall|q: int| k <= q < len ==> self.state@[q] == old_tuple[q],
            decreases len - k,
        {
            self.state.set(k, v);
            k += 1;
        }
        proof {
            let t2 = self.state@;
            assert(valid_tuple(t2)) by {
                assert forall|q: int| 0 <= q < t2.len() implies #[trigger] t2[q] < 64 by {
                    if q < p {
                        assert(old_tuple[q] < 64);
                    }
                }
                assert forall|q: int| 0 <= q && q + 1 < t2.len() implies #[trigger] t2[q] <= t2[q
                    + 1] by {
                    if q + 1 < p {
                        assert(old_tuple[q] <= old_tuple[q + 1]);
                    } else if q + 1 == p {
                        assert(old_tuple[q] <= old_tuple[q + 1]);
                    }
                }
            }
            lemma_rfrom_succ(old_tuple, t2, p as int);
            assert(lex_lt(old_tuple, t2)) by {
                assert(old_tuple[p as int] < t2[p as int] && (forall|q: int|
                    0 <= q < p ==> old_tuple[q] == t2[q]));
            }
            assert forall|kk: int| 0 <= kk < self.emitted@.len() implies lex_lt(
                #[trigger] self.emitted@[kk],
                t2,
            ) by {
                if kk < old_emitted.len() {
                    assert(lex_lt(old_emitted[kk], old_tuple));
                    lemma_lex_lt_trans(old_emitted[kk], old_tuple, t2);
                } else {
                    assert(self.emitted@[kk] == old_tuple);
                }
            }
            assert forall|k1: int, k2: int|
                0 <= k1 < k2 < self.emitted@.len() implies lex_lt(
                self.emitted@[k1],
                self.emitted@[k2],
            ) by {
                if k2 < old_emitted.len() {
                } else {
                    assert(self.emitted@[k2] == old_tuple);
                    assert(lex_lt(old_emitted[k1], old_tuple));
                }
            }
            assert forall|u: Seq<u8>|
                valid_tuple(u) && u.len() == t2.len() && lex_lt(u, t2) implies self.emitted@.contains(
                u,
            ) by {
                lemma_succ_tight(old_tuple, t2, p as int, u);
                if u =~= old_tuple {
                    assert(self.emitted@[old_emitted.len() as int] == u);
                } else {
                    assert(lex_lt(u, old_tuple));
                    assert(old_emitted.contains(u));
                    let idx = choose|i: int| 0 <= i < old_emitted.len() && old_emitted[i] == u;
                    assert(self.emitted@[idx] == u);
                }
            }
        }
        Some(s)
    }
}

/// A generator over all suffixes of the given length, none emitted yet.
pub fn generate_suffixes(suffix_length: u8) -> (g: SuffixGenerator)
    requires
        1 <= suffix_length <= 20,
    ensures
        g.wf(),
        !g.is_done(),
        g.suffix_len() == suffix_length,
        g.emitted_suffixes() =~= Seq::<Seq<u8>>::empty(),
{
    let total = number_of_combinations_with_replacement(64, suffix_length as u128);
    let mut state: Vec<u8> = Vec::new();
    let mut i: usize = 0;
    let n = suffix_length as usize;
    while i < n
        invariant
            0 <= i <= n,
            state@.len() == i,
            forall|k: int| 0 <= k < i ==> state@[k] == 0u8,
        decreases n - i,
    {
        state.push(0);
        i += 1;
    }
    proof {
        lemma_rfrom_const_suffix(state@, 0, 0);
        lemma_cfrom_binomial(0, suffix_length as nat);
        assert forall|u: Seq<u8>|
            valid_tuple(u) && u.len() == state@.len() && lex_lt(u, state@) implies Seq::<
            Seq<u8>,
        >::empty().contains(u) by {
            let k = choose|k: int|
                0 <= k < u.len() && k < state@.len() && u[k] < state@[k] && (forall|j: int|
                    0 <= j < k ==> u[j] == state@[j]);
            assert(state@[k] == 0u8);
        }
    }
    SuffixGenerator { state, done: false, total, emitted: Ghost(Seq::empty()) }
}

/// Law: of a well-formed generator, every suffix emitted so far has the
/// configured length and alphabet bytes only, no suffix was emitted twice,
/// the underlying index tuples were walked in strictly increasing
/// lexicographic order, and once the generator is done the number emitted
/// is exactly `C(63 + L, L)` and every valid tuple's suffix was emitted.
pub proof fn lemma_emitted_suffixes_correct(g: SuffixGenerator)
    requires
        g.wf(),
    ensures
        g.is_done() ==> forall|u: Seq<u8>|
            valid_tuple(u) && u.len() == g.suffix_len()
                ==> #[trigger] g.emitted_suffixes().contains(tuple_to_suffix(u)),
        forall|k1: int, k2: int|
            0 <= k1 < k2 < g.emitted_tuples().len() ==> lex_lt(
                g.emitted_tuples()[k1],
                g.emitted_tuples()[k2],
            ),
        forall|k: int|
            0 <= k < g.emitted_suffixes().len() ==> (#[trigger] g.emitted_suffixes()[k]).len()
                == g.suffix_len(),
        forall|k: int, j: int|
            0 <= k < g.emitted_suffixes().len() && 0 <= j < g.suffix_len() ==> is_alphabet_byte(
                g.emitted_suffixes()[k][j],
            ),
        forall|k1: int, k2: int|
            0 <= k1 < k2 < g.emitted_suffixes().len() ==> g.emitted_suffixes()[k1]
                != g.emitted_suffixes()[k2],
        g.is_done() ==> g.emitted_suffixes().len() == g.space_size(),
{
    assert forall|k: int, j: int|
        0 <= k < g.emitted_suffixes().len() && 0 <= j < g.suffix_len() implies is_alphabet_byte(
        g.emitted_suffixes()[k][j],
    ) by {
        let t = g.emitted_tuples()[k];
        assert(valid_tuple(t));
        assert(g.emitted_suffixes()[k][j] == spec_alphabet(t[j] as int));
        lemma_alphabet_byte(t[j] as int);
    }
    assert forall|k1: int, k2: int|
        0 <= k1 < k2 < g.emitted_suffixes().len() implies g.emitted_suffixes()[k1]
        != g.emitted_suffixes()[k2] by {
        let t1 = g.emitted_tuples()[k1];
        let t2 = g.emitted_tuples()[k2];
        assert(lex_lt(t1, t2));
        lemma_lex_lt_ne(t1, t2);
        lemma_tuple_to_suffix_injective(t1, t2);
    }
    if g.is_done() {
        lemma_cfrom_binomial(0, g.suffix_len());
        assert forall|u: Seq<u8>|
            valid_tuple(u) && u.len() == g.suffix_len() implies #[trigger] g.emitted_suffixes().contains(
            tuple_to_suffix(u),
        ) by {
            assert(g.emitted_tuples().contains(u));
            let idx = choose|i: int| 0 <= i < g.emitted_tuples().len() && g.emitted_tuples()[i] == u;
            assert(g.emitted_suffixes()[idx] == tuple_to_suffix(u));
        }
    }
}

} // verus!
