//! Bitboards: 64-bit sets of squares, and the facts about bit operations
//! that the rest of the library reasons with.

use vstd::prelude::*;
use vstd::std_specs::bits::{u64_trailing_zeros, axiom_u64_trailing_zeros};

verus! {

/// A set of squares: bit `s` is set when square `s` belongs to the set.
pub type Bitboard = u64;

/// Square `s` belongs to the bitboard `bb`.
pub open spec fn has_bit(bb: u64, s: u64) -> bool {
    (bb >> s) & 1u64 == 1u64
}

/// The bitboard that holds exactly the squares below `n` that satisfy `p`.
pub open spec fn bits_upto(p: spec_fn(u64) -> bool, n: nat) -> u64
    decreases n,
{
    if n == 0 {
        0u64
    } else {
        let prev = bits_upto(p, (n - 1) as nat);
        if p((n - 1) as u64) {
            prev | (1u64 << ((n - 1) as u64))
        } else {
            prev
        }
    }
}

/// The bitboard of the squares that satisfy `p`.
pub open spec fn bits_of(p: spec_fn(u64) -> bool) -> u64 {
    bits_upto(p, 64)
}

pub proof fn lemma_or_bit(x: u64, y: u64, s: u64)
    ensures
        has_bit(x | y, s) == (has_bit(x, s) || has_bit(y, s)),
{
    assert(((x | y) >> s) & 1u64 == 1u64 <==> ((x >> s) & 1u64 == 1u64 || (y >> s) & 1u64
        == 1u64)) by (bit_vector);
}

pub proof fn lemma_and_bit(x: u64, y: u64, s: u64)
    ensures
        has_bit(x & y, s) == (has_bit(x, s) && has_bit(y, s)),
{
    assert(((x & y) >> s) & 1u64 == 1u64 <==> ((x >> s) & 1u64 == 1u64 && (y >> s) & 1u64
        == 1u64)) by (bit_vector);
}

pub proof fn lemma_not_bit(x: u64, s: u64)
    requires
        s < 64,
    ensures
        has_bit(!x, s) == !has_bit(x, s),
{
    assert(s < 64 ==> (((!x) >> s) & 1u64 == 1u64 <==> !((x >> s) & 1u64 == 1u64)))
        by (bit_vector);
}

pub proof fn lemma_xor_bit(x: u64, y: u64, s: u64)
    ensures
        has_bit(x ^ y, s) == (has_bit(x, s) != has_bit(y, s)),
{
    assert(((x ^ y) >> s) & 1u64 == 1u64 <==> ((x >> s) & 1u64 == 1u64) != ((y >> s) & 1u64
        == 1u64)) by (bit_vector);
}

pub proof fn lemma_single_bit(t: u64, s: u64)
    requires
        t < 64,
    ensures
        has_bit(1u64 << t, s) == (s == t),
{
    assert(t < 64 ==> ((((1u64 << t) >> s) & 1u64 == 1u64) <==> s == t)) by (bit_vector);
}

pub proof fn lemma_zero_bits(s: u64)
    ensures
        !has_bit(0u64, s),
{
    assert((0u64 >> s) & 1u64 != 1u64) by (bit_vector);
}

pub proof fn lemma_shl_bit(x: u64, k: u64, s: u64)
    requires
        k < 64,
        s < 64,
    ensures
        has_bit(x << k, s) == (s >= k && has_bit(x, (s - k) as u64)),
{
    assert(k < 64 && s < 64 ==> ((((x << k) >> s) & 1u64 == 1u64) <==> (s >= k && ((x >> (
    s - k) as u64) & 1u64 == 1u64)))) by (bit_vector);
}

pub proof fn lemma_shr_bit(x: u64, k: u64, s: u64)
    requires
        k < 64,
        s < 64,
    ensures
        has_bit(x >> k, s) == (s + k < 64 && has_bit(x, (s + k) as u64)),
{
    assert(k < 64 && s < 64 ==> ((((x >> k) >> s) & 1u64 == 1u64) <==> (s + k < 64 && ((x >> (
    s + k) as u64) & 1u64 == 1u64)))) by (bit_vector);
}

/// Two bitboards with the same squares are equal.
pub proof fn lemma_bits_ext(x: u64, y: u64)
    requires
        forall|s: u64| s < 64 ==> has_bit(x, s) == has_bit(y, s),
    ensures
        x == y,
{
    let d = x ^ y;
    assert forall|s: u64| s < 64 implies !has_bit(d, s) by {
        lemma_xor_bit(x, y, s);
    }
    if d != 0 {
        axiom_u64_trailing_zeros(d);
        let t = u64_trailing_zeros(d) as u64;
        assert(t < 64);
        assert(has_bit(d, t));
    }
    assert(x ^ y == 0u64 ==> x == y) by (bit_vector);
}

/// The squares of `bits_upto(p, n)` are those below `n` that satisfy `p`.
pub proof fn lemma_bits_upto(p: spec_fn(u64) -> bool, n: nat, s: u64)
    requires
        n <= 64,
    ensures
        has_bit(bits_upto(p, n), s) == (s < n && p(s)),
    decreases n,
{
    if n == 0 {
        lemma_zero_bits(s);
    } else {
        let prev = bits_upto(p, (n - 1) as nat);
        lemma_bits_upto(p, (n - 1) as nat, s);
        if p((n - 1) as u64) {
            lemma_or_bit(prev, 1u64 << ((n - 1) as u64), s);
            lemma_single_bit((n - 1) as u64, s);
        }
    }
}

/// The squares of `bits_of(p)` are exactly those that satisfy `p`.
pub proof fn lemma_bits_of(p: spec_fn(u64) -> bool, s: u64)
    requires
        s < 64,
    ensures
        has_bit(bits_of(p), s) == p(s),
{
    lemma_bits_upto(p, 64, s);
}

/// The lowest square of a non-empty bitboard is its number of trailing zeros,
/// and `x & (x - 1)` removes exactly that square.
pub proof fn lemma_pop_lsb(x: u64)
    requires
        x != 0,
    ensures
        u64_trailing_zeros(x) < 64,
        has_bit(x, u64_trailing_zeros(x) as u64),
        forall|s: u64| s < u64_trailing_zeros(x) ==> !has_bit(x, s),
        forall|s: u64| #[trigger]
            has_bit(x & ((x - 1) as u64), s) == (has_bit(x, s) && s != u64_trailing_zeros(x) as u64),
        x & ((x - 1) as u64) < x,
{
    axiom_u64_trailing_zeros(x);
    let t = u64_trailing_zeros(x) as u64;
    assert forall|s: u64| #[trigger]
        has_bit(x & ((x - 1) as u64), s) == (has_bit(x, s) && s != t) by {
        assert(x != 0 && t < 64 && (x >> t) & 1u64 == 1u64 && x << ((64 - t) as u64) == 0 ==> ((((x
            & ((x - 1) as u64)) >> s) & 1u64 == 1u64) <==> ((x >> s) & 1u64 == 1u64 && s != t)))
            by (bit_vector);
    }
    assert(x != 0 ==> x & ((x - 1) as u64) < x) by (bit_vector);
}

} // verus!

verus! {

/// Testing a square with a single-bit mask.
pub proof fn lemma_test_bit(x: u64, t: u64)
    requires
        t < 64,
    ensures
        ((x & (1u64 << t)) != 0) == has_bit(x, t),
{
    assert(t < 64 ==> (((x & (1u64 << t)) != 0) == ((x >> t) & 1u64 == 1u64))) by (bit_vector);
}

} // verus!
