//! Magic bitboards for rook attacks: the blocker sets of a rook's lines, the
//! search for a multiplier that maps each of them to a table slot without a
//! harmful collision, and the lookup in such a table.

use vstd::prelude::*;
use vstd::std_specs::bits::{u64_trailing_zeros, axiom_u64_trailing_zeros};
use crate::bits::{Bitboard, has_bit, lemma_pop_lsb, lemma_or_bit, lemma_and_bit, lemma_bits_of, lemma_bits_ext, lemma_zero_bits};
use crate::movegen::{set_bits, lemma_set_bits_members};
use crate::slider::{ray_attacks, rook_table, on_ray, slider_rel};
use crate::types::Square;
use crate::rng::{random_u64, random_below};
use vstd::wrapping::u64_specs::wrapping_mul;

verus! {

/// The number of squares of a bitboard is at most 64, and at most 64 less
/// its number of trailing zeros.
proof fn lemma_set_bits_len(x: u64)
    ensures
        set_bits(x).len() <= 64,
        x != 0 ==> set_bits(x).len() + u64_trailing_zeros(x) <= 64,
    decreases x,
{
    if x != 0 {
        lemma_pop_lsb(x);
        let n = x & ((x - 1) as u64);
        lemma_set_bits_len(n);
        if n != 0 {
            lemma_pop_lsb(n);
            let tn = u64_trailing_zeros(n) as u64;
            assert(has_bit(n, tn));
            assert(has_bit(x, tn) && tn != u64_trailing_zeros(x) as u64);
        }
    }
}

/// Clearing the lowest square by exclusive or is clearing it with `x & (x - 1)`.
proof fn lemma_clear_lsb(x: u64)
    requires
        x != 0,
    ensures
        x ^ (1u64 << (u64_trailing_zeros(x) as u64)) == x & ((x - 1) as u64),
{
    axiom_u64_trailing_zeros(x);
    let t = u64_trailing_zeros(x) as u64;
    assert(x != 0 && t < 64 && (x >> t) & 1u64 == 1u64 && x << ((64 - t) as u64) == 0 ==> x ^ (1u64
        << t) == x & ((x - 1) as u64)) by (bit_vector);
}

/// The number of squares of `x`.
pub fn count_bits(x: Bitboard) -> (r: u32)
    ensures
        r == set_bits(x).len(),
{
    proof {
        lemma_set_bits_len(x);
    }
    let mut rest = x;
    let mut count: u32 = 0;
    while rest != 0
        invariant
            count + set_bits(rest).len() == set_bits(x).len(),
            set_bits(x).len() <= 64,
        decreases rest,
    {
        proof {
            lemma_pop_lsb(rest);
        }
        rest = rest & (rest - 1);
        count += 1;
    }
    count
}

/// The blocker set numbered `i`: bit `j` of `i` tells whether the `j`-th
/// square of `squares` is occupied.
pub open spec fn deposit(i: u32, squares: Seq<u8>) -> u64
    decreases squares.len(),
{
    if squares.len() == 0 {
        0u64
    } else {
        deposit(i, squares.drop_last()) | ((((i >> ((squares.len() - 1) as u32)) & 1u32) as u64) << (
        squares.last() as u64))
    }
}

/// Every blocker set on the squares of `mask`: the set numbered `i`
/// occupies the `j`-th square of the mask, counted from a1, when bit `j` of
/// `i` is set.
pub fn generate_blocker_permutations(mask: Bitboard) -> (r: Vec<Bitboard>)
    requires
        set_bits(mask).len() <= 30,
    ensures
        r@.len() == (1u32 << set_bits(mask).len()),
        forall|i: int| 0 <= i < r@.len() ==> #[trigger] r@[i] == deposit(i as u32, set_bits(mask)),
{
    let ghost squares = set_bits(mask);
    let bits = count_bits(mask);
    let total: u32 = 1u32 << bits;
    let mut perms: Vec<Bitboard> = Vec::new();
    let mut i: u32 = 0;
    while i < total
        invariant
            squares == set_bits(mask),
            bits == squares.len(),
            bits <= 30,
            i <= total,
            perms@.len() == i,
            forall|k: int| 0 <= k < i ==> #[trigger] perms@[k] == deposit(k as u32, squares),
        decreases total - i,
    {
        let mut result: u64 = 0;
        let mut temp = mask;
        let mut j: u32 = 0;
        assert(squares.take(0) =~= Seq::<u8>::empty());
        assert(squares.subrange(0, bits as int) =~= squares);
        while j < bits
            invariant
                squares == set_bits(mask),
                bits == squares.len(),
                bits <= 30,
                j <= bits,
                set_bits(temp) == squares.subrange(j as int, bits as int),
                result == deposit(i, squares.take(j as int)),
            decreases bits - j,
        {
            assert(set_bits(temp).len() > 0);
            assert(temp != 0);
            proof {
                lemma_pop_lsb(temp);
                lemma_clear_lsb(temp);
            }
            let ghost old_temp = temp;
            let lsb = temp.trailing_zeros();
            assert(set_bits(old_temp) == seq![lsb as u8] + set_bits(old_temp & ((old_temp - 1) as u64)));
            assert(set_bits(old_temp)[0] == lsb as u8);
            assert(squares[j as int] == set_bits(old_temp)[0]);
            assert(squares.take(j + 1).drop_last() =~= squares.take(j as int));
            result |= (((i >> j) & 1) as u64) << lsb;
            temp ^= 1 << lsb;
            assert(temp == old_temp & ((old_temp - 1) as u64));
            assert(set_bits(temp) =~= set_bits(old_temp).drop_first());
            assert(set_bits(temp) =~= squares.subrange(j + 1, bits as int));
            j += 1;
        }
        assert(squares.take(bits as int) =~= squares);
        perms.push(result);
        i += 1;
    }
    perms
}

/// The squares a rook on `square` attacks when `blockers` are occupied,
/// walking each of its four lines from the square outwards up to the first
/// blocker.
pub fn gen_attacks_naive(square: Square, blockers: Bitboard) -> (r: Bitboard)
    requires
        square < 64,
    ensures
        r == rook_table(square as int, blockers),
{
    let mut attacks: u64 = 0;
    let mut d: usize = 0;
    proof {
        assert forall|t: u64| t < 64 implies !has_bit(attacks, t) by {
            lemma_zero_bits(t);
        }
    }
    while d < 4
        invariant
            square < 64,
            d <= 4,
            forall|t: u64|
                t < 64 ==> has_bit(attacks, t) == (exists|e: int|
                    0 <= e < d && #[trigger] on_ray(square as int, e, blockers, t as int)),
        decreases 4 - d,
    {
        let ray = ray_attacks(square, blockers, d);
        let old_attacks = attacks;
        attacks = attacks | ray;
        proof {
            assert forall|t: u64| t < 64 implies has_bit(attacks, t) == (exists|e: int|
                0 <= e < d + 1 && #[trigger] on_ray(square as int, e, blockers, t as int)) by {
                lemma_or_bit(old_attacks, ray, t);
                lemma_bits_of(|u: u64| on_ray(square as int, d as int, blockers, u as int), t);
                if on_ray(square as int, d as int, blockers, t as int) {
                    assert(0 <= d < d + 1);
                }
            }
        }
        d += 1;
    }
    proof {
        let s = square as int;
        assert forall|t: u64| t < 64 implies has_bit(attacks, t) == has_bit(rook_table(s, blockers), t) by {
            lemma_bits_of(|u: u64| slider_rel(s, blockers, false, u as int), t);
            if on_ray(s, 0, blockers, t as int) || on_ray(s, 1, blockers, t as int) || on_ray(s, 2, blockers, t as int)
                || on_ray(s, 3, blockers, t as int) {
                if on_ray(s, 0, blockers, t as int) {
                    assert(0 <= 0int < 4);
                }
                if on_ray(s, 1, blockers, t as int) {
                    assert(0 <= 1int < 4);
                }
                if on_ray(s, 2, blockers, t as int) {
                    assert(0 <= 2int < 4);
                }
                if on_ray(s, 3, blockers, t as int) {
                    assert(0 <= 3int < 4);
                }
            }
        }
        lemma_bits_ext(attacks, rook_table(s, blockers));
    }
    attacks
}

/// What a slot of a magic table holds until an attack set is put in it.
pub const EMPTY_SLOT: u64 = 0xdeadbeefdeadbeef;

/// A rook's magic: the squares of its lines, the multiplier, the shift that
/// keeps the top bits of the product, and the table of attack sets.
pub struct Magic {
    pub mask: Bitboard,
    pub magic: Bitboard,
    pub shift: u8,
    pub attacks: Vec<Bitboard>,
}

/// A square a rook attacks shares a rank or a file with the rook.
proof fn lemma_rook_line(s: int, blockers: u64, t: int)
    requires
        0 <= s < 64,
        slider_rel(s, blockers, false, t),
    ensures
        s / 8 == t / 8 || s % 8 == t % 8,
{
    assert(forall|r: int, f: int| 0 <= r < 8 && 0 <= f < 8 ==> #[trigger] ((r * 8 + f) / 8) == r && (r * 8 + f) % 8 == f) by {
        assert forall|r: int, f: int| 0 <= r < 8 && 0 <= f < 8 implies #[trigger] ((r * 8 + f) / 8) == r && (r * 8 + f) % 8 == f by {
            assert((r * 8 + f) / 8 == r && (r * 8 + f) % 8 == f) by (nonlinear_arith)
                requires
                    0 <= r < 8,
                    0 <= f < 8,
            ;
        }
    }
}

/// No attack set of a rook is `EMPTY_SLOT`: a1, b2 and c3 belong to it, and
/// no square shares a rank or a file with all three.
proof fn lemma_rook_not_empty_slot(s: int, blockers: u64)
    requires
        0 <= s < 64,
    ensures
        rook_table(s, blockers) != EMPTY_SLOT,
{
    if rook_table(s, blockers) == EMPTY_SLOT {
        assert(has_bit(EMPTY_SLOT, 0) && has_bit(EMPTY_SLOT, 9) && has_bit(EMPTY_SLOT, 18)) by (bit_vector);
        let p = |u: u64| slider_rel(s, blockers, false, u as int);
        lemma_bits_of(p, 0);
        lemma_bits_of(p, 9);
        lemma_bits_of(p, 18);
        lemma_rook_line(s, blockers, 0);
        lemma_rook_line(s, blockers, 9);
        lemma_rook_line(s, blockers, 18);
    }
}

/// The number of the blocker set that occupies, among the squares of
/// `squares`, those of `x`.
pub open spec fn extract(x: u64, squares: Seq<u8>) -> u32
    decreases squares.len(),
{
    if squares.len() == 0 {
        0u32
    } else {
        extract(x, squares.drop_last()) | ((if has_bit(x, squares.last() as u64) {
            1u32
        } else {
            0u32
        }) << ((squares.len() - 1) as u32))
    }
}

proof fn lemma_extract_bound(x: u64, squares: Seq<u8>)
    requires
        squares.len() <= 30,
    ensures
        extract(x, squares) < (1u32 << (squares.len() as u32)),
    decreases squares.len(),
{
    if squares.len() == 0 {
        assert(1u32 << 0u32 == 1u32) by (bit_vector);
    } else {
        let k = (squares.len() - 1) as u32;
        let e = extract(x, squares.drop_last());
        lemma_extract_bound(x, squares.drop_last());
        let b: u32 = if has_bit(x, squares.last() as u64) { 1 } else { 0 };
        assert(k < 30 && e < (1u32 << k) && b <= 1 ==> (e | (b << k)) < (1u32 << (k + 1) as u32)) by (bit_vector);
        assert(extract(x, squares) == e | (b << k));
        assert(squares.len() as u32 == (k + 1) as u32);
    }
}

/// The blocker set numbered `i` reads only the bits of `i` below the number
/// of squares.
proof fn lemma_deposit_low_bits(a: u32, b: u32, squares: Seq<u8>)
    requires
        squares.len() <= 30,
        forall|j: u32| j < squares.len() ==> #[trigger] ((a >> j) & 1u32) == (b >> j) & 1u32,
    ensures
        deposit(a, squares) == deposit(b, squares),
    decreases squares.len(),
{
    if squares.len() > 0 {
        let k = (squares.len() - 1) as u32;
        assert(((a >> k) & 1u32) == (b >> k) & 1u32);
        lemma_deposit_low_bits(a, b, squares.drop_last());
    }
}

/// The blocker set numbered `extract(x, squares)` holds the squares of
/// `squares` that `x` holds.
proof fn lemma_deposit_extract(x: u64, squares: Seq<u8>)
    requires
        squares.len() <= 30,
        forall|j: int| 0 <= j < squares.len() ==> #[trigger] squares[j] < 64,
    ensures
        forall|t: u64|
            t < 64 ==> (#[trigger] has_bit(deposit(extract(x, squares), squares), t) <==> (has_bit(x, t)
                && squares.contains(t as u8))),
    decreases squares.len(),
{
    if squares.len() == 0 {
        assert forall|t: u64| t < 64 implies (#[trigger] has_bit(deposit(extract(x, squares), squares), t) <==> (
        has_bit(x, t) && squares.contains(t as u8))) by {
            lemma_zero_bits(t);
        }
    } else {
        let rest = squares.drop_last();
        let last = squares.last();
        let k = (squares.len() - 1) as u32;
        let e = extract(x, rest);
        let i = extract(x, squares);
        let b: u32 = if has_bit(x, last as u64) { 1 } else { 0 };
        lemma_deposit_extract(x, rest);
        lemma_extract_bound(x, rest);
        assert(i == e | (b << k));
        assert forall|j: u32| j < rest.len() implies #[trigger] ((i >> j) & 1u32) == (e >> j) & 1u32 by {
            assert(j < k && k < 30 ==> (((e | (b << k)) >> j) & 1u32) == (e >> j) & 1u32) by (bit_vector);
        }
        lemma_deposit_low_bits(i, e, rest);
        assert(k < 30 && e < (1u32 << k) && b <= 1 ==> (((e | (b << k)) >> k) & 1u32) == b) by (bit_vector);
        let top: u64 = ((i >> k) & 1u32) as u64;
        assert(top == b as u64);
        assert(deposit(i, squares) == deposit(e, rest) | (top << (last as u64)));
        assert forall|t: u64| t < 64 implies (#[trigger] has_bit(deposit(i, squares), t) <==> (has_bit(x, t)
            && squares.contains(t as u8))) by {
            assert(has_bit(deposit(e, rest), t) <==> (has_bit(x, t) && rest.contains(t as u8)));
            lemma_or_bit(deposit(e, rest), top << (last as u64), t);
            let l = last as u64;
            assert(l < 64 && top <= 1 ==> ((((top << l) >> t) & 1u64 == 1u64) <==> (top == 1 && t == l))) by (bit_vector);
            assert(squares =~= rest.push(last));
            if squares.contains(t as u8) {
                let j = choose|j: int| 0 <= j < squares.len() && squares[j] == t as u8;
                if j < rest.len() {
                    assert(rest[j] == t as u8);
                    assert(rest.contains(t as u8));
                }
            }
            if rest.contains(t as u8) {
                let j = choose|j: int| 0 <= j < rest.len() && rest[j] == t as u8;
                assert(squares[j] == t as u8);
            }
            if t == l {
                assert(squares[squares.len() - 1] == t as u8);
            }
        }
    }
}

/// The squares of the rook's lines that come before a square it reaches are
/// on its lines on an empty board, so occupants off those lines do not
/// change its attacks.
proof fn lemma_rook_depends_on_mask(s: int, occ: u64)
    requires
        0 <= s < 64,
    ensures
        rook_table(s, occ) == rook_table(s, occ & rook_table(s, 0)),
{
    let mask = rook_table(s, 0);
    let pm = |u: u64| slider_rel(s, 0, false, u as int);
    assert forall|d: int, j: int|
        0 <= d < 4 && j >= 1 && crate::slider::ray_ok(s, d, j) implies #[trigger] has_bit(
        mask,
        crate::slider::ray_sq(s, d, j) as u64,
    ) by {
        crate::slider::lemma_ray_point(s, d, j);
        let q = crate::slider::ray_sq(s, d, j);
        assert forall|l: int| 1 <= l < j implies !has_bit(0u64, crate::slider::ray_sq(s, d, l) as u64) by {
            lemma_zero_bits(crate::slider::ray_sq(s, d, l) as u64);
        }
        assert(on_ray(s, d, 0, q));
        lemma_bits_of(pm, q as u64);
    }
    assert forall|t: u64| t < 64 implies has_bit(rook_table(s, occ), t) == has_bit(
        rook_table(s, occ & mask),
        t,
    ) by {
        lemma_bits_of(|u: u64| slider_rel(s, occ, false, u as int), t);
        lemma_bits_of(|u: u64| slider_rel(s, occ & mask, false, u as int), t);
        assert forall|d: int| 0 <= d < 4 implies on_ray(s, d, occ, t as int) == on_ray(
            s,
            d,
            occ & mask,
            t as int,
        ) by {
            let k = crate::slider::ray_dist(s, d, t as int);
            if k >= 1 && crate::slider::ray_ok(s, d, k) {
                crate::slider::lemma_ray_point(s, d, k);
                assert forall|j: int| 1 <= j < k implies has_bit(
                    occ & mask,
                    crate::slider::ray_sq(s, d, j) as u64,
                ) == has_bit(occ, crate::slider::ray_sq(s, d, j) as u64) by {
                    lemma_and_bit(occ, mask, crate::slider::ray_sq(s, d, j) as u64);
                    assert(has_bit(mask, crate::slider::ray_sq(s, d, j) as u64));
                }
            }
        }
    }
    lemma_bits_ext(rook_table(s, occ), rook_table(s, occ & mask));
}

/// The slot of the blocker set `b` under the multiplier `magic` in a table
/// of `2^bits` slots: the top `bits` bits of the wrapping product.
pub open spec fn magic_slot(b: u64, magic: u64, bits: nat) -> int {
    (wrapping_mul(b, magic) >> ((64 - bits) as u64)) as int
}

proof fn lemma_slot_bound(b: u64, magic: u64, bits: nat)
    requires
        1 <= bits <= 31,
    ensures
        0 <= magic_slot(b, magic, bits) < (1u64 << bits),
{
    let p = wrapping_mul(b, magic);
    let k = bits as u64;
    assert(1 <= k <= 31 ==> (p >> ((64 - k) as u64)) < (1u64 << k)) by (bit_vector);
}

/// The slot of the blocker set `b`.
pub fn magic_index(b: Bitboard, magic: Bitboard, bits: usize) -> (r: usize)
    requires
        1 <= bits <= 31,
    ensures
        r == magic_slot(b, magic, bits as nat),
        r < (1u64 << bits),
{
    let product = b.wrapping_mul(magic);
    let shift = (64 - bits) as u64;
    let index = product >> shift;
    assert(1 <= bits <= 31 ==> index < (1u64 << bits as u64) && index <= 0x7fff_ffffu64) by (bit_vector)
        requires
            index == product >> shift,
            shift == 64 - bits,
    ;
    index as usize
}

/// No two blocker sets of different attack sets share a slot.
pub open spec fn collision_free(blockers: Seq<u64>, attacks: Seq<u64>, magic: u64, bits: nat) -> bool {
    forall|i: int, j: int|
        0 <= i < blockers.len() && 0 <= j < blockers.len() && #[trigger] magic_slot(
            blockers[i],
            magic,
            bits,
        ) == #[trigger] magic_slot(blockers[j], magic, bits) ==> attacks[i] == attacks[j]
}

/// No blocker set falls into slot `k`.
pub open spec fn slot_unused(blockers: Seq<u64>, magic: u64, bits: nat, k: int) -> bool {
    forall|i: int| 0 <= i < blockers.len() ==> #[trigger] magic_slot(blockers[i], magic, bits) != k
}

/// The table has `2^bits` slots; the slot of each blocker set holds its
/// attack set, and a slot that no blocker set falls into holds `EMPTY_SLOT`.
pub open spec fn table_holds(table: Seq<u64>, blockers: Seq<u64>, attacks: Seq<u64>, magic: u64, bits: nat) -> bool {
    &&& table.len() == (1u64 << bits)
    &&& forall|i: int|
        0 <= i < blockers.len() ==> table[#[trigger] magic_slot(blockers[i], magic, bits)]
            == attacks[i]
    &&& forall|k: int| 0 <= k < table.len() && slot_unused(blockers, magic, bits, k) ==> #[trigger] table[k] == EMPTY_SLOT
}

/// The table of the multiplier `magic`: each blocker set's attack set in its
/// slot, or `None` when two blocker sets of different attack sets share a
/// slot.
pub fn fill_table(blockers: &Vec<Bitboard>, attacks: &Vec<Bitboard>, magic: Bitboard, bits: usize) -> (r: Option<Vec<Bitboard>>)
    requires
        blockers@.len() == attacks@.len(),
        1 <= bits <= 31,
        forall|i: int| 0 <= i < attacks@.len() ==> #[trigger] attacks@[i] != EMPTY_SLOT,
    ensures
        r is Some <==> collision_free(blockers@, attacks@, magic, bits as nat),
        r matches Some(t) ==> table_holds(t@, blockers@, attacks@, magic, bits as nat),
{
    let ghost bs = blockers@;
    let ghost ats = attacks@;
    let ghost nb = bits as nat;
    let size: usize = 1usize << bits;
    assert(1 <= bits <= 31 ==> (1usize << bits) as u64 == (1u64 << bits as u64)) by (bit_vector);
    let mut used: Vec<Bitboard> = vec![EMPTY_SLOT; size];
    assert forall|k: int| 0 <= k < used@.len() implies used@[k] == EMPTY_SLOT by {
        assert(cloned::<u64>(EMPTY_SLOT, used@[k]));
    }
    let mut i: usize = 0;
    while i < blockers.len()
        invariant
            bs == blockers@,
            ats == attacks@,
            nb == bits as nat,
            bs.len() == ats.len(),
            1 <= bits <= 31,
            forall|j: int| 0 <= j < ats.len() ==> #[trigger] ats[j] != EMPTY_SLOT,
            used@.len() == (1u64 << bits),
            i <= bs.len(),
            forall|j: int| 0 <= j < i ==> used@[#[trigger] magic_slot(bs[j], magic, nb)] == ats[j],
            forall|k: int|
                0 <= k < used@.len() && slot_unused(bs.take(i as int), magic, nb, k) ==> #[trigger] used@[k] == EMPTY_SLOT,
            collision_free(bs.take(i as int), ats.take(i as int), magic, nb),
        decreases bs.len() - i,
    {
        let index = magic_index(blockers[i], magic, bits);
        let attack = attacks[i];
        let ghost before = used@;
        if used[index] == EMPTY_SLOT {
            used.set(index, attack);
            proof {
                assert forall|j: int| 0 <= j < i implies magic_slot(bs[j], magic, nb) != index by {
                    if magic_slot(bs[j], magic, nb) == index {
                        assert(before[magic_slot(bs[j], magic, nb)] == ats[j]);
                    }
                }
            }
        } else if used[index] != attack {
            proof {
                if !slot_unused(bs.take(i as int), magic, nb, index as int) {
                    let j = choose|j: int| 0 <= j < i && #[trigger] magic_slot(bs.take(i as int)[j], magic, nb) == index;
                    assert(bs.take(i as int)[j] == bs[j]);
                    assert(used@[magic_slot(bs[j], magic, nb)] == ats[j]);
                    assert(magic_slot(bs[j], magic, nb) == magic_slot(bs[i as int], magic, nb));
                    assert(ats[j] != ats[i as int]);
                }
            }
            return None;
        }
        proof {
            assert(index == magic_slot(bs[i as int], magic, nb));
            assert(used@[magic_slot(bs[i as int], magic, nb)] == ats[i as int]);
            assert forall|j: int| 0 <= j < i + 1 implies used@[#[trigger] magic_slot(bs[j], magic, nb)] == ats[j] by {
                if j < i && magic_slot(bs[j], magic, nb) != index {
                    lemma_slot_bound(bs[j], magic, nb);
                    assert(used@[magic_slot(bs[j], magic, nb)] == before[magic_slot(bs[j], magic, nb)]);
                }
            }
            assert forall|j: int, l: int|
                0 <= j < i + 1 && 0 <= l < i + 1 && #[trigger] magic_slot(bs.take(i + 1)[j], magic, nb)
                    == #[trigger] magic_slot(bs.take(i + 1)[l], magic, nb) implies ats.take(i + 1)[j] == ats.take(i + 1)[l] by {
                if j < i && l < i {
                    assert(bs.take(i as int)[j] == bs[j]);
                    assert(bs.take(i as int)[l] == bs[l]);
                } else if j < i {
                    assert(used@[magic_slot(bs[j], magic, nb)] == ats[j]);
                } else if l < i {
                    assert(used@[magic_slot(bs[l], magic, nb)] == ats[l]);
                }
            }
            assert forall|k: int|
                0 <= k < used@.len() && slot_unused(bs.take(i + 1), magic, nb, k) implies #[trigger] used@[k] == EMPTY_SLOT by {
                assert forall|j: int| 0 <= j < i implies #[trigger] magic_slot(bs.take(i as int)[j], magic, nb) != k by {
                    assert(bs.take(i + 1)[j] == bs.take(i as int)[j]);
                    assert(magic_slot(bs.take(i + 1)[j], magic, nb) != k);
                }
                assert(bs.take(i + 1)[i as int] == bs[i as int]);
                assert(magic_slot(bs.take(i + 1)[i as int], magic, nb) != k);
            }
        }
        i += 1;
    }
    proof {
        assert(bs.take(bs.len() as int) =~= bs);
        assert(ats.take(ats.len() as int) =~= ats);
    }
    Some(used)
}

/// The attack sets of a rook on `s` for each of the blocker sets `bs`.
pub open spec fn rook_attack_sets(s: int, bs: Seq<u64>) -> Seq<u64> {
    bs.map_values(|b: u64| rook_table(s, b))
}

/// A candidate multiplier with few bits set: the bits of `sparse` that are
/// also set in `dense` shifted right by `shift`.
pub fn sparse_candidate(sparse: u64, dense: u64, shift: usize) -> (r: u64)
    requires
        shift < 64,
    ensures
        r == sparse & (dense >> shift),
{
    sparse & (dense >> shift)
}

/// Tries up to `attempts` random sparse multipliers for a table of `2^bits`
/// slots over the blocker sets `blockers` of a rook on `square`; gives back
/// the first that works, with its table.
pub fn try_find_magic(
    square: Square,
    blockers: &Vec<Bitboard>,
    bits: usize,
    rng: &mut rand::rngs::ThreadRng,
    attempts: usize,
) -> (r: Option<(Bitboard, Vec<Bitboard>)>)
    requires
        square < 64,
        1 <= bits <= 31,
    ensures
        attempts == 0 ==> r is None,
        r matches Some((magic, table)) ==> table_holds(
            table@,
            blockers@,
            rook_attack_sets(square as int, blockers@),
            magic,
            bits as nat,
        ),
{
    let ghost s = square as int;
    let mut attacks: Vec<Bitboard> = Vec::new();
    let mut i: usize = 0;
    while i < blockers.len()
        invariant
            square < 64,
            s == square as int,
            i <= blockers@.len(),
            attacks@ == rook_attack_sets(s, blockers@).take(i as int),
        decreases blockers@.len() - i,
    {
        let a = gen_attacks_naive(square, blockers[i]);
        attacks.push(a);
        assert(attacks@ =~= rook_attack_sets(s, blockers@).take(i + 1));
        i += 1;
    }
    assert(attacks@ =~= rook_attack_sets(s, blockers@));
    assert forall|j: int| 0 <= j < attacks@.len() implies #[trigger] attacks@[j] != EMPTY_SLOT by {
        lemma_rook_not_empty_slot(s, blockers@[j]);
    }
    let mut attempt: usize = 0;
    while attempt < attempts
        invariant
            s == square as int,
            attacks@ == rook_attack_sets(s, blockers@),
            blockers@.len() == attacks@.len(),
            1 <= bits <= 31,
            forall|j: int| 0 <= j < attacks@.len() ==> #[trigger] attacks@[j] != EMPTY_SLOT,
        decreases attempts - attempt,
    {
        let sparse = random_u64(rng);
        let dense = random_u64(rng);
        let shift = random_below(rng, 16);
        let magic = sparse_candidate(sparse, dense, shift);
        match fill_table(blockers, &attacks, magic, bits) {
            Some(used) => return Some((magic, used)),
            None => {},
        }
        attempt += 1;
    }
    None
}

/// The magic of a rook on `square` with the smallest table that a random
/// search of `attempts` tries per table size finds, tables of up to `2^31`
/// slots: the mask of the rook's lines, the multiplier, the shift and the
/// table over the blocker sets `blockers`.
pub fn magic_for_square(
    square: Square,
    blockers: &Vec<Bitboard>,
    rng: &mut rand::rngs::ThreadRng,
    attempts: usize,
) -> (r: Option<Magic>)
    requires
        square < 64,
    ensures
        attempts == 0 ==> r is None,
        r matches Some(m) ==> {
            &&& m.mask == rook_table(square as int, 0)
            &&& 33 <= m.shift <= 63
            &&& 64 - m.shift <= set_bits(m.mask).len()
            &&& table_holds(
                m.attacks@,
                blockers@,
                rook_attack_sets(square as int, blockers@),
                m.magic,
                (64 - m.shift) as nat,
            )
        },
{
    let mask = gen_attacks_naive(square, 0);
    let bits_upper_bound = count_bits(mask) as usize;
    let mut bits: usize = 1;
    while bits <= bits_upper_bound && bits <= 31
        invariant
            square < 64,
            mask == rook_table(square as int, 0),
            bits_upper_bound == set_bits(mask).len(),
            1 <= bits,
        decreases 32 - bits,
    {
        match try_find_magic(square, blockers, bits, rng, attempts) {
            Some((magic, attacks)) => {
                return Some(Magic { mask, magic, shift: (64 - bits) as u8, attacks });
            },
            None => {},
        }
        bits += 1;
    }
    None
}

impl Magic {
    /// The attack set that the table holds for the occupied squares
    /// `occupied`: the entry in the slot of the occupied squares of the mask.
    pub fn lookup(&self, occupied: Bitboard) -> (r: Bitboard)
        requires
            33 <= self.shift <= 63,
            self.attacks@.len() == (1u64 << (64 - self.shift)),
        ensures
            r == self.attacks@[magic_slot(occupied & self.mask, self.magic, (64 - self.shift) as nat)],
    {
        let index = magic_index(occupied & self.mask, self.magic, (64 - self.shift) as usize);
        self.attacks[index]
    }
}

/// A rook's magic whose table holds the attack set of every blocker set of
/// its lines gives, for every occupancy of the board, the squares the rook
/// attacks.
pub proof fn law_magic_lookup(square: int, blockers: Seq<u64>, m: Magic, occ: u64)
    requires
        0 <= square < 64,
        m.mask == rook_table(square, 0),
        set_bits(m.mask).len() <= 30,
        blockers.len() == (1u32 << set_bits(m.mask).len()),
        forall|i: int| 0 <= i < blockers.len() ==> #[trigger] blockers[i] == deposit(i as u32, set_bits(m.mask)),
        33 <= m.shift <= 63,
        table_holds(
            m.attacks@,
            blockers,
            rook_attack_sets(square, blockers),
            m.magic,
            (64 - m.shift) as nat,
        ),
    ensures
        m.attacks@[magic_slot(occ & m.mask, m.magic, (64 - m.shift) as nat)] == rook_table(square, occ),
{
    let mask = m.mask;
    let x = occ & mask;
    let squares = set_bits(mask);
    lemma_set_bits_members(mask);
    lemma_deposit_extract(x, squares);
    lemma_extract_bound(x, squares);
    let i = extract(x, squares);
    assert forall|t: u64| t < 64 implies has_bit(deposit(i, squares), t) == has_bit(x, t) by {
        lemma_and_bit(occ, mask, t);
        assert(has_bit(deposit(i, squares), t) <==> (has_bit(x, t) && squares.contains(t as u8)));
        if has_bit(x, t) {
            assert(squares.contains(t as u8));
        }
    }
    lemma_bits_ext(deposit(i, squares), x);
    assert(blockers[i as int] == deposit(i, squares));
    assert(rook_attack_sets(square, blockers)[i as int] == rook_table(square, x));
    lemma_rook_depends_on_mask(square, occ);
}

} // verus!
