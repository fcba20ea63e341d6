//! The attack sets of the pieces that do not slide: pawn captures and
//! pushes, knight jumps and king steps, for every square.

use vstd::prelude::*;
use crate::bits::{has_bit, bits_of, lemma_bits_of, lemma_bits_ext, lemma_or_bit, lemma_and_bit, lemma_single_bit, lemma_shl_bit, lemma_shr_bit, lemma_zero_bits};

verus! {

/// Every square but those of the a-file.
pub const BIT_MASK_A: u64 = 0xfefe_fefe_fefe_fefe;

/// Every square but those of the h-file.
pub const BIT_MASK_B: u64 = 0x7f7f_7f7f_7f7f_7f7f;

/// Every square but those of the a- and b-files.
pub const BIT_MASK_A2: u64 = 0xfcfc_fcfc_fcfc_fcfc;

/// Every square but those of the g- and h-files.
pub const BIT_MASK_B2: u64 = 0x3f3f_3f3f_3f3f_3f3f;

pub open spec fn rank(s: int) -> int {
    s / 8
}

pub open spec fn file(s: int) -> int {
    s % 8
}

pub open spec fn abs(x: int) -> int {
    if x < 0 {
        -x
    } else {
        x
    }
}

/// A knight on `s` reaches `t`.
pub open spec fn knight_rel(s: int, t: int) -> bool {
    let dr = abs(rank(t) - rank(s));
    let df = abs(file(t) - file(s));
    0 <= t < 64 && ((dr == 1 && df == 2) || (dr == 2 && df == 1))
}

/// A king on `s` reaches `t`.
pub open spec fn king_rel(s: int, t: int) -> bool {
    let dr = abs(rank(t) - rank(s));
    let df = abs(file(t) - file(s));
    0 <= t < 64 && dr <= 1 && df <= 1 && t != s
}

/// A pawn of the colour with index `c` (0 for White) on `s` captures on `t`.
pub open spec fn pawn_attack_rel(c: int, s: int, t: int) -> bool {
    0 <= t < 64 && abs(file(t) - file(s)) == 1 && if c == 0 {
        rank(t) == rank(s) + 1
    } else {
        rank(t) == rank(s) - 1
    }
}

/// A pawn of the colour with index `c` on `s` advances one square to `t`.
pub open spec fn single_push_rel(c: int, s: int, t: int) -> bool {
    if c == 0 {
        rank(s) < 7 && t == s + 8
    } else {
        rank(s) > 0 && t == s - 8
    }
}

/// A pawn of the colour with index `c` on `s` advances two squares from its
/// starting rank to `t`.
pub open spec fn double_push_rel(c: int, s: int, t: int) -> bool {
    if c == 0 {
        rank(s) == 1 && t == s + 16
    } else {
        rank(s) == 6 && t == s - 16
    }
}

pub open spec fn knight_table(s: int) -> u64 {
    bits_of(|t: u64| knight_rel(s, t as int))
}

pub open spec fn king_table(s: int) -> u64 {
    bits_of(|t: u64| king_rel(s, t as int))
}

pub open spec fn pawn_attack_table(c: int, s: int) -> u64 {
    bits_of(|t: u64| pawn_attack_rel(c, s, t as int))
}

pub open spec fn single_push_table(c: int, s: int) -> u64 {
    bits_of(|t: u64| single_push_rel(c, s, t as int))
}

pub open spec fn double_push_table(c: int, s: int) -> u64 {
    bits_of(|t: u64| double_push_rel(c, s, t as int))
}

proof fn lemma_masks(s: u64)
    requires
        s < 64,
    ensures
        has_bit(BIT_MASK_A, s) == (s % 8 != 0),
        has_bit(BIT_MASK_B, s) == (s % 8 != 7),
        has_bit(BIT_MASK_A2, s) == (s % 8 >= 2),
        has_bit(BIT_MASK_B2, s) == (s % 8 <= 5),
{
    assert(s < 64 ==> ((((0xfefe_fefe_fefe_fefeu64 >> s) & 1u64) == 1u64) == (s % 8 != 0)
        && (((0x7f7f_7f7f_7f7f_7f7fu64 >> s) & 1u64) == 1u64) == (s % 8 != 7) && (((
    0xfcfc_fcfc_fcfc_fcfcu64 >> s) & 1u64) == 1u64) == (s % 8 >= 2) && (((
    0x3f3f_3f3f_3f3f_3f3fu64 >> s) & 1u64) == 1u64) == (s % 8 <= 5))) by (bit_vector);
}

/// The bit for square `t` of `(pos & mask) << k`, where `pos` holds square `s` alone.
proof fn lemma_up(s: u64, mask: u64, k: u64, t: u64)
    requires
        s < 64,
        k < 64,
        t < 64,
    ensures
        has_bit(((1u64 << s) & mask) << k, t) == (t == s + k && has_bit(mask, s)),
{
    lemma_shl_bit((1u64 << s) & mask, k, t);
    if t >= k {
        lemma_and_bit(1u64 << s, mask, (t - k) as u64);
        lemma_single_bit(s, (t - k) as u64);
    }
}

/// The bit for square `t` of `(pos & mask) >> k`, where `pos` holds square `s` alone.
proof fn lemma_down(s: u64, mask: u64, k: u64, t: u64)
    requires
        s < 64,
        k < 64,
        t < 64,
    ensures
        has_bit(((1u64 << s) & mask) >> k, t) == (t + k == s && has_bit(mask, s)),
{
    lemma_shr_bit((1u64 << s) & mask, k, t);
    if t + k < 64 {
        lemma_and_bit(1u64 << s, mask, (t + k) as u64);
        lemma_single_bit(s, (t + k) as u64);
    }
}

/// The squares a knight on `square` attacks and moves to.
pub fn knight_attacks(square: usize) -> (r: u64)
    requires
        square < 64,
    ensures
        r == knight_table(square as int),
{
    let pos = 1u64 << square;
    let r = (pos & BIT_MASK_B) << 17 | (pos & BIT_MASK_A) << 15 | (pos & BIT_MASK_B2) << 10 | (pos
        & BIT_MASK_A2) << 6 | (pos & BIT_MASK_B2) >> 6 | (pos & BIT_MASK_A2) >> 10 | (pos
        & BIT_MASK_B) >> 15 | (pos & BIT_MASK_A) >> 17;
    proof {
        let s = square as u64;
        let p = |t: u64| knight_rel(s as int, t as int);
        lemma_masks(s);
        assert forall|t: u64| t < 64 implies has_bit(r, t) == has_bit(knight_table(s as int), t) by {
            lemma_bits_of(p, t);
            let a1 = (pos & BIT_MASK_B) << 17;
            let a2 = (pos & BIT_MASK_A) << 15;
            let a3 = (pos & BIT_MASK_B2) << 10;
            let a4 = (pos & BIT_MASK_A2) << 6;
            let a5 = (pos & BIT_MASK_B2) >> 6;
            let a6 = (pos & BIT_MASK_A2) >> 10;
            let a7 = (pos & BIT_MASK_B) >> 15;
            let a8 = (pos & BIT_MASK_A) >> 17;
            lemma_up(s, BIT_MASK_B, 17, t);
            lemma_up(s, BIT_MASK_A, 15, t);
            lemma_up(s, BIT_MASK_B2, 10, t);
            lemma_up(s, BIT_MASK_A2, 6, t);
            lemma_down(s, BIT_MASK_B2, 6, t);
            lemma_down(s, BIT_MASK_A2, 10, t);
            lemma_down(s, BIT_MASK_B, 15, t);
            lemma_down(s, BIT_MASK_A, 17, t);
            lemma_or_bit(a1, a2, t);
            lemma_or_bit(a1 | a2, a3, t);
            lemma_or_bit(a1 | a2 | a3, a4, t);
            lemma_or_bit(a1 | a2 | a3 | a4, a5, t);
            lemma_or_bit(a1 | a2 | a3 | a4 | a5, a6, t);
            lemma_or_bit(a1 | a2 | a3 | a4 | a5 | a6, a7, t);
            lemma_or_bit(a1 | a2 | a3 | a4 | a5 | a6 | a7, a8, t);
        }
        lemma_bits_ext(r, knight_table(s as int));
    }
    r
}


/// The squares a king on `square` attacks and moves to.
pub fn king_attacks(square: usize) -> (r: u64)
    requires
        square < 64,
    ensures
        r == king_table(square as int),
{
    let pos = 1u64 << square;
    let r = (pos & BIT_MASK_B) << 9 | pos << 8 | (pos & BIT_MASK_A) << 7 | (pos & BIT_MASK_B) << 1
        | (pos & BIT_MASK_A) >> 1 | (pos & BIT_MASK_B) >> 7 | pos >> 8 | (pos & BIT_MASK_A) >> 9;
    proof {
        let s = square as u64;
        let p = |t: u64| king_rel(s as int, t as int);
        lemma_masks(s);
        assert forall|t: u64| t < 64 implies has_bit(r, t) == has_bit(king_table(s as int), t) by {
            lemma_bits_of(p, t);
            let a1 = (pos & BIT_MASK_B) << 9;
            let a2 = pos << 8;
            let a3 = (pos & BIT_MASK_A) << 7;
            let a4 = (pos & BIT_MASK_B) << 1;
            let a5 = (pos & BIT_MASK_A) >> 1;
            let a6 = (pos & BIT_MASK_B) >> 7;
            let a7 = pos >> 8;
            let a8 = (pos & BIT_MASK_A) >> 9;
            lemma_up(s, BIT_MASK_B, 9, t);
            lemma_shl_bit(pos, 8, t);
            if t >= 8 {
                lemma_single_bit(s, (t - 8) as u64);
            }
            lemma_up(s, BIT_MASK_A, 7, t);
            lemma_up(s, BIT_MASK_B, 1, t);
            lemma_down(s, BIT_MASK_A, 1, t);
            lemma_down(s, BIT_MASK_B, 7, t);
            lemma_shr_bit(pos, 8, t);
            if t + 8 < 64 {
                lemma_single_bit(s, (t + 8) as u64);
            }
            lemma_down(s, BIT_MASK_A, 9, t);
            lemma_or_bit(a1, a2, t);
            lemma_or_bit(a1 | a2, a3, t);
            lemma_or_bit(a1 | a2 | a3, a4, t);
            lemma_or_bit(a1 | a2 | a3 | a4, a5, t);
            lemma_or_bit(a1 | a2 | a3 | a4 | a5, a6, t);
            lemma_or_bit(a1 | a2 | a3 | a4 | a5 | a6, a7, t);
            lemma_or_bit(a1 | a2 | a3 | a4 | a5 | a6 | a7, a8, t);
        }
        lemma_bits_ext(r, king_table(s as int));
    }
    r
}

/// Adds square `t` to `bb`.
proof fn lemma_add_square(bb: u64, t: u64, u: u64)
    requires
        t < 64,
    ensures
        has_bit(bb | (1u64 << t), u) == (has_bit(bb, u) || u == t),
{
    lemma_or_bit(bb, 1u64 << t, u);
    lemma_single_bit(t, u);
}

/// The squares a pawn of the colour with index `color` (0 for White) on
/// `square` captures on.
pub fn pawn_attacks(color: usize, square: usize) -> (r: u64)
    requires
        color < 2,
        square < 64,
    ensures
        r == pawn_attack_table(color as int, square as int),
{
    let rank = square / 8;
    let file = square % 8;
    let mut left = 0u64;
    let mut right = 0u64;
    if color == 0 {
        if rank < 7 {
            if file > 0 {
                left = 1u64 << (square + 7);
            }
            if file < 7 {
                right = 1u64 << (square + 9);
            }
        }
    } else {
        if rank > 0 {
            if file > 0 {
                left = 1u64 << (square - 9);
            }
            if file < 7 {
                right = 1u64 << (square - 7);
            }
        }
    }
    let bb = left | right;
    proof {
        let s = square as int;
        let c = color as int;
        let p = |t: u64| pawn_attack_rel(c, s, t as int);
        assert forall|t: u64| t < 64 implies has_bit(bb, t) == has_bit(pawn_attack_table(c, s), t) by {
            lemma_bits_of(p, t);
            lemma_zero_bits(t);
            lemma_or_bit(left, right, t);
            if color == 0 && rank < 7 {
                lemma_single_bit((square + 7) as u64, t);
                if file < 7 {
                    lemma_single_bit((square + 9) as u64, t);
                }
            }
            if color == 1 && rank > 0 {
                if file > 0 {
                    lemma_single_bit((square - 9) as u64, t);
                }
                lemma_single_bit((square - 7) as u64, t);
            }
        }
        lemma_bits_ext(bb, pawn_attack_table(c, s));
    }
    bb
}

/// The square a pawn of the colour with index `color` on `square` advances
/// to by one step.
pub fn single_push(color: usize, square: usize) -> (r: u64)
    requires
        color < 2,
        square < 64,
    ensures
        r == single_push_table(color as int, square as int),
{
    let rank = square / 8;
    let mut bb = 0u64;
    if color == 0 {
        if rank < 7 {
            bb |= 1u64 << (square + 8);
        }
    } else {
        if rank > 0 {
            bb |= 1u64 << (square - 8);
        }
    }
    proof {
        let s = square as int;
        let c = color as int;
        let p = |t: u64| single_push_rel(c, s, t as int);
        assert forall|t: u64| t < 64 implies has_bit(bb, t) == has_bit(single_push_table(c, s), t) by {
            lemma_bits_of(p, t);
            lemma_zero_bits(t);
            if square + 8 < 64 {
                lemma_add_square(0, (square + 8) as u64, t);
            }
            if square >= 8 {
                lemma_add_square(0, (square - 8) as u64, t);
            }
        }
        lemma_bits_ext(bb, single_push_table(c, s));
    }
    bb
}

/// The square a pawn of the colour with index `color` on `square` advances
/// to by two steps from its starting rank.
pub fn double_push(color: usize, square: usize) -> (r: u64)
    requires
        color < 2,
        square < 64,
    ensures
        r == double_push_table(color as int, square as int),
{
    let rank = square / 8;
    let mut bb = 0u64;
    if color == 0 {
        if rank == 1 {
            bb |= 1u64 << (square + 16);
        }
    } else {
        if rank == 6 {
            bb |= 1u64 << (square - 16);
        }
    }
    proof {
        let s = square as int;
        let c = color as int;
        let p = |t: u64| double_push_rel(c, s, t as int);
        assert forall|t: u64| t < 64 implies has_bit(bb, t) == has_bit(double_push_table(c, s), t) by {
            lemma_bits_of(p, t);
            lemma_zero_bits(t);
            if rank == 1 {
                lemma_add_square(0, (square + 16) as u64, t);
            }
            if rank == 6 {
                lemma_add_square(0, (square - 16) as u64, t);
            }
        }
        lemma_bits_ext(bb, double_push_table(c, s));
    }
    bb
}

} // verus!
