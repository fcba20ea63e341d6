//! The attack sets of the sliding pieces: rooks move along ranks and files,
//! bishops along diagonals, each up to and including the first occupied
//! square in every direction.

use vstd::prelude::*;
use crate::bits::{has_bit, bits_of, lemma_bits_of, lemma_bits_ext, lemma_or_bit, lemma_single_bit, lemma_zero_bits};
use crate::tables::{rank, file};

verus! {

/// The rank step of direction `d`: the directions are north, south, east,
/// west, north-east, north-west, south-east and south-west, in that order.
pub open spec fn dir_rank(d: int) -> int {
    if d == 0 || d == 4 || d == 5 {
        1
    } else if d == 1 || d == 6 || d == 7 {
        -1
    } else {
        0
    }
}

/// The file step of direction `d`.
pub open spec fn dir_file(d: int) -> int {
    if d == 2 || d == 4 || d == 6 {
        1
    } else if d == 3 || d == 5 || d == 7 {
        -1
    } else {
        0
    }
}

/// The rank reached after `k` steps from `s` in direction `d`.
pub open spec fn ray_rank(s: int, d: int, k: int) -> int {
    if dir_rank(d) == 1 {
        rank(s) + k
    } else if dir_rank(d) == -1 {
        rank(s) - k
    } else {
        rank(s)
    }
}

/// The file reached after `k` steps from `s` in direction `d`.
pub open spec fn ray_file(s: int, d: int, k: int) -> int {
    if dir_file(d) == 1 {
        file(s) + k
    } else if dir_file(d) == -1 {
        file(s) - k
    } else {
        file(s)
    }
}

/// The point `k` steps from `s` in direction `d` is on the board.
pub open spec fn ray_ok(s: int, d: int, k: int) -> bool {
    0 <= ray_rank(s, d, k) < 8 && 0 <= ray_file(s, d, k) < 8
}

/// The square `k` steps from `s` in direction `d`.
pub open spec fn ray_sq(s: int, d: int, k: int) -> int {
    ray_rank(s, d, k) * 8 + ray_file(s, d, k)
}

/// The number of steps from `s` towards `t` in direction `d`.
pub open spec fn ray_dist(s: int, d: int, t: int) -> int {
    if dir_rank(d) == 1 {
        rank(t) - rank(s)
    } else if dir_rank(d) == -1 {
        rank(s) - rank(t)
    } else if dir_file(d) == 1 {
        file(t) - file(s)
    } else {
        file(s) - file(t)
    }
}

/// A slider on `s` moving in direction `d` reaches `t`: `t` lies on the ray,
/// and no square of `blockers` lies strictly between `s` and `t`.
pub open spec fn on_ray(s: int, d: int, blockers: u64, t: int) -> bool {
    let k = ray_dist(s, d, t);
    &&& k >= 1
    &&& ray_ok(s, d, k)
    &&& ray_sq(s, d, k) == t
    &&& forall|j: int| 1 <= j < k ==> !has_bit(blockers, ray_sq(s, d, j) as u64)
}

/// A rook (for `diagonal` false) or a bishop (for `diagonal` true) on `s`
/// attacks `t` when `blockers` are occupied.
pub open spec fn slider_rel(s: int, blockers: u64, diagonal: bool, t: int) -> bool {
    if diagonal {
        on_ray(s, 4, blockers, t) || on_ray(s, 5, blockers, t) || on_ray(s, 6, blockers, t)
            || on_ray(s, 7, blockers, t)
    } else {
        on_ray(s, 0, blockers, t) || on_ray(s, 1, blockers, t) || on_ray(s, 2, blockers, t)
            || on_ray(s, 3, blockers, t)
    }
}

pub open spec fn ray_table(s: int, d: int, blockers: u64) -> u64 {
    bits_of(|t: u64| on_ray(s, d, blockers, t as int))
}

pub open spec fn rook_table(s: int, blockers: u64) -> u64 {
    bits_of(|t: u64| slider_rel(s, blockers, false, t as int))
}

pub open spec fn bishop_table(s: int, blockers: u64) -> u64 {
    bits_of(|t: u64| slider_rel(s, blockers, true, t as int))
}

proof fn lemma_square_coords(r: int, f: int)
    requires
        0 <= r < 8,
        0 <= f < 8,
    ensures
        rank(r * 8 + f) == r,
        file(r * 8 + f) == f,
{
}

/// A point of a ray lies at its own distance, and a ray stays on the board
/// up to its last point on the board.
pub proof fn lemma_ray_point(s: int, d: int, k: int)
    requires
        0 <= s < 64,
        0 <= d < 8,
        k >= 1,
        ray_ok(s, d, k),
    ensures
        ray_dist(s, d, ray_sq(s, d, k)) == k,
        0 <= ray_sq(s, d, k) < 64,
        k <= 7,
        forall|j: int| 1 <= j <= k ==> ray_ok(s, d, j),
{
    lemma_square_coords(ray_rank(s, d, k), ray_file(s, d, k));
}

/// The direction opposite to `d`.
pub open spec fn opposite(d: int) -> int {
    if d == 0 {
        1
    } else if d == 1 {
        0
    } else if d == 2 {
        3
    } else if d == 3 {
        2
    } else if d == 4 {
        7
    } else if d == 7 {
        4
    } else if d == 5 {
        6
    } else {
        5
    }
}

/// A slider on `s` reaching `t` in direction `d` means a slider on `t`
/// reaches `s` in the opposite direction: the squares between are the same.
pub proof fn lemma_on_ray_symmetric(s: int, d: int, blockers: u64, t: int)
    requires
        0 <= s < 64,
        0 <= d < 8,
        on_ray(s, d, blockers, t),
    ensures
        on_ray(t, opposite(d), blockers, s),
{
    let k = ray_dist(s, d, t);
    let od = opposite(d);
    lemma_ray_point(s, d, k);
    lemma_square_coords(ray_rank(s, d, k), ray_file(s, d, k));
    lemma_square_coords(rank(s), file(s));
    assert(s == rank(s) * 8 + file(s));
    assert(dir_rank(od) == -dir_rank(d) && dir_file(od) == -dir_file(d));
    assert forall|j: int| #![trigger ray_sq(t, od, j)]
        ray_rank(t, od, j) == ray_rank(s, d, k - j) && ray_file(t, od, j) == ray_file(s, d, k - j) && ray_sq(
            t,
            od,
            j,
        ) == ray_sq(s, d, k - j) by {}
    assert(ray_dist(t, od, s) == k);
    assert(ray_rank(t, od, k) == rank(s) && ray_file(t, od, k) == file(s));
    assert forall|j: int| 1 <= j < k implies !has_bit(blockers, ray_sq(t, od, j) as u64) by {
        assert(ray_sq(t, od, j) == ray_sq(s, d, k - j));
        assert(1 <= k - j < k);
    }
}

/// A slider on `s` attacks `t` exactly when one on `t` attacks `s`.
pub proof fn lemma_slider_symmetric(s: int, blockers: u64, diagonal: bool, t: int)
    requires
        0 <= s < 64,
        slider_rel(s, blockers, diagonal, t),
    ensures
        slider_rel(t, blockers, diagonal, s),
{
    if diagonal {
        if on_ray(s, 4, blockers, t) {
            lemma_on_ray_symmetric(s, 4, blockers, t);
        } else if on_ray(s, 5, blockers, t) {
            lemma_on_ray_symmetric(s, 5, blockers, t);
        } else if on_ray(s, 6, blockers, t) {
            lemma_on_ray_symmetric(s, 6, blockers, t);
        } else {
            lemma_on_ray_symmetric(s, 7, blockers, t);
        }
    } else {
        if on_ray(s, 0, blockers, t) {
            lemma_on_ray_symmetric(s, 0, blockers, t);
        } else if on_ray(s, 1, blockers, t) {
            lemma_on_ray_symmetric(s, 1, blockers, t);
        } else if on_ray(s, 2, blockers, t) {
            lemma_on_ray_symmetric(s, 2, blockers, t);
        } else {
            lemma_on_ray_symmetric(s, 3, blockers, t);
        }
    }
}

/// The squares a slider on `square` reaches in direction `d` when `blockers`
/// are occupied.
pub fn ray_attacks(square: u8, blockers: u64, d: usize) -> (r: u64)
    requires
        square < 64,
        d < 8,
    ensures
        r == ray_table(square as int, d as int, blockers),
{
    let ghost s = square as int;
    let ghost di = d as int;
    let dr: i32 = if d == 0 || d == 4 || d == 5 {
        1
    } else if d == 1 || d == 6 || d == 7 {
        -1
    } else {
        0
    };
    let df: i32 = if d == 2 || d == 4 || d == 6 {
        1
    } else if d == 3 || d == 5 || d == 7 {
        -1
    } else {
        0
    };
    let mut r: i32 = (square / 8) as i32 + dr;
    let mut f: i32 = (square % 8) as i32 + df;
    let mut k: i32 = 1;
    let mut attacks = 0u64;
    let mut blocked = false;
    proof {
        assert forall|t: u64| t < 64 implies !has_bit(attacks, t) by {
            lemma_zero_bits(t);
        }
    }
    while 0 <= r && r < 8 && 0 <= f && f < 8 && !blocked
        invariant
            0 <= s < 64,
            0 <= di < 8,
            s == square as int,
            di == d as int,
            dr as int == dir_rank(di),
            df as int == dir_file(di),
            1 <= k <= 8,
            r as int == ray_rank(s, di, k as int),
            f as int == ray_file(s, di, k as int),
            forall|j: int| 1 <= j < k ==> ray_ok(s, di, j),
            forall|j: int| 1 <= j < k - 1 ==> !has_bit(blockers, ray_sq(s, di, j) as u64),
            !blocked ==> forall|j: int| 1 <= j < k ==> !has_bit(blockers, ray_sq(s, di, j) as u64),
            blocked ==> k >= 2 && has_bit(blockers, ray_sq(s, di, k - 1) as u64),
            forall|t: u64|
                t < 64 ==> (has_bit(attacks, t) == (1 <= ray_dist(s, di, t as int) < k
                    && ray_sq(s, di, ray_dist(s, di, t as int)) == t as int)),
        decreases 8 - k,
    {
        proof {
            lemma_ray_point(s, di, k as int);
        }
        let sq = (r * 8 + f) as u64;
        let old_attacks = attacks;
        attacks = attacks | (1u64 << sq);
        proof {
            assert forall|t: u64| t < 64 implies (has_bit(attacks, t) == (1 <= ray_dist(
                s,
                di,
                t as int,
            ) < k + 1 && ray_sq(s, di, ray_dist(s, di, t as int)) == t as int)) by {
                lemma_or_bit(old_attacks, 1u64 << sq, t);
                lemma_single_bit(sq, t);
            }
        }
        if (blockers >> sq) & 1 == 1 {
            blocked = true;
        }
        r = r + dr;
        f = f + df;
        k = k + 1;
    }
    proof {
        let p = |t: u64| on_ray(s, di, blockers, t as int);
        assert forall|t: u64| t < 64 implies has_bit(attacks, t) == has_bit(ray_table(s, di, blockers), t) by {
            lemma_bits_of(p, t);
            let kt = ray_dist(s, di, t as int);
            if 1 <= kt < k && ray_sq(s, di, kt) == t as int {
                assert(ray_ok(s, di, kt));
            }
            if on_ray(s, di, blockers, t as int) && kt >= k && !blocked {
                lemma_ray_point(s, di, kt);
                assert(ray_ok(s, di, k as int));
            }
            if on_ray(s, di, blockers, t as int) && kt >= k && blocked {
                assert(!has_bit(blockers, ray_sq(s, di, k - 1) as u64));
            }
        }
        lemma_bits_ext(attacks, ray_table(s, di, blockers));
    }
    attacks
}

/// The squares a rook on `square` attacks when `blockers` are occupied.
pub fn rook_attacks(square: u8, blockers: u64) -> (r: u64)
    requires
        square < 64,
    ensures
        r == rook_table(square as int, blockers),
{
    let a0 = ray_attacks(square, blockers, 0);
    let a1 = ray_attacks(square, blockers, 1);
    let a2 = ray_attacks(square, blockers, 2);
    let a3 = ray_attacks(square, blockers, 3);
    let r = a0 | a1 | a2 | a3;
    proof {
        let s = square as int;
        let p = |t: u64| slider_rel(s, blockers, false, t as int);
        assert forall|t: u64| t < 64 implies has_bit(r, t) == has_bit(rook_table(s, blockers), t) by {
            lemma_bits_of(p, t);
            lemma_bits_of(|t: u64| on_ray(s, 0, blockers, t as int), t);
            lemma_bits_of(|t: u64| on_ray(s, 1, blockers, t as int), t);
            lemma_bits_of(|t: u64| on_ray(s, 2, blockers, t as int), t);
            lemma_bits_of(|t: u64| on_ray(s, 3, blockers, t as int), t);
            lemma_or_bit(a0, a1, t);
            lemma_or_bit(a0 | a1, a2, t);
            lemma_or_bit(a0 | a1 | a2, a3, t);
        }
        lemma_bits_ext(r, rook_table(s, blockers));
    }
    r
}

/// The squares a bishop on `square` attacks when `blockers` are occupied.
pub fn bishop_attacks(square: u8, blockers: u64) -> (r: u64)
    requires
        square < 64,
    ensures
        r == bishop_table(square as int, blockers),
{
    let a0 = ray_attacks(square, blockers, 4);
    let a1 = ray_attacks(square, blockers, 5);
    let a2 = ray_attacks(square, blockers, 6);
    let a3 = ray_attacks(square, blockers, 7);
    let r = a0 | a1 | a2 | a3;
    proof {
        let s = square as int;
        let p = |t: u64| slider_rel(s, blockers, true, t as int);
        assert forall|t: u64| t < 64 implies has_bit(r, t) == has_bit(bishop_table(s, blockers), t) by {
            lemma_bits_of(p, t);
            lemma_bits_of(|t: u64| on_ray(s, 4, blockers, t as int), t);
            lemma_bits_of(|t: u64| on_ray(s, 5, blockers, t as int), t);
            lemma_bits_of(|t: u64| on_ray(s, 6, blockers, t as int), t);
            lemma_bits_of(|t: u64| on_ray(s, 7, blockers, t as int), t);
            lemma_or_bit(a0, a1, t);
            lemma_or_bit(a0 | a1, a2, t);
            lemma_or_bit(a0 | a1 | a2, a3, t);
        }
        lemma_bits_ext(r, bishop_table(s, blockers));
    }
    r
}

} // verus!
