//! Search: negamax with alpha-beta pruning and a transposition table, and a
//! random choice among the legal moves.

use vstd::prelude::*;
use crate::types::{Move, Color};
use crate::board::{Board, material, evaluation, zobrist_hash, lemma_material_mono};
use crate::movegen::{MoveGen, pseudolegal};
use crate::position::{Position, apply_move};
use crate::zobrist::Zobrist;
use crate::tree::{step_ok, step_is_ok, is_legal, legal_moves};
use crate::transposition_table::{TranspositionTable, TTBound, TTEntry, lookup, stored, scores_ok};
use crate::rng::random_below;

verus! {

/// The lowest score a search gives.
pub open spec fn min_score() -> int {
    i16::MIN + 1
}

/// The material of each side fits an `i16`.
pub open spec fn material_ok(p: Position) -> bool {
    &&& material(p.mailbox, Color::White, 64) <= i16::MAX
    &&& material(p.mailbox, Color::Black, 64) <= i16::MAX
}

/// Searching the tree of legal moves of `p` to depth `d` raises no panic,
/// whatever the transposition table holds.
pub open spec fn search_ok(p: Position, d: nat) -> bool
    decreases d,
{
    if d == 0 {
        material_ok(p)
    } else {
        let ms = pseudolegal(p);
        &&& step_ok(p)
        &&& forall|i: int|
            0 <= i < ms.len() && is_legal(p, #[trigger] ms[i]) ==> search_ok(
                apply_move(p, ms[i]),
                (d - 1) as nat,
            )
    }
}

/// What the probe of the transposition table decides: to return a score at
/// once, or to search on with a (possibly raised) alpha.
pub open spec fn probe(tt: Seq<Option<TTEntry>>, key: u64, depth: nat, alpha: int, beta: int) -> (bool, int, int) {
    match lookup(tt, key) {
        Some(e) => if e.depth >= depth {
            match e.bound {
                TTBound::Exact => (true, e.score as int, alpha),
                TTBound::Lower => {
                    let a = if alpha > e.score {
                        alpha
                    } else {
                        e.score as int
                    };
                    if a >= beta {
                        (true, e.score as int, a)
                    } else {
                        (false, 0, a)
                    }
                },
                TTBound::Upper => if e.score <= alpha || alpha >= beta {
                    (true, e.score as int, alpha)
                } else {
                    (false, 0, alpha)
                },
            }
        } else {
            (false, 0, alpha)
        },
        None => (false, 0, alpha),
    }
}

/// The bound a score found with the window `alpha`..`beta` is stored with.
pub open spec fn bound_of(best: int, alpha: int, beta: int) -> TTBound {
    if best <= alpha {
        TTBound::Upper
    } else if best >= beta {
        TTBound::Lower
    } else {
        TTBound::Exact
    }
}

/// The negamax search with alpha-beta pruning of `p` to depth `d` with the
/// window `alpha`..`beta`, under the keys `z` and starting from the table
/// `tt`: the score and the table afterwards.
pub open spec fn ab(z: Zobrist, tt: Seq<Option<TTEntry>>, p: Position, d: nat, alpha: int, beta: int) -> (int, Seq<Option<TTEntry>>)
    decreases d, 1nat, 0nat,
{
    if d == 0 {
        (evaluation(p), tt)
    } else {
        let key = zobrist_hash(z, p);
        let (done, ret, a1) = probe(tt, key, d, alpha, beta);
        if done {
            (ret, tt)
        } else {
            let (cut, best, tt2) = ab_loop(z, tt, p, pseudolegal(p), 0, d, a1, beta, min_score());
            if cut {
                (best, tt2)
            } else {
                (
                    best,
                    stored(
                        tt2,
                        TTEntry {
                            key,
                            depth: d as u8,
                            bound: bound_of(best, alpha, beta),
                            score: best as i16,
                        },
                    ),
                )
            }
        }
    }
}

/// The loop over the moves `ms` from index `i` of the search of `p` to depth
/// `d`: whether a move reached beta, the best score and the table afterwards.
pub open spec fn ab_loop(
    z: Zobrist,
    tt: Seq<Option<TTEntry>>,
    p: Position,
    ms: Seq<Move>,
    i: nat,
    d: nat,
    alpha: int,
    beta: int,
    best: int,
) -> (bool, int, Seq<Option<TTEntry>>)
    decreases d, 0nat, ms.len() - i,
{
    if d == 0 || i >= ms.len() {
        (false, best, tt)
    } else if !is_legal(p, ms[i as int]) {
        ab_loop(z, tt, p, ms, i + 1, d, alpha, beta, best)
    } else {
        let (child, tt1) = ab(z, tt, apply_move(p, ms[i as int]), (d - 1) as nat, -beta, -alpha);
        let score = -child;
        let best1 = if score > best {
            score
        } else {
            best
        };
        let alpha1 = if score > best && score > alpha {
            score
        } else {
            alpha
        };
        if score >= beta {
            (true, best1, tt1)
        } else {
            ab_loop(z, tt1, p, ms, i + 1, d, alpha1, beta, best1)
        }
    }
}

/// The loop of the search at the root over the moves `ms` from index `i`:
/// the first legal move of highest score so far (above `best`) and the
/// table afterwards.
pub open spec fn root_loop(
    z: Zobrist,
    tt: Seq<Option<TTEntry>>,
    p: Position,
    ms: Seq<Move>,
    i: nat,
    d: nat,
    best: int,
    best_move: Option<Move>,
) -> (Option<Move>, Seq<Option<TTEntry>>)
    decreases ms.len() - i,
{
    if i >= ms.len() {
        (best_move, tt)
    } else if !is_legal(p, ms[i as int]) {
        root_loop(z, tt, p, ms, i + 1, d, best, best_move)
    } else {
        let (child, tt1) = ab(z, tt, apply_move(p, ms[i as int]), (d - 1) as nat, min_score(), i16::MAX as int);
        let score = -child;
        if score > best {
            root_loop(z, tt1, p, ms, i + 1, d, score, Some(ms[i as int]))
        } else {
            root_loop(z, tt1, p, ms, i + 1, d, best, best_move)
        }
    }
}

/// The move the search at the root chooses, and the table afterwards.
pub open spec fn root_search(z: Zobrist, tt: Seq<Option<TTEntry>>, p: Position, d: nat) -> (Option<Move>, Seq<Option<TTEntry>>) {
    root_loop(z, tt, p, pseudolegal(p), 0, d, min_score(), None)
}

proof fn lemma_root_loop_choice(
    z: Zobrist,
    tt: Seq<Option<TTEntry>>,
    p: Position,
    ms: Seq<Move>,
    i: nat,
    d: nat,
    best: int,
    best_move: Option<Move>,
)
    ensures
        root_loop(z, tt, p, ms, i, d, best, best_move).0 matches Some(m) ==> (Some(m) == best_move || (
        ms.contains(m) && is_legal(p, m))),
    decreases ms.len() - i,
{
    if i < ms.len() {
        let mv = ms[i as int];
        if !is_legal(p, mv) {
            lemma_root_loop_choice(z, tt, p, ms, i + 1, d, best, best_move);
        } else {
            let (child, tt1) = ab(z, tt, apply_move(p, mv), (d - 1) as nat, min_score(), i16::MAX as int);
            let score = -child;
            if score > best {
                lemma_root_loop_choice(z, tt1, p, ms, i + 1, d, score, Some(mv));
            } else {
                lemma_root_loop_choice(z, tt1, p, ms, i + 1, d, best, best_move);
            }
        }
    }
}

/// The move that the search at the root chooses is one of the legal moves
/// of the position.
pub proof fn law_search_move_is_legal(z: Zobrist, tt: Seq<Option<TTEntry>>, p: Position, d: nat)
    ensures
        root_search(z, tt, p, d).0 matches Some(m) ==> legal_moves(p).contains(m),
{
    let ms = pseudolegal(p);
    lemma_root_loop_choice(z, tt, p, ms, 0, d, min_score(), None);
    if let Some(m) = root_search(z, tt, p, d).0 {
        let i = choose|i: int| 0 <= i < ms.len() && ms[i] == m;
        ms.lemma_filter_contains(|mv: Move| is_legal(p, mv), i);
    }
}

/// Whether the material of each side fits an `i16`.
fn material_fits(board: &Board) -> (r: bool)
    ensures
        r == material_ok(board@.pos),
{
    let ghost m = board@.pos.mailbox;
    proof {
        board.lemma_lengths();
    }
    let mut white: i64 = 0;
    let mut black: i64 = 0;
    let mut square: u8 = 0;
    while square < 64
        invariant
            m == board@.pos.mailbox,
            m.len() == 64,
            square <= 64,
            white == material(m, Color::White, square as nat),
            black == material(m, Color::Black, square as nat),
            0 <= white <= 10000 * square,
            0 <= black <= 10000 * square,
        decreases 64 - square,
    {
        match board.get_piece(square) {
            Some(piece) => {
                let value = piece.piece_type.value() as i64;
                if piece.color == Color::White {
                    white += value;
                } else {
                    black += value;
                }
            },
            None => {},
        }
        square += 1;
    }
    white <= 32767 && black <= 32767
}

/// The score of a move at depth one: the material balance it leaves, from
/// the mover's side.
pub open spec fn one_ply_score(p: Position, mv: Move) -> int {
    -evaluation(apply_move(p, mv))
}

/// What the search at depth one keeps while it walks the moves: the move
/// kept so far is the first legal move among those walked with the highest
/// score, above the lowest score; when none is kept, no legal move walked
/// scores above the lowest score.
pub open spec fn one_ply_kept(p: Position, ms: Seq<Move>, i: int, best: int, best_move: Option<Move>) -> bool {
    match best_move {
        Some(m) => exists|k: int|
            0 <= k < i && #[trigger] ms[k] == m && is_legal(p, m) && one_ply_score(p, m) == best
                && best > min_score() && (forall|j: int|
                0 <= j < i && is_legal(p, ms[j]) ==> one_ply_score(p, #[trigger] ms[j]) <= best) && (
            forall|j: int| 0 <= j < k && is_legal(p, ms[j]) ==> one_ply_score(p, #[trigger] ms[j]) < best),
        None => best == min_score() && forall|j: int|
            0 <= j < i && is_legal(p, ms[j]) ==> one_ply_score(p, #[trigger] ms[j]) <= min_score(),
    }
}

proof fn lemma_one_ply_loop(
    z: Zobrist,
    tt: Seq<Option<TTEntry>>,
    p: Position,
    ms: Seq<Move>,
    i: nat,
    best: int,
    best_move: Option<Move>,
)
    requires
        i <= ms.len(),
        one_ply_kept(p, ms, i as int, best, best_move),
    ensures
        one_ply_kept(
            p,
            ms,
            ms.len() as int,
            match root_loop(z, tt, p, ms, i, 1, best, best_move).0 {
                Some(m) => one_ply_score(p, m),
                None => min_score(),
            },
            root_loop(z, tt, p, ms, i, 1, best, best_move).0,
        ),
        root_loop(z, tt, p, ms, i, 1, best, best_move).1 == tt,
    decreases ms.len() - i,
{
    if i < ms.len() {
        let mv = ms[i as int];
        if !is_legal(p, mv) {
            assert(one_ply_kept(p, ms, (i + 1) as int, best, best_move)) by {
                if let Some(m) = best_move {
                    let k = choose|k: int|
                        0 <= k < i && #[trigger] ms[k] == m && is_legal(p, m) && one_ply_score(p, m) == best
                            && best > min_score() && (forall|j: int|
                            0 <= j < i && is_legal(p, ms[j]) ==> one_ply_score(p, #[trigger] ms[j]) <= best)
                            && (forall|j: int|
                            0 <= j < k && is_legal(p, ms[j]) ==> one_ply_score(p, #[trigger] ms[j]) < best);
                    assert(0 <= k < i + 1 && ms[k] == m);
                }
            }
            lemma_one_ply_loop(z, tt, p, ms, i + 1, best, best_move);
        } else {
            let score = one_ply_score(p, mv);
            assert(ab(z, tt, apply_move(p, mv), 0, min_score(), i16::MAX as int) == (
            evaluation(apply_move(p, mv)), tt));
            if score > best {
                assert(one_ply_kept(p, ms, (i + 1) as int, score, Some(mv))) by {
                    assert(ms[i as int] == mv);
                    if let Some(m) = best_move {
                        let k = choose|k: int|
                            0 <= k < i && #[trigger] ms[k] == m && is_legal(p, m) && one_ply_score(p, m) == best
                                && best > min_score() && (forall|j: int|
                                0 <= j < i && is_legal(p, ms[j]) ==> one_ply_score(p, #[trigger] ms[j])
                                <= best) && (forall|j: int|
                                0 <= j < k && is_legal(p, ms[j]) ==> one_ply_score(p, #[trigger] ms[j])
                                < best);
                    }
                }
                lemma_one_ply_loop(z, tt, p, ms, i + 1, score, Some(mv));
            } else {
                assert(one_ply_kept(p, ms, (i + 1) as int, best, best_move)) by {
                    if let Some(m) = best_move {
                        let k = choose|k: int|
                            0 <= k < i && #[trigger] ms[k] == m && is_legal(p, m) && one_ply_score(p, m) == best
                                && best > min_score() && (forall|j: int|
                                0 <= j < i && is_legal(p, ms[j]) ==> one_ply_score(p, #[trigger] ms[j])
                                <= best) && (forall|j: int|
                                0 <= j < k && is_legal(p, ms[j]) ==> one_ply_score(p, #[trigger] ms[j])
                                < best);
                        assert(0 <= k < i + 1 && ms[k] == m);
                    }
                }
                lemma_one_ply_loop(z, tt, p, ms, i + 1, best, best_move);
            }
        }
    }
}

/// A search to depth one chooses the first legal move that leaves the best
/// material balance for the mover, when that balance is above the lowest
/// score, and leaves the table as it was.
pub proof fn law_one_ply_search(z: Zobrist, tt: Seq<Option<TTEntry>>, p: Position)
    ensures
        one_ply_kept(
            p,
            pseudolegal(p),
            pseudolegal(p).len() as int,
            match root_search(z, tt, p, 1).0 {
                Some(m) => one_ply_score(p, m),
                None => min_score(),
            },
            root_search(z, tt, p, 1).0,
        ),
        root_search(z, tt, p, 1).1 == tt,
{
    lemma_one_ply_loop(z, tt, p, pseudolegal(p), 0, min_score(), None);
}

pub struct Search;

impl Search {
    /// Negamax with alpha-beta pruning to depth `depth` within the window
    /// `alpha`..`beta`, reading and filling the transposition table. The
    /// board is left as it was. At depth zero only the position is
    /// evaluated. Above it the table is probed, so it needs a slot; the
    /// scores of the children are negated, so from depth two on the stored
    /// scores they may return must be above `i16::MIN`; and when moves are
    /// searched, the window (alpha as the probe leaves it) is negated too.
    fn _alphabeta(board: &mut Board, tt: &mut TranspositionTable, depth: u8, alpha: i16, beta: i16) -> (r: i16)
        requires
            search_ok(old(board)@.pos, depth as nat),
            old(tt).inv(),
            depth > 0 ==> old(tt)@.len() > 0,
            depth >= 2 ==> scores_ok(old(tt)@),
            ({
                let p = old(board)@.pos;
                let key = zobrist_hash(old(board).keys(), p);
                let (done, _, a1) = probe(old(tt)@, key, depth as nat, alpha as int, beta as int);
                depth > 0 && !done && legal_moves(p).len() > 0 ==> min_score() <= a1 && min_score()
                    <= beta
            }),
        ensures
            (r as int, final(tt)@) == ab(
                old(board).keys(),
                old(tt)@,
                old(board)@.pos,
                depth as nat,
                alpha as int,
                beta as int,
            ),
            depth == 0 || scores_ok(old(tt)@) ==> min_score() <= r,
            final(tt).inv(),
            final(tt)@.len() == old(tt)@.len(),
            scores_ok(old(tt)@) ==> scores_ok(final(tt)@),
            final(board)@ == old(board)@,
            final(board).keys() == old(board).keys(),
        decreases depth,
    {
        let ghost v0 = board@;
        let ghost p = v0.pos;
        let ghost z = board.keys();
        let ghost tt0 = tt@;
        let ghost d = depth as nat;
        if depth == 0 {
            proof {
                lemma_material_mono(p.mailbox, Color::White, 0, 64);
                lemma_material_mono(p.mailbox, Color::Black, 0, 64);
            }
            return board.evaluate();
        }
        let mut alpha_now = alpha;
        let key = board.get_zobrist_hash();
        if let Some(entry) = tt.retrieve(key) {
            if entry.depth >= depth {
                match entry.bound {
                    TTBound::Exact => return entry.score,
                    TTBound::Lower => alpha_now = if alpha_now > entry.score {
                        alpha_now
                    } else {
                        entry.score
                    },
                    TTBound::Upper => {
                        if entry.score <= alpha_now {
                            return entry.score;
                        }
                    },
                }
                if alpha_now >= beta {
                    return entry.score;
                }
            }
        }
        assert(probe(tt0, key, d, alpha as int, beta as int) == (false, 0int, alpha_now as int));
        let ghost a1 = alpha_now as int;
        let mut best_score: i16 = i16::MIN + 1;
        let moves = MoveGen::get_pseudolegal_moves(board);
        let ghost ms = moves@;
        let mut i: usize = 0;
        while i < moves.len()
            invariant
                v0 == board@,
                p == v0.pos,
                z == board.keys(),
                d == depth as nat,
                depth > 0,
                ms == moves@,
                ms == pseudolegal(p),
                search_ok(p, d),
                step_ok(p),
                i <= ms.len(),
                tt.inv(),
                tt@.len() == tt0.len(),
                tt0.len() > 0,
                tt0 == old(tt)@,
                v0 == old(board)@,
                z == old(board).keys(),
                key == zobrist_hash(z, p),
                probe(tt0, key, d, alpha as int, beta as int) == (false, 0int, a1),
                d >= 2 ==> scores_ok(tt0),
                scores_ok(tt0) ==> scores_ok(tt@),
                legal_moves(p).len() > 0 ==> min_score() <= a1 && min_score() <= beta,
                a1 <= alpha_now,
                min_score() <= best_score,
                ab_loop(z, tt0, p, ms, 0, d, a1, beta as int, min_score()) == ab_loop(
                    z,
                    tt@,
                    p,
                    ms,
                    i as nat,
                    d,
                    alpha_now as int,
                    beta as int,
                    best_score as int,
                ),
            decreases ms.len() - i,
        {
            let mv = moves[i];
            board.make_move(&mv);
            if board.was_illegal_move() {
                board.revert_state();
                i += 1;
                continue;
            }
            proof {
                ms.lemma_filter_contains(|m: Move| is_legal(p, m), i as int);
            }
            let ghost tt_before = tt@;
            let ghost alpha_before = alpha_now as int;
            let ghost best_before = best_score as int;
            let child = Self::_alphabeta(board, tt, depth - 1, -beta, -alpha_now);
            let score = -child;
            board.revert_state();
            proof {
                crate::board::law_revert_undoes_move(v0, mv);
            }
            if score > best_score {
                best_score = score;
                if score > alpha_now {
                    alpha_now = score;
                }
            }
            assert(ab_loop(z, tt_before, p, ms, i as nat, d, alpha_before, beta as int, best_before)
                == if score >= beta {
                (true, best_score as int, tt@)
            } else {
                ab_loop(z, tt@, p, ms, (i + 1) as nat, d, alpha_now as int, beta as int, best_score as int)
            });
            if score >= beta {
                return best_score;
            }
            i += 1;
        }
        let bound = if best_score <= alpha {
            TTBound::Upper
        } else if best_score >= beta {
            TTBound::Lower
        } else {
            TTBound::Exact
        };
        tt.store(key, depth, bound, best_score);
        best_score
    }

    /// The move found by a search to depth `depth`: the first legal move of
    /// highest score, if one scores above the lowest score. The board is
    /// left as it was. A search to depth one evaluates the children without
    /// the table; from depth two on the children probe it, so it needs a
    /// slot and its scores must be above `i16::MIN`.
    pub fn try_alphabeta(board: &mut Board, tt: &mut TranspositionTable, depth: u8) -> (r: Option<Move>)
        requires
            depth >= 1,
            search_ok(old(board)@.pos, depth as nat),
            old(tt).inv(),
            depth >= 2 ==> old(tt)@.len() > 0,
            depth >= 2 ==> scores_ok(old(tt)@),
        ensures
            r == root_search(old(board).keys(), old(tt)@, old(board)@.pos, depth as nat).0,
            final(tt)@ == root_search(old(board).keys(), old(tt)@, old(board)@.pos, depth as nat).1,
            final(tt).inv(),
            final(tt)@.len() == old(tt)@.len(),
            scores_ok(old(tt)@) ==> scores_ok(final(tt)@),
            final(board)@ == old(board)@,
            final(board).keys() == old(board).keys(),
    {
        let ghost v0 = board@;
        let ghost p = v0.pos;
        let ghost z = board.keys();
        let ghost tt0 = tt@;
        let ghost d = depth as nat;
        let mut best_score: i16 = i16::MIN + 1;
        let mut best_move: Option<Move> = None;
        let moves = MoveGen::get_pseudolegal_moves(board);
        let ghost ms = moves@;
        let mut i: usize = 0;
        while i < moves.len()
            invariant
                v0 == board@,
                v0 == old(board)@,
                p == v0.pos,
                z == board.keys(),
                z == old(board).keys(),
                d == depth as nat,
                depth > 0,
                ms == moves@,
                ms == pseudolegal(p),
                search_ok(p, d),
                step_ok(p),
                i <= ms.len(),
                tt.inv(),
                tt@.len() == tt0.len(),
                d >= 2 ==> tt0.len() > 0,
                d >= 2 ==> scores_ok(tt0),
                tt0 == old(tt)@,
                scores_ok(tt0) ==> scores_ok(tt@),
                min_score() <= best_score,
                root_search(z, tt0, p, d) == root_loop(z, tt@, p, ms, i as nat, d, best_score as int, best_move),
            decreases ms.len() - i,
        {
            let mv = moves[i];
            board.make_move(&mv);
            if board.was_illegal_move() {
                board.revert_state();
                i += 1;
                continue;
            }
            let score = -Self::_alphabeta(board, tt, depth - 1, i16::MIN + 1, i16::MAX);
            board.revert_state();
            proof {
                crate::board::law_revert_undoes_move(v0, mv);
            }
            if score > best_score {
                best_score = score;
                best_move = Some(mv);
            }
            i += 1;
        }
        best_move
    }

    /// The best move found by a search to depth `depth`: the first legal
    /// move of highest score. The board is left as it was.
    pub fn alphabeta(board: &mut Board, tt: &mut TranspositionTable, depth: u8) -> (r: Move)
        requires
            depth >= 1,
            search_ok(old(board)@.pos, depth as nat),
            old(tt).inv(),
            depth >= 2 ==> old(tt)@.len() > 0,
            depth >= 2 ==> scores_ok(old(tt)@),
            root_search(old(board).keys(), old(tt)@, old(board)@.pos, depth as nat).0 is Some,
        ensures
            Some(r) == root_search(old(board).keys(), old(tt)@, old(board)@.pos, depth as nat).0,
            final(tt)@ == root_search(old(board).keys(), old(tt)@, old(board)@.pos, depth as nat).1,
            final(tt).inv(),
            final(tt)@.len() == old(tt)@.len(),
            scores_ok(old(tt)@) ==> scores_ok(final(tt)@),
            final(board)@ == old(board)@,
            final(board).keys() == old(board).keys(),
    {
        match Self::try_alphabeta(board, tt, depth) {
            Some(mv) => mv,
            None => vstd::pervasive::unreached(),
        }
    }

    /// Whether a search to depth `depth` would raise no panic: every
    /// position of the tree of legal moves meets the conditions of the move
    /// generator and of making a move, and the material of each side at the
    /// leaves fits an `i16`. The board is left as it was.
    pub fn search_is_safe(board: &mut Board, depth: u8) -> (r: bool)
        ensures
            r == search_ok(old(board)@.pos, depth as nat),
            final(board)@ == old(board)@,
            final(board).keys() == old(board).keys(),
        decreases depth,
    {
        if depth == 0 {
            return material_fits(board);
        }
        let ghost v0 = board@;
        let ghost p = v0.pos;
        let ghost d = depth as nat;
        if !step_is_ok(board) {
            return false;
        }
        let moves = MoveGen::get_pseudolegal_moves(board);
        let ghost ms = moves@;
        let mut i: usize = 0;
        while i < moves.len()
            invariant
                v0 == board@,
                v0 == old(board)@,
                p == v0.pos,
                d == depth as nat,
                depth > 0,
                ms == moves@,
                ms == pseudolegal(p),
                step_ok(p),
                i <= ms.len(),
                forall|j: int|
                    0 <= j < i && is_legal(p, #[trigger] ms[j]) ==> search_ok(
                        apply_move(p, ms[j]),
                        (d - 1) as nat,
                    ),
                board.keys() == old(board).keys(),
            decreases ms.len() - i,
        {
            let mv = moves[i];
            board.make_move(&mv);
            if board.was_illegal_move() {
                board.revert_state();
                proof {
                    crate::board::law_revert_undoes_move(v0, mv);
                }
                i += 1;
                continue;
            }
            let ok = Self::search_is_safe(board, depth - 1);
            board.revert_state();
            proof {
                crate::board::law_revert_undoes_move(v0, mv);
            }
            if !ok {
                return false;
            }
            i += 1;
        }
        true
    }

    /// A legal move chosen at random. The board is left as it was.
    pub fn random(board: &mut Board, rng: &mut rand::rngs::ThreadRng) -> (r: Move)
        requires
            step_ok(old(board)@.pos),
            legal_moves(old(board)@.pos).len() > 0,
        ensures
            legal_moves(old(board)@.pos).contains(r),
            final(board)@ == old(board)@,
            final(board).keys() == old(board).keys(),
    {
        let ghost v0 = board@;
        let ghost p = v0.pos;
        let mut legal: Vec<Move> = Vec::new();
        let moves = MoveGen::get_pseudolegal_moves(board);
        let ghost ms = moves@;
        assert(ms.take(0).filter(|mv: Move| is_legal(p, mv)) =~= Seq::<Move>::empty()) by {
            reveal_with_fuel(Seq::<_>::filter, 1);
        }
        let mut i: usize = 0;
        while i < moves.len()
            invariant
                v0 == board@,
                p == v0.pos,
                ms == moves@,
                ms == pseudolegal(p),
                step_ok(p),
                i <= ms.len(),
                legal@ == ms.take(i as int).filter(|mv: Move| is_legal(p, mv)),
                board.keys() == old(board).keys(),
            decreases ms.len() - i,
        {
            let mv = moves[i];
            proof {
                assert(ms.take(i + 1).drop_last() =~= ms.take(i as int));
                reveal_with_fuel(Seq::<_>::filter, 1);
            }
            board.make_move(&mv);
            if board.was_illegal_move() {
                board.revert_state();
                i += 1;
                continue;
            }
            legal.push(mv);
            board.revert_state();
            i += 1;
        }
        assert(ms.take(ms.len() as int) =~= ms);
        let k = random_below(rng, legal.len());
        assert(legal@.contains(legal@[k as int]));
        legal[k]
    }
}

} // verus!
