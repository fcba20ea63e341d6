//! Perft: counting the leaves of the tree of legal moves, the standard test
//! of a move generator.

use vstd::prelude::*;
use crate::types::Move;
use crate::board::Board;
use crate::movegen::{MoveGen, pseudolegal};
use crate::position::apply_move;
use crate::tree::{safe_tree, step_ok, step_is_ok, perft_count, perft_sum, is_legal, lemma_perft_sum_prefix};
use crate::board::law_revert_undoes_move;

verus! {

pub struct Debug;

/// The depth as a number of plies: none for a depth of zero or less.
pub open spec fn plies(depth: int) -> nat {
    if depth <= 0 {
        0
    } else {
        depth as nat
    }
}

impl Debug {
    /// The number of leaves of the tree of legal moves of depth `depth`.
    /// The board is left as it was.
    pub fn perft(board: &mut Board, depth: i32) -> (r: u64)
        requires
            safe_tree(old(board)@.pos, plies(depth as int)),
            perft_count(old(board)@.pos, plies(depth as int)) <= u64::MAX,
        ensures
            r == perft_count(old(board)@.pos, plies(depth as int)),
            final(board)@ == old(board)@,
            final(board).keys() == old(board).keys(),
        decreases plies(depth as int),
    {
        if depth <= 0 {
            return 1;
        }
        let ghost v0 = board@;
        let ghost p = v0.pos;
        let ghost d = plies(depth as int);
        let mut total_nodes: u64 = 0;
        let move_list = MoveGen::get_pseudolegal_moves(board);
        let ghost ms = move_list@;
        assert(ms.take(0) =~= Seq::<Move>::empty());
        let mut i: usize = 0;
        while i < move_list.len()
            invariant
                v0 == board@,
                p == v0.pos,
                d == plies(depth as int),
                depth > 0,
                ms == move_list@,
                ms == pseudolegal(p),
                step_ok(p),
                safe_tree(p, d),
                perft_count(p, d) <= u64::MAX,
                perft_count(p, d) == perft_sum(p, ms, d),
                i <= ms.len(),
                total_nodes == perft_sum(p, ms.take(i as int), d),
                board.keys() == old(board).keys(),
            decreases ms.len() - i,
        {
            let mv = &move_list[i];
            assert(ms.take(i + 1).drop_last() =~= ms.take(i as int));
            assert(ms.take(i + 1).last() == ms[i as int]);
            proof {
                lemma_perft_sum_prefix(p, ms, d, i + 1, ms.len() as int);
                assert(ms.take(ms.len() as int) =~= ms);
            }
            board.make_move(mv);
            if board.was_illegal_move() {
                board.revert_state();
                i += 1;
                continue;
            }
            let child = Self::perft(board, depth - 1);
            total_nodes += child;
            board.revert_state();
            i += 1;
        }
        assert(ms.take(ms.len() as int) =~= ms);
        total_nodes
    }

    /// The perft count of depth `depth`, or `None` when counting it would
    /// raise a panic: some position of the tree breaks a condition of the
    /// move generator or of making a move, or the count exceeds a `u64`.
    /// The board is left as it was.
    #[verifier::rlimit(40)]
    pub fn try_perft(board: &mut Board, depth: i32) -> (r: Option<u64>)
        ensures
            r == if safe_tree(old(board)@.pos, plies(depth as int)) && perft_count(
                old(board)@.pos,
                plies(depth as int),
            ) <= u64::MAX {
                Some(perft_count(old(board)@.pos, plies(depth as int)) as u64)
            } else {
                None
            },
            final(board)@ == old(board)@,
            final(board).keys() == old(board).keys(),
        decreases plies(depth as int),
    {
        if depth <= 0 {
            return Some(1);
        }
        let ghost v0 = board@;
        let ghost p = v0.pos;
        let ghost d = plies(depth as int);
        if !step_is_ok(board) {
            return None;
        }
        let mut total_nodes: u64 = 0;
        let move_list = MoveGen::get_pseudolegal_moves(board);
        let ghost ms = move_list@;
        assert(ms.take(0) =~= Seq::<Move>::empty());
        let mut i: usize = 0;
        while i < move_list.len()
            invariant
                v0 == board@,
                v0 == old(board)@,
                p == v0.pos,
                d == plies(depth as int),
                depth > 0,
                ms == move_list@,
                ms == pseudolegal(p),
                step_ok(p),
                perft_count(p, d) == perft_sum(p, ms, d),
                i <= ms.len(),
                forall|j: int|
                    0 <= j < i && is_legal(p, #[trigger] ms[j]) ==> safe_tree(
                        apply_move(p, ms[j]),
                        (d - 1) as nat,
                    ),
                total_nodes == perft_sum(p, ms.take(i as int), d),
                board.keys() == old(board).keys(),
            decreases ms.len() - i,
        {
            let mv = &move_list[i];
            assert(ms.take(i + 1).drop_last() =~= ms.take(i as int));
            assert(ms.take(i + 1).last() == ms[i as int]);
            proof {
                lemma_perft_sum_prefix(p, ms, d, i + 1, ms.len() as int);
                assert(ms.take(ms.len() as int) =~= ms);
            }
            board.make_move(mv);
            if board.was_illegal_move() {
                board.revert_state();
                proof {
                    law_revert_undoes_move(v0, *mv);
                }
                i += 1;
                continue;
            }
            let child = Self::try_perft(board, depth - 1);
            board.revert_state();
            proof {
                law_revert_undoes_move(v0, *mv);
            }
            let ghost q = apply_move(p, ms[i as int]);
            let ghost below = perft_count(q, (d - 1) as nat);
            assert(perft_sum(p, ms.take(i + 1), d) == total_nodes + below);
            assert(below <= perft_sum(p, ms.take(i + 1), d));
            assert(perft_sum(p, ms.take(i + 1), d) <= perft_count(p, d));
            match child {
                Some(n) => match total_nodes.checked_add(n) {
                    Some(t) => total_nodes = t,
                    None => {
                        assert(!(perft_count(p, d) <= u64::MAX));
                        return None;
                    },
                },
                None => {
                    assert(!(safe_tree(p, d) && perft_count(p, d) <= u64::MAX)) by {
                        if safe_tree(p, d) {
                            assert(is_legal(p, ms[i as int]));
                            assert(safe_tree(q, (d - 1) as nat));
                        }
                    }
                    return None;
                },
            }
            i += 1;
        }
        assert(ms.take(ms.len() as int) =~= ms);
        Some(total_nodes)
    }

    /// The perft count below each legal move at depth `depth - 1`, in the
    /// order of generation, and their total. The board is left as it was.
    pub fn divide(board: &mut Board, depth: i32) -> (r: (u64, Vec<(Move, u64)>))
        requires
            depth > i32::MIN,
            safe_tree(old(board)@.pos, 1 + plies(depth - 1)),
            perft_count(old(board)@.pos, 1 + plies(depth - 1)) <= u64::MAX,
        ensures
            r.0 == perft_count(old(board)@.pos, 1 + plies(depth - 1)),
            r.1@.map_values(|e: (Move, u64)| e.0) == crate::tree::legal_moves(old(board)@.pos),
            forall|k: int|
                0 <= k < r.1@.len() ==> #[trigger] r.1@[k].1 == perft_count(
                    apply_move(old(board)@.pos, r.1@[k].0),
                    plies(depth - 1),
                ),
            final(board)@ == old(board)@,
            final(board).keys() == old(board).keys(),
    {
        let ghost v0 = board@;
        let ghost p = v0.pos;
        let ghost d = 1 + plies(depth - 1);
        let mut total_nodes: u64 = 0;
        let mut per_move: Vec<(Move, u64)> = Vec::new();
        let move_list = MoveGen::get_pseudolegal_moves(board);
        let ghost ms = move_list@;
        assert(ms.take(0) =~= Seq::<Move>::empty());
        assert(ms.take(0).filter(|mv: Move| is_legal(p, mv)) =~= Seq::<Move>::empty()) by {
            reveal_with_fuel(Seq::<_>::filter, 1);
        }
        let mut i: usize = 0;
        while i < move_list.len()
            invariant
                v0 == board@,
                p == v0.pos,
                d == 1 + plies(depth - 1),
                depth > i32::MIN,
                ms == move_list@,
                ms == pseudolegal(p),
                step_ok(p),
                safe_tree(p, d),
                perft_count(p, d) <= u64::MAX,
                perft_count(p, d) == perft_sum(p, ms, d),
                i <= ms.len(),
                total_nodes == perft_sum(p, ms.take(i as int), d),
                per_move@.map_values(|e: (Move, u64)| e.0) == ms.take(i as int).filter(
                    |mv: Move| is_legal(p, mv),
                ),
                forall|k: int|
                    0 <= k < per_move@.len() ==> #[trigger] per_move@[k].1 == perft_count(
                        apply_move(p, per_move@[k].0),
                        plies(depth - 1),
                    ),
                board.keys() == old(board).keys(),
            decreases ms.len() - i,
        {
            let mv = &move_list[i];
            assert(ms.take(i + 1).drop_last() =~= ms.take(i as int));
            assert(ms.take(i + 1).last() == ms[i as int]);
            proof {
                lemma_perft_sum_prefix(p, ms, d, i + 1, ms.len() as int);
                assert(ms.take(ms.len() as int) =~= ms);
                reveal_with_fuel(Seq::<_>::filter, 1);
            }
            board.make_move(mv);
            if board.was_illegal_move() {
                board.revert_state();
                i += 1;
                continue;
            }
            let move_nodes = Self::perft(board, depth - 1);
            let ghost old_list = per_move@;
            per_move.push((*mv, move_nodes));
            assert(per_move@.map_values(|e: (Move, u64)| e.0) =~= old_list.map_values(
                |e: (Move, u64)| e.0,
            ).push(*mv));
            total_nodes += move_nodes;
            board.revert_state();
            i += 1;
        }
        assert(ms.take(ms.len() as int) =~= ms);
        (total_nodes, per_move)
    }
}

} // verus!
