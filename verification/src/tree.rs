//! The game tree as the engine walks it: the legal children of a position,
//! the conditions under which walking a subtree raises no panic, and the
//! leaf counts of perft.

use vstd::prelude::*;
use crate::types::{Move, PieceType, Piece};
use crate::position::{Position, apply_move, move_ok};
use crate::movegen::{MoveGen, pseudolegal, ep_ok, queenside_target_ok};
use crate::board::{Board, illegal_spec, has_king, law_revert_undoes_move};

verus! {

/// A pseudo-legal move of `p` that does not leave the mover's king attacked.
pub open spec fn is_legal(p: Position, mv: Move) -> bool {
    !illegal_spec(apply_move(p, mv))
}

/// Generating the moves of `p`, making each of them and testing it for
/// legality raises no panic.
pub open spec fn step_ok(p: Position) -> bool {
    let ms = pseudolegal(p);
    &&& ep_ok(p)
    &&& queenside_target_ok(p)
    &&& forall|i: int|
        0 <= i < ms.len() ==> {
            let q = apply_move(p, #[trigger] ms[i]);
            &&& move_ok(p, ms[i])
            &&& ep_ok(q)
            &&& has_king(q, q.color_to_move.inverse())
        }
}

/// Walking the tree of legal moves of `p` to depth `d` raises no panic.
pub open spec fn safe_tree(p: Position, d: nat) -> bool
    decreases d,
{
    if d == 0 {
        true
    } else {
        let ms = pseudolegal(p);
        &&& step_ok(p)
        &&& forall|i: int|
            0 <= i < ms.len() && is_legal(p, #[trigger] ms[i]) ==> safe_tree(
                apply_move(p, ms[i]),
                (d - 1) as nat,
            )
    }
}

/// The number of leaves of the tree of legal moves of `p` of depth `d`.
pub open spec fn perft_count(p: Position, d: nat) -> nat
    decreases d, 1nat, 0nat,
{
    if d == 0 {
        1
    } else {
        perft_sum(p, pseudolegal(p), d)
    }
}

/// The leaves below the legal moves among `ms`, at depth `d - 1` after each.
pub open spec fn perft_sum(p: Position, ms: Seq<Move>, d: nat) -> nat
    decreases d, 0nat, ms.len(),
{
    if d == 0 || ms.len() == 0 {
        0
    } else {
        perft_sum(p, ms.drop_last(), d) + if is_legal(p, ms.last()) {
            perft_count(apply_move(p, ms.last()), (d - 1) as nat)
        } else {
            0
        }
    }
}

pub proof fn lemma_perft_sum_prefix(p: Position, ms: Seq<Move>, d: nat, i: int, j: int)
    requires
        0 <= i <= j <= ms.len(),
    ensures
        perft_sum(p, ms.take(i), d) <= perft_sum(p, ms.take(j), d),
    decreases j - i,
{
    if i < j {
        lemma_perft_sum_prefix(p, ms, d, i, j - 1);
        assert(ms.take(j).drop_last() =~= ms.take(j - 1));
    }
}

proof fn lemma_perft_sum_one(p: Position, ms: Seq<Move>)
    ensures
        perft_sum(p, ms, 1) == ms.filter(|mv: Move| is_legal(p, mv)).len(),
    decreases ms.len(),
{
    let pred = |mv: Move| is_legal(p, mv);
    if ms.len() == 0 {
        assert(ms.filter(pred) =~= Seq::<Move>::empty()) by {
            reveal_with_fuel(Seq::<_>::filter, 1);
        }
    } else {
        lemma_perft_sum_one(p, ms.drop_last());
        ms.drop_last().lemma_filter_len_push(pred, ms.last());
        assert(ms.drop_last().push(ms.last()) =~= ms);
        assert(perft_count(apply_move(p, ms.last()), 0) == 1);
        assert(perft_sum(p, ms, 1) == perft_sum(p, ms.drop_last(), 1) + if is_legal(p, ms.last()) {
            1int
        } else {
            0int
        });
    }
}

/// The perft count of depth one is the number of legal moves.
pub proof fn law_perft_one_counts_legal_moves(p: Position)
    ensures
        perft_count(p, 1) == legal_moves(p).len(),
{
    lemma_perft_sum_one(p, pseudolegal(p));
}

/// The legal moves of `p`, in the order of generation.
pub open spec fn legal_moves(p: Position) -> Seq<Move> {
    pseudolegal(p).filter(|mv: Move| is_legal(p, mv))
}

/// Whether generating the moves of the board's position, making each of
/// them and testing it for legality would raise no panic. The board is left
/// as it was.
pub fn step_is_ok(board: &mut Board) -> (r: bool)
    ensures
        r == step_ok(old(board)@.pos),
        final(board)@ == old(board)@,
        final(board).keys() == old(board).keys(),
{
    let ghost v0 = board@;
    let ghost p = v0.pos;
    proof {
        board.lemma_lengths();
    }
    if let Some(e) = board.get_en_passant_square() {
        if e >= 64 {
            return false;
        }
    }
    let mut from: u8 = 0;
    while from < 2
        invariant
            v0 == board@,
            p == v0.pos,
            ep_ok(p),
            from <= 2,
            forall|f: int|
                0 <= f < from && #[trigger] p.mailbox[f] == Some(
                    Piece { piece_type: PieceType::King, color: p.color_to_move },
                ) ==> !crate::movegen::can_castle_queenside_spec(p),
        decreases 2 - from,
    {
        if let Some(piece) = board.get_piece(from) {
            if piece.piece_type == PieceType::King && piece.color == *board.color_to_move()
                && board.can_castle_queenside() {
                return false;
            }
        }
        from += 1;
    }
    let moves = MoveGen::get_pseudolegal_moves(board);
    let ghost ms = moves@;
    let mut i: usize = 0;
    while i < moves.len()
        invariant
            v0 == board@,
            v0 == old(board)@,
            p == v0.pos,
            board.keys() == old(board).keys(),
            ms == moves@,
            ms == pseudolegal(p),
            ep_ok(p),
            queenside_target_ok(p),
            i <= ms.len(),
            forall|j: int|
                0 <= j < i ==> {
                    let q = apply_move(p, #[trigger] ms[j]);
                    &&& move_ok(p, ms[j])
                    &&& ep_ok(q)
                    &&& has_king(q, q.color_to_move.inverse())
                },
        decreases ms.len() - i,
    {
        let mv = moves[i];
        if !board.move_is_ok(&mv) {
            return false;
        }
        board.make_move(&mv);
        let ep_fine = match board.get_en_passant_square() {
            Some(e) => e < 64,
            None => true,
        };
        let mover = board.color_to_move().inverse();
        let king_there = board.bitboard(PieceType::King.index(&mover)) != 0;
        board.revert_state();
        proof {
            law_revert_undoes_move(v0, mv);
        }
        if !ep_fine || !king_there {
            return false;
        }
        i += 1;
    }
    true
}

} // verus!
