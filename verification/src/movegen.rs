//! Move generation: the squares each piece attacks or moves to, and the
//! list of pseudo-legal moves of the side to move.

use vstd::prelude::*;
use vstd::std_specs::bits::u64_trailing_zeros;
use crate::bits::{Bitboard, has_bit, lemma_pop_lsb, lemma_test_bit, lemma_zero_bits};
use crate::types::{Square, Color, PieceType, Piece, Move, MoveType};
use crate::tables::{
    knight_table, king_table, pawn_attack_table, single_push_table, double_push_table,
    knight_attacks, king_attacks, pawn_attacks, single_push, double_push,
};
use crate::slider::{rook_table, bishop_table, rook_attacks, bishop_attacks};
use crate::position::{Position};
use crate::board::Board;

verus! {

/// The en-passant square as a bitboard.
pub open spec fn ep_mask(p: Position) -> u64 {
    match p.en_passant_square {
        Some(sq) => 1u64 << (sq as u64),
        None => 0u64,
    }
}

/// The en-passant square, if any, is on the board.
pub open spec fn ep_ok(p: Position) -> bool {
    p.en_passant_square matches Some(e) ==> e < 64
}

/// The enemy pieces that a piece of type `pt` and colour `color` on
/// `square` attacks (a pawn also attacks the en-passant square).
pub open spec fn attacks_spec(p: Position, pt: PieceType, color: Color, square: int) -> u64 {
    let enemy = p.occupied.enemy(&color);
    let all = p.occupied.all;
    match pt {
        PieceType::Pawn => pawn_attack_table(color.index() as int, square) & (enemy | ep_mask(p)),
        PieceType::Knight => knight_table(square) & enemy,
        PieceType::Bishop => bishop_table(square, all) & enemy,
        PieceType::Rook => rook_table(square, all) & enemy,
        PieceType::Queen => (rook_table(square, all) | bishop_table(square, all)) & enemy,
        PieceType::King => king_table(square) & enemy,
    }
}

/// The empty squares that a piece of type `pt` and colour `color` on
/// `square` moves to (a pawn steps one square, and a second from its
/// starting rank when the first is free).
pub open spec fn moves_spec(p: Position, pt: PieceType, color: Color, square: int) -> u64 {
    let empty = !p.occupied.all;
    let all = p.occupied.all;
    match pt {
        PieceType::Pawn => {
            let single = single_push_table(color.index() as int, square) & empty;
            let double = if single != 0 {
                double_push_table(color.index() as int, square) & empty
            } else {
                0u64
            };
            single | double
        },
        PieceType::Knight => knight_table(square) & empty,
        PieceType::Bishop => bishop_table(square, all) & empty,
        PieceType::Rook => rook_table(square, all) & empty,
        PieceType::Queen => (rook_table(square, all) | bishop_table(square, all)) & empty,
        PieceType::King => king_table(square) & empty,
    }
}

/// The squares of `x` in increasing order.
pub open spec fn set_bits(x: u64) -> Seq<u8>
    decreases x,
{
    if x == 0 {
        Seq::empty()
    } else {
        proof {
            lemma_pop_lsb(x);
        }
        seq![u64_trailing_zeros(x) as u8] + set_bits(x & ((x - 1) as u64))
    }
}

/// The squares of `set_bits(x)` are on the board and are exactly those of `x`.
pub proof fn lemma_set_bits_members(x: u64)
    ensures
        forall|j: int| 0 <= j < set_bits(x).len() ==> #[trigger] set_bits(x)[j] < 64,
        forall|t: u64| t < 64 ==> (has_bit(x, t) <==> #[trigger] set_bits(x).contains(t as u8)),
    decreases x,
{
    if x == 0 {
        assert forall|t: u64| t < 64 implies (has_bit(x, t) <==> #[trigger] set_bits(x).contains(t as u8)) by {
            lemma_zero_bits(t);
        }
    } else {
        lemma_pop_lsb(x);
        let n = x & ((x - 1) as u64);
        let tz = u64_trailing_zeros(x);
        lemma_set_bits_members(n);
        let sb = set_bits(x);
        assert(sb == seq![tz as u8] + set_bits(n));
        assert forall|j: int| 0 <= j < sb.len() implies #[trigger] sb[j] < 64 by {
            if j > 0 {
                assert(sb[j] == set_bits(n)[j - 1]);
            }
        }
        assert forall|t: u64| t < 64 implies (has_bit(x, t) <==> #[trigger] sb.contains(t as u8)) by {
            if has_bit(x, t) {
                if t == tz as u64 {
                    assert(sb[0] == t as u8);
                } else {
                    assert(has_bit(n, t));
                    assert(set_bits(n).contains(t as u8));
                    let j = choose|j: int| 0 <= j < set_bits(n).len() && set_bits(n)[j] == t as u8;
                    assert(sb[j + 1] == t as u8);
                }
            }
            if sb.contains(t as u8) {
                let j = choose|j: int| 0 <= j < sb.len() && sb[j] == t as u8;
                if j > 0 {
                    assert(set_bits(n)[j - 1] == t as u8);
                    assert(set_bits(n).contains(t as u8));
                }
            }
        }
    }
}

/// The four promotions of a pawn from `from` to `to`: queen, rook, bishop, knight.
pub open spec fn promotions(from: u8, to: u8) -> Seq<Move> {
    seq![
        Move { from, to, move_type: MoveType::Promotion(PieceType::Queen) },
        Move { from, to, move_type: MoveType::Promotion(PieceType::Rook) },
        Move { from, to, move_type: MoveType::Promotion(PieceType::Bishop) },
        Move { from, to, move_type: MoveType::Promotion(PieceType::Knight) },
    ]
}

/// A square of the first or the last rank.
pub open spec fn last_rank(to: u8) -> bool {
    to < 8 || to >= 56
}

/// The moves of `piece` from `from` to the empty squares `targets`.
pub open spec fn quiet_list(piece: Piece, from: u8, targets: Seq<u8>) -> Seq<Move>
    decreases targets.len(),
{
    if targets.len() == 0 {
        Seq::empty()
    } else {
        let to = targets[0];
        let head = if piece.piece_type == PieceType::Pawn && last_rank(to) {
            promotions(from, to)
        } else {
            seq![Move { from, to, move_type: MoveType::Quiet }]
        };
        head + quiet_list(piece, from, targets.drop_first())
    }
}

/// The distance between two squares as numbers.
pub open spec fn square_dist(a: u8, b: u8) -> int {
    if a >= b {
        a - b
    } else {
        b - a
    }
}

/// The captures of `piece` from `from` onto the squares `targets`.
pub open spec fn capture_list(ep: u64, piece: Piece, from: u8, targets: Seq<u8>) -> Seq<Move>
    decreases targets.len(),
{
    if targets.len() == 0 {
        Seq::empty()
    } else {
        let to = targets[0];
        let head = if piece.piece_type == PieceType::Pawn && last_rank(to) {
            promotions(from, to)
        } else if piece.piece_type == PieceType::Pawn && has_bit(ep, to as u64) && (square_dist(
            to,
            from,
        ) == 7 || square_dist(to, from) == 9) {
            seq![Move { from, to, move_type: MoveType::EnPassant }]
        } else {
            seq![Move { from, to, move_type: MoveType::Capture }]
        };
        head + capture_list(ep, piece, from, targets.drop_first())
    }
}

/// The index of the bitboard of the pieces of type `pt` and colour `c`.
pub open spec fn bb_index(pt: PieceType, c: Color) -> int {
    crate::types::type_ord(pt) + 6 * c.index()
}

/// An enemy piece attacks `square`: a piece of the side not to move stands
/// on a square that a piece of the same type of the side to move on
/// `square` would attack.
pub open spec fn attacked(p: Position, square: int) -> bool {
    let us = p.color_to_move;
    let them = us.inverse();
    (attacks_spec(p, PieceType::Pawn, us, square) & p.bitboards[bb_index(PieceType::Pawn, them)]
        | attacks_spec(p, PieceType::Knight, us, square) & p.bitboards[bb_index(
        PieceType::Knight,
        them,
    )] | attacks_spec(p, PieceType::Bishop, us, square) & p.bitboards[bb_index(
        PieceType::Bishop,
        them,
    )] | attacks_spec(p, PieceType::Rook, us, square) & p.bitboards[bb_index(PieceType::Rook, them)]
        | attacks_spec(p, PieceType::Queen, us, square) & p.bitboards[bb_index(
        PieceType::Queen,
        them,
    )] | attacks_spec(p, PieceType::King, us, square) & p.bitboards[bb_index(
        PieceType::King,
        them,
    )]) != 0
}

/// The side to move may castle on the king side: it has the right, the
/// squares between king and rook are empty, and none of the king's square,
/// the square it crosses and its destination is attacked.
pub open spec fn can_castle_kingside_spec(p: Position) -> bool {
    let white = p.color_to_move == Color::White;
    let right = if white {
        p.castling_rights.white_king_side
    } else {
        p.castling_rights.black_king_side
    };
    let (s0, s1, s2) = if white {
        (4int, 5int, 6int)
    } else {
        (60int, 61int, 62int)
    };
    &&& right
    &&& p.mailbox[s1] is None
    &&& p.mailbox[s2] is None
    &&& !attacked(p, s0)
    &&& !attacked(p, s1)
    &&& !attacked(p, s2)
}

/// The side to move may castle on the queen side: it has the right, the
/// three squares between king and rook are empty, and none of the king's
/// square, the square it crosses and its destination is attacked.
pub open spec fn can_castle_queenside_spec(p: Position) -> bool {
    let white = p.color_to_move == Color::White;
    let right = if white {
        p.castling_rights.white_queen_side
    } else {
        p.castling_rights.black_queen_side
    };
    let (s0, s1, s2, s3) = if white {
        (4int, 3int, 2int, 1int)
    } else {
        (60int, 59int, 58int, 57int)
    };
    &&& right
    &&& p.mailbox[s1] is None
    &&& p.mailbox[s2] is None
    &&& p.mailbox[s3] is None
    &&& !attacked(p, s0)
    &&& !attacked(p, s1)
    &&& !attacked(p, s2)
}

/// The castlings a king of the side to move on `from` may make.
pub open spec fn castle_list(p: Position, from: u8) -> Seq<Move> {
    (if can_castle_kingside_spec(p) {
        seq![Move { from, to: (from + 2) as u8, move_type: MoveType::CastleKingside }]
    } else {
        Seq::empty()
    }) + (if can_castle_queenside_spec(p) {
        seq![Move { from, to: (from - 2) as u8, move_type: MoveType::CastleQueenside }]
    } else {
        Seq::empty()
    })
}

/// The pseudo-legal moves of the piece on `from`: its castlings (for a
/// king), then its quiet moves and then its captures, each in increasing
/// order of target square; none when the square holds no piece of the side
/// to move.
pub open spec fn moves_from(p: Position, from: u8) -> Seq<Move> {
    match p.mailbox[from as int] {
        Some(piece) => if piece.color == p.color_to_move {
            (if piece.piece_type == PieceType::King {
                castle_list(p, from)
            } else {
                Seq::empty()
            }) + quiet_list(
                piece,
                from,
                set_bits(moves_spec(p, piece.piece_type, piece.color, from as int)),
            ) + capture_list(
                ep_mask(p),
                piece,
                from,
                set_bits(attacks_spec(p, piece.piece_type, piece.color, from as int)),
            )
        } else {
            Seq::empty()
        },
        None => Seq::empty(),
    }
}

/// The pseudo-legal moves of the pieces on the squares below `n`.
pub open spec fn pseudolegal_upto(p: Position, n: nat) -> Seq<Move>
    decreases n,
{
    if n == 0 {
        Seq::empty()
    } else {
        pseudolegal_upto(p, (n - 1) as nat) + moves_from(p, (n - 1) as u8)
    }
}

/// The pseudo-legal moves of the side to move, square by square from a1 to h8.
pub open spec fn pseudolegal(p: Position) -> Seq<Move> {
    pseudolegal_upto(p, 64)
}

/// No king of the side to move on a1 or b1 (a8 or b8) may castle on the
/// queen side, whose target square would be off the board.
pub open spec fn queenside_target_ok(p: Position) -> bool {
    forall|from: int|
        0 <= from < 2 && #[trigger] p.mailbox[from] == Some(
            Piece { piece_type: PieceType::King, color: p.color_to_move },
        ) ==> !can_castle_queenside_spec(p)
}

pub struct MoveGen;

impl MoveGen {
    /// The enemy pieces that a piece of type `piece_type` and colour
    /// `piece_color` on `square` attacks.
    pub fn attacks(board: &Board, piece_type: &PieceType, piece_color: &Color, square: Square) -> (r: Bitboard)
        requires
            square < 64,
            ep_ok(board@.pos),
        ensures
            r == attacks_spec(board@.pos, *piece_type, *piece_color, square as int),
    {
        let square_idx = square as usize;
        let occupied = board.get_occupied();
        let enemy_occupied = occupied.enemy(piece_color);
        let en_passant_mask = match board.get_en_passant_square() {
            Some(sq) => 1u64 << sq,
            None => 0,
        };
        match piece_type {
            PieceType::Pawn => pawn_attacks(piece_color.index(), square_idx) & (enemy_occupied
                | en_passant_mask),
            PieceType::Knight => knight_attacks(square_idx) & enemy_occupied,
            PieceType::Bishop => bishop_attacks(square, occupied.all) & enemy_occupied,
            PieceType::Rook => rook_attacks(square, occupied.all) & enemy_occupied,
            PieceType::Queen => (rook_attacks(square, occupied.all) | bishop_attacks(
                square,
                occupied.all,
            )) & enemy_occupied,
            PieceType::King => king_attacks(square_idx) & enemy_occupied,
        }
    }

    /// The empty squares that a piece of type `piece_type` and colour
    /// `piece_color` on `square` moves to.
    pub fn moves(board: &Board, piece_type: &PieceType, piece_color: &Color, square: Square) -> (r: Bitboard)
        requires
            square < 64,
        ensures
            r == moves_spec(board@.pos, *piece_type, *piece_color, square as int),
    {
        let square_idx = square as usize;
        let occupied = board.get_occupied();
        let unoccupied = !occupied.all;
        match piece_type {
            PieceType::Pawn => {
                let single = single_push(piece_color.index(), square_idx) & unoccupied;
                let double = if single != 0 {
                    double_push(piece_color.index(), square_idx) & unoccupied
                } else {
                    0
                };
                single | double
            },
            PieceType::Knight => knight_attacks(square_idx) & unoccupied,
            PieceType::Bishop => bishop_attacks(square, occupied.all) & unoccupied,
            PieceType::Rook => rook_attacks(square, occupied.all) & unoccupied,
            PieceType::Queen => (rook_attacks(square, occupied.all) | bishop_attacks(
                square,
                occupied.all,
            )) & unoccupied,
            PieceType::King => king_attacks(square_idx) & unoccupied,
        }
    }

    /// Appends the moves of `piece` from `from` to the empty squares of `targets`.
    fn push_quiet_moves(moves: &mut Vec<Move>, piece: Piece, from: Square, targets: Bitboard)
        ensures
            final(moves)@ == old(moves)@ + quiet_list(piece, from, set_bits(targets)),
    {
        let ghost goal = old(moves)@ + quiet_list(piece, from, set_bits(targets));
        let mut quiet_moves = targets;
        while quiet_moves != 0
            invariant
                goal == moves@ + quiet_list(piece, from, set_bits(quiet_moves)),
            decreases quiet_moves,
        {
            proof {
                lemma_pop_lsb(quiet_moves);
            }
            let ghost before = moves@;
            let ghost rest = set_bits(quiet_moves);
            let to_square = quiet_moves.trailing_zeros() as u8;
            quiet_moves &= quiet_moves - 1;
            assert(rest.drop_first() =~= set_bits(quiet_moves));
            if (piece.piece_type == PieceType::Pawn) && (to_square < 8 || to_square >= 56) {
                moves.push(Move::new(from, to_square, MoveType::Promotion(PieceType::Queen)));
                moves.push(Move::new(from, to_square, MoveType::Promotion(PieceType::Rook)));
                moves.push(Move::new(from, to_square, MoveType::Promotion(PieceType::Bishop)));
                moves.push(Move::new(from, to_square, MoveType::Promotion(PieceType::Knight)));
                assert(moves@ =~= before + promotions(from, to_square));
            } else {
                moves.push(Move::new(from, to_square, MoveType::Quiet));
            }
            assert(goal =~= moves@ + quiet_list(piece, from, set_bits(quiet_moves)));
        }
        assert(goal =~= moves@);
    }

    /// Appends the captures of `piece` from `from` onto the squares of `targets`.
    fn push_captures(moves: &mut Vec<Move>, en_passant_mask: u64, piece: Piece, from: Square, targets: Bitboard)
        ensures
            final(moves)@ == old(moves)@ + capture_list(en_passant_mask, piece, from, set_bits(targets)),
    {
        let ghost goal = old(moves)@ + capture_list(en_passant_mask, piece, from, set_bits(targets));
        let mut capture_moves = targets;
        while capture_moves != 0
            invariant
                goal == moves@ + capture_list(en_passant_mask, piece, from, set_bits(capture_moves)),
            decreases capture_moves,
        {
            proof {
                lemma_pop_lsb(capture_moves);
            }
            let ghost before = moves@;
            let ghost rest = set_bits(capture_moves);
            let to_square = capture_moves.trailing_zeros() as u8;
            capture_moves &= capture_moves - 1;
            assert(rest.drop_first() =~= set_bits(capture_moves));
            proof {
                lemma_test_bit(en_passant_mask, to_square as u64);
            }
            if piece.piece_type == PieceType::Pawn && (to_square < 8 || to_square >= 56) {
                moves.push(Move::new(from, to_square, MoveType::Promotion(PieceType::Queen)));
                moves.push(Move::new(from, to_square, MoveType::Promotion(PieceType::Rook)));
                moves.push(Move::new(from, to_square, MoveType::Promotion(PieceType::Bishop)));
                moves.push(Move::new(from, to_square, MoveType::Promotion(PieceType::Knight)));
                assert(moves@ =~= before + promotions(from, to_square));
            } else if piece.piece_type == PieceType::Pawn && en_passant_mask & (1u64 << to_square) != 0
                && {
                let from_to_dist = if to_square >= from {
                    to_square - from
                } else {
                    from - to_square
                };
                from_to_dist == 7 || from_to_dist == 9
            } {
                moves.push(Move::new(from, to_square, MoveType::EnPassant));
            } else {
                moves.push(Move::new(from, to_square, MoveType::Capture));
            }
            assert(goal =~= moves@ + capture_list(en_passant_mask, piece, from, set_bits(capture_moves)));
        }
        assert(goal =~= moves@);
    }

    /// The pseudo-legal moves of the side to move: for each of its pieces,
    /// square by square from a1 to h8, a king's castlings, then the quiet
    /// moves, then the captures, each in increasing order of target square.
    /// They are not checked for leaving the own king attacked.
    pub fn get_pseudolegal_moves(board: &Board) -> (moves: Vec<Move>)
        requires
            ep_ok(board@.pos),
            queenside_target_ok(board@.pos),
        ensures
            moves@ == pseudolegal(board@.pos),
    {
        let ghost p = board@.pos;
        let mut moves: Vec<Move> = Vec::new();
        let en_passant_mask = match board.get_en_passant_square() {
            Some(sq) => 1u64 << sq,
            None => 0,
        };
        assert(en_passant_mask == ep_mask(p));
        let mut from_square: u8 = 0;
        assert(moves@ =~= pseudolegal_upto(p, 0));
        while from_square < 64
            invariant
                p == board@.pos,
                ep_ok(p),
                queenside_target_ok(p),
                en_passant_mask == ep_mask(p),
                from_square <= 64,
                moves@ == pseudolegal_upto(p, from_square as nat),
            decreases 64 - from_square,
        {
            let ghost before = moves@;
            match board.get_piece(from_square) {
                Some(piece_ref) => {
                    let piece = *piece_ref;
                    if &piece.color == board.color_to_move() {
                        if piece.piece_type == PieceType::King {
                            if board.can_castle_kingside() {
                                moves.push(Move::new(from_square, from_square + 2, MoveType::CastleKingside));
                            }
                            if board.can_castle_queenside() {
                                assert(from_square >= 2);
                                moves.push(Move::new(from_square, from_square - 2, MoveType::CastleQueenside));
                            }
                            assert(moves@ =~= before + castle_list(p, from_square));
                        } else {
                            assert(moves@ =~= before + Seq::<Move>::empty());
                        }
                        let ghost with_castles = moves@;
                        let quiet_moves = Self::moves(board, &piece.piece_type, &piece.color, from_square);
                        Self::push_quiet_moves(&mut moves, piece, from_square, quiet_moves);
                        let capture_moves = Self::attacks(board, &piece.piece_type, &piece.color, from_square);
                        Self::push_captures(&mut moves, en_passant_mask, piece, from_square, capture_moves);
                        assert(moves@ =~= before + moves_from(p, from_square));
                    } else {
                        assert(moves@ =~= before + moves_from(p, from_square));
                    }
                },
                None => {
                    assert(moves@ =~= before + moves_from(p, from_square));
                },
            }
            from_square += 1;
        }
        moves
    }
}

} // verus!
