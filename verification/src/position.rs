//! The mathematical model of a position and of the changes a move makes.

use vstd::prelude::*;
use crate::bits::{has_bit, lemma_or_bit, lemma_zero_bits};
use crate::types::{
    Square, Color, PieceType, Piece, CastlingRights, Occupied, Move, MoveType, HistoryState,
    piece_index, piece_of_index,
};

verus! {

/// What a board holds besides its history: a bitboard per kind of piece, the
/// piece on each square, the occupied squares, the side to move, the
/// en-passant square and the castling rights.
#[verifier::ext_equal]
pub struct Position {
    pub bitboards: Seq<u64>,
    pub mailbox: Seq<Option<Piece>>,
    pub occupied: Occupied,
    pub color_to_move: Color,
    pub en_passant_square: Option<Square>,
    pub castling_rights: CastlingRights,
}

impl View for HistoryState {
    type V = Position;

    open spec fn view(&self) -> Position {
        Position {
            bitboards: self.bitboards@,
            mailbox: self.mailbox@,
            occupied: self.occupied,
            color_to_move: self.color_to_move,
            en_passant_square: self.en_passant_square,
            castling_rights: self.castling_rights,
        }
    }
}

/// The union of the bitboards with indices `lo` to `hi - 1`.
pub open spec fn or_range(bb: Seq<u64>, lo: int, hi: int) -> u64
    decreases hi - lo,
{
    if hi <= lo {
        0u64
    } else {
        or_range(bb, lo, hi - 1) | bb[hi - 1]
    }
}

/// A square of the union of some bitboards belongs to one of them.
pub proof fn lemma_or_range_bits(bb: Seq<u64>, lo: int, hi: int, s: u64)
    ensures
        has_bit(or_range(bb, lo, hi), s) <==> exists|i: int| lo <= i < hi && #[trigger] has_bit(bb[i], s),
    decreases hi - lo,
{
    if hi <= lo {
        lemma_zero_bits(s);
    } else {
        lemma_or_range_bits(bb, lo, hi - 1, s);
        lemma_or_bit(or_range(bb, lo, hi - 1), bb[hi - 1], s);
        if has_bit(or_range(bb, lo, hi), s) && !has_bit(bb[hi - 1], s) {
            let i = choose|i: int| lo <= i < hi - 1 && #[trigger] has_bit(bb[i], s);
            assert(lo <= i < hi);
        }
        if exists|i: int| lo <= i < hi && #[trigger] has_bit(bb[i], s) {
            let i = choose|i: int| lo <= i < hi && #[trigger] has_bit(bb[i], s);
            if i < hi - 1 {
                assert(lo <= i < hi - 1);
            }
        }
    }
}

/// The occupied squares recomputed from the bitboards: white from the first
/// six, black from the last six.
pub open spec fn occupied_of(bb: Seq<u64>) -> Occupied {
    let white = or_range(bb, 0, 6);
    let black = or_range(bb, 6, 12);
    Occupied { white, black, all: white | black }
}

/// The position with `piece` placed on `square`.
pub open spec fn put(p: Position, square: int, piece: Piece) -> Position {
    let i = piece_index(piece);
    Position {
        bitboards: p.bitboards.update(i, p.bitboards[i] | (1u64 << (square as u64))),
        mailbox: p.mailbox.update(square, Some(piece)),
        ..p
    }
}

/// The position with `piece` taken off `square`.
pub open spec fn take(p: Position, square: int, piece: Piece) -> Position {
    let i = piece_index(piece);
    Position {
        bitboards: p.bitboards.update(i, p.bitboards[i] & !(1u64 << (square as u64))),
        mailbox: p.mailbox.update(square, None),
        ..p
    }
}

/// The position with its occupied squares recomputed.
pub open spec fn refresh(p: Position) -> Position {
    Position { occupied: occupied_of(p.bitboards), ..p }
}

/// The castling rights after `piece` moves from `from` to `to`: a king
/// loses both rights of its side, a rook leaving its corner loses that
/// corner's right, and any move onto a corner loses the right of that corner.
pub open spec fn rights_after(cr: CastlingRights, piece: Piece, from: int, to: int) -> CastlingRights {
    let cr1 = match piece.piece_type {
        PieceType::King => match piece.color {
            Color::White => CastlingRights {
                white_king_side: false,
                white_queen_side: false,
                ..cr
            },
            Color::Black => CastlingRights {
                black_king_side: false,
                black_queen_side: false,
                ..cr
            },
        },
        PieceType::Rook => if from == 0 {
            CastlingRights { white_queen_side: false, ..cr }
        } else if from == 7 {
            CastlingRights { white_king_side: false, ..cr }
        } else if from == 56 {
            CastlingRights { black_queen_side: false, ..cr }
        } else if from == 63 {
            CastlingRights { black_king_side: false, ..cr }
        } else {
            cr
        },
        _ => cr,
    };
    if to == 0 {
        CastlingRights { white_queen_side: false, ..cr1 }
    } else if to == 7 {
        CastlingRights { white_king_side: false, ..cr1 }
    } else if to == 56 {
        CastlingRights { black_queen_side: false, ..cr1 }
    } else if to == 63 {
        CastlingRights { black_king_side: false, ..cr1 }
    } else {
        cr1
    }
}

/// The piece on `square`; meaningful only where there is one.
pub open spec fn piece_on(p: Position, square: int) -> Piece {
    p.mailbox[square]->0
}

/// The square of the pawn that an en-passant capture by `color` onto `to` takes.
pub open spec fn en_passant_victim(color: Color, to: int) -> int {
    if color == Color::White {
        to - 8
    } else {
        to + 8
    }
}

/// The conditions under which `Board::make_move` runs without a panic: both
/// squares on the board, a piece to move, a known kind of move, and a piece
/// on every square the move takes a piece from.
pub open spec fn move_ok(p: Position, mv: Move) -> bool {
    let from = mv.from as int;
    let to = mv.to as int;
    let white = piece_on(p, from).color == Color::White;
    &&& from < 64
    &&& to < 64
    &&& p.mailbox[from] is Some
    &&& mv.move_type != MoveType::Unknown
    &&& mv.move_type == MoveType::Capture ==> p.mailbox[to] is Some
    &&& mv.move_type == MoveType::CastleKingside ==> p.mailbox[if white {
        7int
    } else {
        63int
    }] is Some
    &&& mv.move_type == MoveType::CastleQueenside ==> p.mailbox[if white {
        0int
    } else {
        56int
    }] is Some
    &&& mv.move_type == MoveType::EnPassant ==> {
        let v = en_passant_victim(piece_on(p, from).color, to);
        0 <= v < 64 && p.mailbox[v] is Some
    }
}

/// The rook's move of a castling of `color`: its corner and its destination.
pub open spec fn castle_rook_squares(color: Color, kingside: bool) -> (int, int) {
    match (color, kingside) {
        (Color::White, true) => (7, 5),
        (Color::Black, true) => (63, 61),
        (Color::White, false) => (0, 3),
        (Color::Black, false) => (56, 59),
    }
}

/// The castling rights with the right of `color` on one side removed.
pub open spec fn clear_right(cr: CastlingRights, color: Color, kingside: bool) -> CastlingRights {
    match (color, kingside) {
        (Color::White, true) => CastlingRights { white_king_side: false, ..cr },
        (Color::Black, true) => CastlingRights { black_king_side: false, ..cr },
        (Color::White, false) => CastlingRights { white_queen_side: false, ..cr },
        (Color::Black, false) => CastlingRights { black_queen_side: false, ..cr },
    }
}

/// The en-passant square that a move of `piece` from `from` to `to` leaves:
/// the square a pawn skipped over with its double step, if it made one.
pub open spec fn en_passant_after(piece: Piece, from: int, to: int) -> Option<Square> {
    if piece.piece_type == PieceType::Pawn && piece.color == Color::White && to == from + 16 {
        Some((from + 8) as u8)
    } else if piece.piece_type == PieceType::Pawn && piece.color == Color::Black && from >= 16
        && to == from - 16 {
        Some((from - 8) as u8)
    } else {
        None
    }
}

/// The captures and rook moves a move of `piece` makes besides moving
/// `piece` itself (for every kind but a promotion).
pub open spec fn side_effects(p1: Position, mv: Move, piece: Piece) -> Position {
    let to = mv.to as int;
    match mv.move_type {
        MoveType::Capture => take(p1, to, piece_on(p1, to)),
        MoveType::CastleKingside => {
            let (corner, dest) = castle_rook_squares(piece.color, true);
            let p1c = Position {
                castling_rights: clear_right(p1.castling_rights, piece.color, true),
                ..p1
            };
            let rook = piece_on(p1c, corner);
            put(take(p1c, corner, rook), dest, rook)
        },
        MoveType::CastleQueenside => {
            let (corner, dest) = castle_rook_squares(piece.color, false);
            let p1c = Position {
                castling_rights: clear_right(p1.castling_rights, piece.color, false),
                ..p1
            };
            let rook = piece_on(p1c, corner);
            put(take(p1c, corner, rook), dest, rook)
        },
        MoveType::EnPassant => {
            let v = en_passant_victim(piece.color, to);
            take(p1, v, piece_on(p1, v))
        },
        _ => p1,
    }
}

/// The rest of a move of `piece` other than a promotion: the piece goes
/// from `from` to `to`, the other side is to move, the en-passant square
/// is the one a double step skipped, and the occupied squares are refreshed.
pub open spec fn finish_move(p2: Position, mv: Move, piece: Piece) -> Position {
    let from = mv.from as int;
    let to = mv.to as int;
    let p3 = put(take(p2, from, piece), to, piece);
    refresh(
        Position {
            color_to_move: p2.color_to_move.inverse(),
            en_passant_square: en_passant_after(piece, from, to),
            ..p3
        },
    )
}

/// A promotion of `piece` to the type `pt`: the pawn leaves `from`, what
/// stands on `to` is taken, the new piece stands on `to`, the other side is
/// to move, and there is no en-passant square.
pub open spec fn promote_move(p1: Position, mv: Move, piece: Piece, pt: PieceType) -> Position {
    let from = mv.from as int;
    let to = mv.to as int;
    let p2 = take(p1, from, piece);
    let p3 = match p2.mailbox[to] {
        Some(c) => take(p2, to, c),
        None => p2,
    };
    let p4 = put(p3, to, Piece { piece_type: pt, color: piece.color });
    refresh(Position { color_to_move: p1.color_to_move.inverse(), en_passant_square: None, ..p4 })
}

/// The position after the move `mv` (for a position where `move_ok` holds).
pub open spec fn apply_move(p: Position, mv: Move) -> Position {
    let from = mv.from as int;
    let to = mv.to as int;
    let piece = piece_on(p, from);
    let p1 = Position {
        castling_rights: rights_after(p.castling_rights, piece, from, to),
        ..p
    };
    match mv.move_type {
        MoveType::Promotion(pt) => promote_move(p1, mv, piece, pt),
        _ => finish_move(side_effects(p1, mv, piece), mv, piece),
    }
}

/// Whether the rights `cr` let `color` castle on the king side (when
/// `kingside`) or on the queen side.
pub open spec fn has_right(cr: CastlingRights, color: Color, kingside: bool) -> bool {
    match (color, kingside) {
        (Color::White, true) => cr.white_king_side,
        (Color::White, false) => cr.white_queen_side,
        (Color::Black, true) => cr.black_king_side,
        (Color::Black, false) => cr.black_queen_side,
    }
}

/// The corner of the rook that a castling right belongs to: h1 and a1 for
/// White, h8 and a8 for Black.
pub open spec fn right_corner(color: Color, kingside: bool) -> int {
    match (color, kingside) {
        (Color::White, true) => 7,
        (Color::White, false) => 0,
        (Color::Black, true) => 63,
        (Color::Black, false) => 56,
    }
}

/// A move never gives back a castling right.
pub proof fn law_move_never_grants_rights(p: Position, mv: Move, color: Color, kingside: bool)
    ensures
        has_right(apply_move(p, mv).castling_rights, color, kingside) ==> has_right(
            p.castling_rights,
            color,
            kingside,
        ),
{
}

/// A move keeps a castling right of `color` when the piece `pc` it moves is
/// not that side's king, when it neither leaves nor lands on the corner of
/// that right, and when it is not that side's castling on that wing: so a
/// rook leaving h1 keeps White's queen-side right.
pub proof fn law_move_keeps_untouched_right(p: Position, mv: Move, pc: Piece, color: Color, kingside: bool)
    requires
        p.mailbox.len() == 64,
        mv.from < 64,
        p.mailbox[mv.from as int] == Some(pc),
        !(pc.piece_type == PieceType::King && pc.color == color),
        mv.from != right_corner(color, kingside),
        mv.to != right_corner(color, kingside),
        !(pc.color == color && mv.move_type == (if kingside {
            MoveType::CastleKingside
        } else {
            MoveType::CastleQueenside
        })),
    ensures
        has_right(apply_move(p, mv).castling_rights, color, kingside) == has_right(
            p.castling_rights,
            color,
            kingside,
        ),
{
}

/// A move takes away a castling right of `color` when it moves that side's
/// king, when a rook leaves the corner of that right, or when a piece lands
/// on that corner.
pub proof fn law_move_removes_touched_right(p: Position, mv: Move, pc: Piece, color: Color, kingside: bool)
    requires
        p.mailbox.len() == 64,
        mv.from < 64,
        p.mailbox[mv.from as int] == Some(pc),
        (pc.piece_type == PieceType::King && pc.color == color) || (pc.piece_type == PieceType::Rook
            && mv.from == right_corner(color, kingside)) || mv.to == right_corner(color, kingside),
    ensures
        !has_right(apply_move(p, mv).castling_rights, color, kingside),
{
}

/// The squares of a castling of `color` on one wing: where the king stands
/// and where it goes, where the rook stands and where it goes (e1, g1, h1,
/// f1 for White's king side; e1, c1, a1, d1 for its queen side; the same
/// files on the eighth rank for Black).
pub open spec fn castling_squares(color: Color, kingside: bool) -> (int, int, int, int) {
    match (color, kingside) {
        (Color::White, true) => (4, 6, 7, 5),
        (Color::White, false) => (4, 2, 0, 3),
        (Color::Black, true) => (60, 62, 63, 61),
        (Color::Black, false) => (60, 58, 56, 59),
    }
}

/// Castling takes the king two squares towards the rook and puts the rook
/// on the square the king passed over; every other square keeps its piece,
/// and both castling rights of that side are gone.
pub proof fn law_castling_moves(p: Position, color: Color, kingside: bool)
    requires
        p.mailbox.len() == 64,
        p.bitboards.len() == 12,
        ({
            let (k, kt, r, rt) = castling_squares(color, kingside);
            &&& p.mailbox[k] == Some(Piece { piece_type: PieceType::King, color })
            &&& p.mailbox[r] == Some(Piece { piece_type: PieceType::Rook, color })
            &&& p.mailbox[kt] is None
            &&& p.mailbox[rt] is None
        }),
    ensures
        ({
            let (k, kt, r, rt) = castling_squares(color, kingside);
            let mv = Move {
                from: k as u8,
                to: kt as u8,
                move_type: if kingside {
                    MoveType::CastleKingside
                } else {
                    MoveType::CastleQueenside
                },
            };
            let q = apply_move(p, mv);
            &&& q.mailbox[k] is None
            &&& q.mailbox[r] is None
            &&& q.mailbox[kt] == Some(Piece { piece_type: PieceType::King, color })
            &&& q.mailbox[rt] == Some(Piece { piece_type: PieceType::Rook, color })
            &&& forall|s: int| 0 <= s < 64 && s != k && s != kt && s != r && s != rt ==> #[trigger] q.mailbox[s] == p.mailbox[s]
            &&& !has_right(q.castling_rights, color, true)
            &&& !has_right(q.castling_rights, color, false)
            &&& q.color_to_move == p.color_to_move.inverse()
        }),
{
}

/// After a move, the en-passant square is the square a pawn skipped with a
/// double step (one rank behind where it landed, seen from its side), and
/// there is none after any other move.
pub proof fn law_en_passant_square_after_move(p: Position, mv: Move, pc: Piece)
    requires
        p.mailbox.len() == 64,
        mv.from < 64,
        p.mailbox[mv.from as int] == Some(pc),
        !(mv.move_type is Promotion),
    ensures
        apply_move(p, mv).en_passant_square == if pc.piece_type == PieceType::Pawn && pc.color
            == Color::White && mv.to == mv.from + 16 {
            Some((mv.from + 8) as u8)
        } else if pc.piece_type == PieceType::Pawn && pc.color == Color::Black && mv.to + 16
            == mv.from {
            Some((mv.from - 8) as u8)
        } else {
            None
        },
{
}

/// An en-passant capture takes the pawn that stands just behind the
/// square it lands on, seen from the capturing side, and leaves every
/// square but those three as it was.
pub proof fn law_en_passant_capture(p: Position, mv: Move, pc: Piece)
    requires
        p.mailbox.len() == 64,
        p.bitboards.len() == 12,
        mv.from < 64,
        mv.move_type == MoveType::EnPassant,
        mv.to != mv.from,
        p.mailbox[mv.from as int] == Some(pc),
        pc.piece_type == PieceType::Pawn,
        pc.color == Color::White ==> 16 <= mv.to < 64,
        pc.color == Color::Black ==> mv.to < 48,
    ensures
        ({
            let v = if pc.color == Color::White { mv.to - 8 } else { mv.to + 8 };
            let q = apply_move(p, mv);
            &&& q.mailbox[v] is None
            &&& q.mailbox[mv.from as int] is None
            &&& q.mailbox[mv.to as int] == Some(pc)
            &&& forall|s: int| 0 <= s < 64 && s != v && s != mv.from && s != mv.to ==> #[trigger] q.mailbox[s] == p.mailbox[s]
        }),
{
}

/// A quiet move or a capture takes the piece from its square to the
/// target, where it replaces whatever stood there, and hands the move to
/// the other side; every other square keeps its piece.
pub proof fn law_plain_move(p: Position, mv: Move, pc: Piece)
    requires
        p.mailbox.len() == 64,
        p.bitboards.len() == 12,
        mv.from < 64,
        mv.to < 64,
        mv.to != mv.from,
        mv.move_type == MoveType::Quiet || mv.move_type == MoveType::Capture,
        p.mailbox[mv.from as int] == Some(pc),
    ensures
        ({
            let q = apply_move(p, mv);
            &&& q.mailbox[mv.to as int] == Some(pc)
            &&& q.mailbox[mv.from as int] is None
            &&& q.color_to_move == p.color_to_move.inverse()
            &&& forall|s: int| 0 <= s < 64 && s != mv.from && s != mv.to ==> #[trigger] q.mailbox[s] == p.mailbox[s]
        }),
{
}

/// A promotion to `pt` leaves a piece of type `pt` of the pawn's colour on
/// the target square, empties the square the pawn left, leaves no
/// en-passant square and hands the move to the other side; every other
/// square keeps its piece.
pub proof fn law_promotion(p: Position, mv: Move, pc: Piece, pt: PieceType)
    requires
        p.mailbox.len() == 64,
        p.bitboards.len() == 12,
        mv.from < 64,
        mv.to < 64,
        mv.to != mv.from,
        mv.move_type == MoveType::Promotion(pt),
        p.mailbox[mv.from as int] == Some(pc),
    ensures
        ({
            let q = apply_move(p, mv);
            &&& q.mailbox[mv.to as int] == Some(Piece { piece_type: pt, color: pc.color })
            &&& q.mailbox[mv.from as int] is None
            &&& q.en_passant_square is None
            &&& q.color_to_move == p.color_to_move.inverse()
            &&& forall|s: int| 0 <= s < 64 && s != mv.from && s != mv.to ==> #[trigger] q.mailbox[s] == p.mailbox[s]
        }),
{
}

/// The bitboards and the mailbox agree, the occupied squares are those of
/// the bitboards, and the en-passant square is on the board.
pub open spec fn wf(p: Position) -> bool {
    &&& p.bitboards.len() == 12
    &&& p.mailbox.len() == 64
    &&& forall|i: int, s: u64|
        0 <= i < 12 && s < 64 ==> (#[trigger] has_bit(p.bitboards[i], s) <==> p.mailbox[s as int]
            == Some(piece_of_index(i)))
    &&& p.occupied == occupied_of(p.bitboards)
    &&& p.en_passant_square matches Some(e) ==> e < 64
}

} // verus!

verus! {

/// The bitboards and the mailbox agree.
pub open spec fn agree(p: Position) -> bool {
    &&& p.bitboards.len() == 12
    &&& p.mailbox.len() == 64
    &&& forall|i: int, s: u64|
        0 <= i < 12 && s < 64 ==> (#[trigger] has_bit(p.bitboards[i], s) <==> p.mailbox[s as int]
            == Some(piece_of_index(i)))
}

/// Square `square` of `m` is empty or holds `piece` already.
pub open spec fn fits(m: Seq<Option<Piece>>, square: int, piece: Piece) -> bool {
    m[square] is None || m[square] == Some(piece)
}

/// The move `mv` never puts a piece on a square that holds another piece:
/// the one condition under which `apply_move` keeps the bitboards and the
/// mailbox in agreement.
pub open spec fn keeps_agreement(p: Position, mv: Move) -> bool {
    let from = mv.from as int;
    let to = mv.to as int;
    let piece = piece_on(p, from);
    let p1 = Position {
        castling_rights: rights_after(p.castling_rights, piece, from, to),
        ..p
    };
    match mv.move_type {
        MoveType::Promotion(_) => true,
        _ => {
            &&& fits(take(side_effects(p1, mv, piece), from, piece).mailbox, to, piece)
            &&& mv.move_type == MoveType::CastleKingside ==> {
                let (corner, dest) = castle_rook_squares(piece.color, true);
                fits(p.mailbox.update(corner, None), dest, piece_on(p, corner))
            }
            &&& mv.move_type == MoveType::CastleQueenside ==> {
                let (corner, dest) = castle_rook_squares(piece.color, false);
                fits(p.mailbox.update(corner, None), dest, piece_on(p, corner))
            }
        },
    }
}

proof fn lemma_put_agree(p: Position, square: int, piece: Piece)
    requires
        agree(p),
        0 <= square < 64,
        fits(p.mailbox, square, piece),
    ensures
        agree(put(p, square, piece)),
{
    let q = put(p, square, piece);
    let k = piece_index(piece);
    crate::types::lemma_piece_index(piece);
    assert forall|i: int, s: u64| 0 <= i < 12 && s < 64 implies (#[trigger] has_bit(
        q.bitboards[i],
        s,
    ) <==> q.mailbox[s as int] == Some(piece_of_index(i))) by {
        crate::types::lemma_index_piece(i);
        if i == k {
            crate::bits::lemma_or_bit(p.bitboards[i], 1u64 << (square as u64), s);
            crate::bits::lemma_single_bit(square as u64, s);
        }
        assert(has_bit(p.bitboards[i], s) <==> p.mailbox[s as int] == Some(piece_of_index(i)));
    }
}

proof fn lemma_take_agree(p: Position, square: int, piece: Piece)
    requires
        agree(p),
        0 <= square < 64,
        fits(p.mailbox, square, piece),
    ensures
        agree(take(p, square, piece)),
{
    let q = take(p, square, piece);
    let k = piece_index(piece);
    crate::types::lemma_piece_index(piece);
    assert forall|i: int, s: u64| 0 <= i < 12 && s < 64 implies (#[trigger] has_bit(
        q.bitboards[i],
        s,
    ) <==> q.mailbox[s as int] == Some(piece_of_index(i))) by {
        crate::types::lemma_index_piece(i);
        if i == k {
            crate::bits::lemma_and_bit(p.bitboards[i], !(1u64 << (square as u64)), s);
            crate::bits::lemma_not_bit(1u64 << (square as u64), s);
            crate::bits::lemma_single_bit(square as u64, s);
        }
        assert(has_bit(p.bitboards[i], s) <==> p.mailbox[s as int] == Some(piece_of_index(i)));
    }
}

/// A move keeps a well-formed position well-formed when it puts no piece on
/// a square that holds another one.
pub proof fn law_move_keeps_wf(p: Position, mv: Move)
    requires
        wf(p),
        move_ok(p, mv),
        keeps_agreement(p, mv),
    ensures
        wf(apply_move(p, mv)),
{
    let from = mv.from as int;
    let to = mv.to as int;
    let piece = piece_on(p, from);
    let p1 = Position {
        castling_rights: rights_after(p.castling_rights, piece, from, to),
        ..p
    };
    assert(agree(p1));
    match mv.move_type {
        MoveType::Promotion(pt) => {
            let p2 = take(p1, from, piece);
            lemma_take_agree(p1, from, piece);
            match p2.mailbox[to] {
                Some(c) => {
                    lemma_take_agree(p2, to, c);
                    lemma_put_agree(take(p2, to, c), to, Piece { piece_type: pt, color: piece.color });
                },
                None => {
                    lemma_put_agree(p2, to, Piece { piece_type: pt, color: piece.color });
                },
            }
        },
        _ => {
            let p2 = side_effects(p1, mv, piece);
            match mv.move_type {
                MoveType::Capture => {
                    lemma_take_agree(p1, to, piece_on(p1, to));
                },
                MoveType::CastleKingside => {
                    let (corner, dest) = castle_rook_squares(piece.color, true);
                    let p1c = Position {
                        castling_rights: clear_right(p1.castling_rights, piece.color, true),
                        ..p1
                    };
                    let rook = piece_on(p1c, corner);
                    lemma_take_agree(p1c, corner, rook);
                    lemma_put_agree(take(p1c, corner, rook), dest, rook);
                },
                MoveType::CastleQueenside => {
                    let (corner, dest) = castle_rook_squares(piece.color, false);
                    let p1c = Position {
                        castling_rights: clear_right(p1.castling_rights, piece.color, false),
                        ..p1
                    };
                    let rook = piece_on(p1c, corner);
                    lemma_take_agree(p1c, corner, rook);
                    lemma_put_agree(take(p1c, corner, rook), dest, rook);
                },
                MoveType::EnPassant => {
                    let v = en_passant_victim(piece.color, to);
                    lemma_take_agree(p1, v, piece_on(p1, v));
                },
                _ => {},
            }
            assert(agree(p2));
            assert(fits(p2.mailbox, from, piece)) by {
                if p2.mailbox[from] is Some {
                    assert(p2.mailbox[from] == p.mailbox[from]);
                }
            }
            lemma_take_agree(p2, from, piece);
            lemma_put_agree(take(p2, from, piece), to, piece);
        },
    }
}

} // verus!
