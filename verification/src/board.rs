//! The board: the position, the stack of saved positions and the Zobrist
//! keys, with the operations that change them.

use vstd::prelude::*;
use crate::bits::{Bitboard, has_bit};
use crate::types::{
    Square, Color, PieceType, Piece, CastlingRights, Occupied, Move, MoveType, Mailbox,
    HistoryState, PIECETYPE_COUNT, type_value, type_ord, start_piece,
    piece_of_index,
};
use crate::zobrist::{Zobrist, key_index};
use crate::movegen::{MoveGen, ep_ok, attacked, bb_index, can_castle_kingside_spec, can_castle_queenside_spec};
use crate::bits::lemma_pop_lsb;
use vstd::std_specs::bits::u64_trailing_zeros;
use crate::position::{
    Position, put, take, refresh, or_range, rights_after, piece_on, move_ok,
    apply_move, en_passant_victim, castle_rook_squares, clear_right, side_effects,
    finish_move, promote_move, wf,
};

verus! {

pub struct Board {
    bitboards: [Bitboard; 12],
    mailbox: Mailbox,
    occupied: Occupied,
    color_to_move: Color,
    en_passant_square: Option<Square>,
    castling_rights: CastlingRights,
    history: Vec<HistoryState>,
    zobrist: Zobrist,
}

/// What a board stands for: its position and the positions saved on its
/// history stack, oldest first.
#[verifier::ext_equal]
pub struct BoardView {
    pub pos: Position,
    pub history: Seq<Position>,
}

/// The board after its position is saved on the history stack.
pub open spec fn save_view(v: BoardView) -> BoardView {
    BoardView { pos: v.pos, history: v.history.push(v.pos) }
}

/// The board after the last saved position is brought back and dropped from
/// the stack.
pub open spec fn revert_view(v: BoardView) -> BoardView {
    BoardView { pos: v.history.last(), history: v.history.drop_last() }
}

/// The kind of move that `Board::find_move_type` gives `mv`.
pub open spec fn classify_move(p: Position, mv: Move) -> Move {
    if mv.move_type != MoveType::Unknown {
        mv
    } else {
        let piece = piece_on(p, mv.from as int);
        let kind = if piece.piece_type == PieceType::King && piece.color == Color::White
            && mv.from == 4 && mv.to == 6 {
            MoveType::CastleKingside
        } else if piece.piece_type == PieceType::King && piece.color == Color::White && mv.from
            == 4 && mv.to == 2 {
            MoveType::CastleQueenside
        } else if piece.piece_type == PieceType::King && piece.color == Color::Black && mv.from
            == 60 && mv.to == 62 {
            MoveType::CastleKingside
        } else if piece.piece_type == PieceType::King && piece.color == Color::Black && mv.from
            == 60 && mv.to == 58 {
            MoveType::CastleQueenside
        } else if piece.piece_type == PieceType::Pawn && p.en_passant_square == Some(mv.to) {
            MoveType::EnPassant
        } else if p.mailbox[mv.to as int] is Some {
            MoveType::Capture
        } else {
            MoveType::Quiet
        };
        Move { move_type: kind, ..mv }
    }
}

/// The board after the move `mv`: the position before it is saved, then
/// the move is applied.
pub open spec fn make_move_view(v: BoardView, mv: Move) -> BoardView {
    BoardView { pos: apply_move(v.pos, mv), history: v.history.push(v.pos) }
}

/// Reverting right after a move gives back the board as it was before the
/// move, history included.
pub proof fn law_revert_undoes_move(v: BoardView, mv: Move)
    ensures
        revert_view(make_move_view(v, mv)) == v,
{
    assert(revert_view(make_move_view(v, mv)).history =~= v.history);
}

/// Reverting right after a move gives back the Zobrist hash of the
/// position before the move.
pub proof fn law_revert_restores_hash(z: Zobrist, v: BoardView, mv: Move)
    ensures
        zobrist_hash(z, revert_view(make_move_view(v, mv)).pos) == zobrist_hash(z, v.pos),
{
    law_revert_undoes_move(v, mv);
}

/// Reverting right after saving gives back the board that was saved.
pub proof fn law_revert_undoes_save(v: BoardView)
    ensures
        revert_view(save_view(v)) == v,
{
    assert(revert_view(save_view(v)).history =~= v.history);
}

/// The position with the other side to move.
pub open spec fn flip(p: Position) -> Position {
    Position { color_to_move: p.color_to_move.inverse(), ..p }
}

/// The side `c` has a king on the board.
pub open spec fn has_king(p: Position, c: Color) -> bool {
    p.bitboards[bb_index(PieceType::King, c)] != 0
}

/// The square of the king of `c`: the lowest square of its bitboard.
pub open spec fn king_square(p: Position, c: Color) -> int {
    u64_trailing_zeros(p.bitboards[bb_index(PieceType::King, c)]) as int
}

pub proof fn lemma_king_square(p: Position, c: Color)
    requires
        has_king(p, c),
    ensures
        0 <= king_square(p, c) < 64,
{
    lemma_pop_lsb(p.bitboards[bb_index(PieceType::King, c)]);
}

/// The side that just moved left its king attacked.
pub open spec fn illegal_spec(p: Position) -> bool {
    attacked(flip(p), king_square(p, p.color_to_move.inverse()))
}

/// The total value of the pieces of colour `c` on the squares below `n`.
pub open spec fn material(m: Seq<Option<Piece>>, c: Color, n: nat) -> int
    decreases n,
{
    if n == 0 {
        0
    } else {
        material(m, c, (n - 1) as nat) + match m[n - 1] {
            Some(p) => if p.color == c {
                type_value(p.piece_type) as int
            } else {
                0
            },
            None => 0,
        }
    }
}

pub proof fn lemma_material_mono(m: Seq<Option<Piece>>, c: Color, n: nat, k: nat)
    requires
        n <= k,
    ensures
        0 <= material(m, c, n) <= material(m, c, k),
    decreases k,
{
    if k > n {
        lemma_material_mono(m, c, n, (k - 1) as nat);
    } else if n > 0 {
        lemma_material_mono(m, c, (n - 1) as nat, (n - 1) as nat);
    }
}

/// The material of the side to move less that of the other side.
pub open spec fn evaluation(p: Position) -> int {
    let w = material(p.mailbox, Color::White, 64);
    let b = material(p.mailbox, Color::Black, 64);
    if p.color_to_move == Color::White {
        w - b
    } else {
        b - w
    }
}

proof fn lemma_material_add(m: Seq<Option<Piece>>, c: Color, n: nat, s: int, pc: Piece)
    requires
        0 <= s < m.len(),
        m[s] is None,
        n <= m.len(),
    ensures
        material(m.update(s, Some(pc)), c, n) == material(m, c, n) + if s < n && pc.color == c {
            type_value(pc.piece_type) as int
        } else {
            0
        },
    decreases n,
{
    if n > 0 {
        lemma_material_add(m, c, (n - 1) as nat, s, pc);
    }
}

/// Putting a piece on an empty square changes the evaluation by the worth
/// of the piece: 100 for a pawn, 300 for a knight or a bishop, 500 for a
/// rook, 900 for a queen and 10000 for a king; in favour of the side to
/// move when the piece is its own, against it otherwise.
pub proof fn law_piece_worth(p: Position, s: int, pc: Piece)
    requires
        p.mailbox.len() == 64,
        0 <= s < 64,
        p.mailbox[s] is None,
    ensures
        evaluation(Position { mailbox: p.mailbox.update(s, Some(pc)), ..p }) == evaluation(p) + (if pc.color
            == p.color_to_move {
            1int
        } else {
            -1int
        }) * match pc.piece_type {
            PieceType::Pawn => 100int,
            PieceType::Knight => 300int,
            PieceType::Bishop => 300int,
            PieceType::Rook => 500int,
            PieceType::Queen => 900int,
            PieceType::King => 10000int,
        },
{
    lemma_material_add(p.mailbox, Color::White, 64, s, pc);
    lemma_material_add(p.mailbox, Color::Black, 64, s, pc);
}

/// The keys of the pieces on the squares below `n`, combined by exclusive or.
pub open spec fn piece_hash(z: Zobrist, m: Seq<Option<Piece>>, n: nat) -> u64
    decreases n,
{
    if n == 0 {
        0u64
    } else {
        let prev = piece_hash(z, m, (n - 1) as nat);
        match m[n - 1] {
            Some(p) => prev ^ z.pieces@[key_index(p.color.index() as int, type_ord(p.piece_type) as int, n - 1)],
            None => prev,
        }
    }
}

/// The Zobrist hash of `p` under the keys `z`.
pub open spec fn zobrist_hash(z: Zobrist, p: Position) -> u64 {
    let h0 = piece_hash(z, p.mailbox, 64);
    let h1 = if p.color_to_move == Color::White { h0 ^ z.side_to_move } else { h0 };
    let cr = p.castling_rights;
    let h2 = if cr.white_king_side { h1 ^ z.castling_rights@[0] } else { h1 };
    let h3 = if cr.white_queen_side { h2 ^ z.castling_rights@[1] } else { h2 };
    let h4 = if cr.black_king_side { h3 ^ z.castling_rights@[2] } else { h3 };
    let h5 = if cr.black_queen_side { h4 ^ z.castling_rights@[3] } else { h4 };
    match p.en_passant_square {
        Some(e) => h5 ^ z.en_passant_file@[(e % 8) as int],
        None => h5,
    }
}

/// The starting position.
pub open spec fn start_position() -> Position {
    Position {
        bitboards: seq![
            0xff00u64,
            0x42u64,
            0x24u64,
            0x81u64,
            0x8u64,
            0x10u64,
            0xff000000000000u64,
            0x4200000000000000u64,
            0x2400000000000000u64,
            0x8100000000000000u64,
            0x800000000000000u64,
            0x1000000000000000u64,
        ],
        mailbox: Seq::new(64, |s: int| start_piece(s)),
        occupied: Occupied { white: 0xffff, black: 0xffff000000000000, all: 0xffff00000000ffff },
        color_to_move: Color::White,
        en_passant_square: None,
        castling_rights: CastlingRights {
            white_queen_side: true,
            white_king_side: true,
            black_queen_side: true,
            black_king_side: true,
        },
    }
}

/// The starting position is well formed: its bitboards, mailbox and
/// occupied squares agree.
pub proof fn law_start_position_wf()
    ensures
        wf(start_position()),
{
    let p = start_position();
    assert(0u64 | 0xff00u64 | 0x42u64 | 0x24u64 | 0x81u64 | 0x8u64 | 0x10u64 == 0xffffu64
        && 0u64 | 0xff000000000000u64 | 0x4200000000000000u64 | 0x2400000000000000u64
        | 0x8100000000000000u64 | 0x800000000000000u64 | 0x1000000000000000u64
        == 0xffff000000000000u64 && 0xffffu64 | 0xffff000000000000u64 == 0xffff00000000ffffu64)
        by (bit_vector);
    assert(or_range(p.bitboards, 0, 6) == 0xffffu64) by {
        reveal_with_fuel(or_range, 7);
    }
    assert(or_range(p.bitboards, 6, 12) == 0xffff000000000000u64) by {
        reveal_with_fuel(or_range, 7);
    }
    assert forall|i: int, s: u64| 0 <= i < 12 && s < 64 implies (#[trigger] has_bit(
        p.bitboards[i],
        s,
    ) <==> p.mailbox[s as int] == Some(piece_of_index(i))) by {
        assert(s < 64 ==> ((((0xff00u64 >> s) & 1u64) == 1u64) == (8 <= s < 16) && (((0x42u64
            >> s) & 1u64) == 1u64) == (s == 1 || s == 6) && (((0x24u64 >> s) & 1u64) == 1u64)
            == (s == 2 || s == 5) && (((0x81u64 >> s) & 1u64) == 1u64) == (s == 0 || s == 7)
            && (((0x8u64 >> s) & 1u64) == 1u64) == (s == 3) && (((0x10u64 >> s) & 1u64)
            == 1u64) == (s == 4) && (((0xff000000000000u64 >> s) & 1u64) == 1u64) == (48 <= s
            < 56) && (((0x4200000000000000u64 >> s) & 1u64) == 1u64) == (s == 57 || s == 62)
            && (((0x2400000000000000u64 >> s) & 1u64) == 1u64) == (s == 58 || s == 61) && (((
        0x8100000000000000u64 >> s) & 1u64) == 1u64) == (s == 56 || s == 63) && (((
        0x800000000000000u64 >> s) & 1u64) == 1u64) == (s == 59) && (((0x1000000000000000u64
            >> s) & 1u64) == 1u64) == (s == 60))) by (bit_vector);
    }
}

impl View for Board {
    type V = BoardView;

    open spec fn view(&self) -> BoardView {
        self.state()
    }
}

impl Board {
    pub closed spec fn state(&self) -> BoardView {
        BoardView {
            pos: self.current()@,
            history: self.history@.map_values(|h: HistoryState| h@),
        }
    }

    /// The position of the board, as the value `save_state` saves.
    pub closed spec fn current(&self) -> HistoryState {
        HistoryState {
            bitboards: self.bitboards,
            mailbox: self.mailbox,
            occupied: self.occupied,
            color_to_move: self.color_to_move,
            en_passant_square: self.en_passant_square,
            castling_rights: self.castling_rights,
        }
    }

    /// The Zobrist keys of the board.
    pub closed spec fn keys(&self) -> Zobrist {
        self.zobrist
    }

    pub proof fn lemma_lengths(&self)
        ensures
            self@.pos.bitboards.len() == 12,
            self@.pos.mailbox.len() == 64,
    {
    }

    /// A board with the given position, an empty history and the given keys.
    pub(crate) fn from_parts(
        bitboards: [Bitboard; 12],
        mailbox: Mailbox,
        occupied: Occupied,
        color_to_move: Color,
        en_passant_square: Option<Square>,
        castling_rights: CastlingRights,
        zobrist: Zobrist,
    ) -> (b: Self)
        ensures
            b@.pos == (HistoryState {
                bitboards,
                mailbox,
                occupied,
                color_to_move,
                en_passant_square,
                castling_rights,
            })@,
            b@.history == Seq::<Position>::empty(),
            b.keys() == zobrist,
    {
        let b = Self {
            bitboards,
            mailbox,
            occupied,
            color_to_move,
            en_passant_square,
            castling_rights,
            history: Vec::new(),
            zobrist,
        };
        assert(b@.history =~= Seq::<Position>::empty());
        b
    }

    pub fn get_piece(&self, square: Square) -> (r: Option<&Piece>)
        requires
            square < 64,
        ensures
            match r {
                Some(p) => self@.pos.mailbox[square as int] == Some(*p),
                None => self@.pos.mailbox[square as int] is None,
            },
    {
        self.mailbox.get_piece(square)
    }

    pub fn get_occupied(&self) -> (r: &Occupied)
        ensures
            *r == self@.pos.occupied,
    {
        &self.occupied
    }

    pub fn get_castling_rights(&self) -> (r: &CastlingRights)
        ensures
            *r == self@.pos.castling_rights,
    {
        &self.castling_rights
    }

    pub fn get_en_passant_square(&self) -> (r: Option<Square>)
        ensures
            r == self@.pos.en_passant_square,
    {
        self.en_passant_square
    }

    pub fn color_to_move(&self) -> (r: &Color)
        ensures
            *r == self@.pos.color_to_move,
    {
        &self.color_to_move
    }

    /// The bitboard with index `i`.
    pub fn bitboard(&self, i: usize) -> (r: Bitboard)
        requires
            i < 12,
        ensures
            r == self@.pos.bitboards[i as int],
    {
        self.bitboards[i]
    }

    /// The Zobrist keys of the board.
    pub fn zobrist(&self) -> (r: &Zobrist)
        ensures
            *r == self.keys(),
    {
        &self.zobrist
    }

    pub fn place_piece(&mut self, square: Square, piece: Piece)
        requires
            square < 64,
        ensures
            final(self)@ == (BoardView { pos: put(old(self)@.pos, square as int, piece), ..old(self)@ }),
            final(self).keys() == old(self).keys(),
    {
        let i = piece.index();
        self.bitboards[i] = self.bitboards[i] | (1u64 << square);
        self.mailbox.set_piece(square, Some(piece));
        assert(self@.pos =~= put(old(self)@.pos, square as int, piece));
    }

    pub fn remove_piece(&mut self, square: Square, piece: &Piece)
        requires
            square < 64,
        ensures
            final(self)@ == (BoardView { pos: take(old(self)@.pos, square as int, *piece), ..old(self)@ }),
            final(self).keys() == old(self).keys(),
    {
        let i = piece.index();
        self.bitboards[i] = self.bitboards[i] & !(1u64 << square);
        self.mailbox.set_piece(square, None);
        assert(self@.pos =~= take(old(self)@.pos, square as int, *piece));
    }

    pub fn save_state(&mut self)
        ensures
            final(self)@ == save_view(old(self)@),
            final(self).keys() == old(self).keys(),
    {
        self.history.push(
            HistoryState {
                bitboards: self.bitboards,
                mailbox: self.mailbox,
                occupied: self.occupied,
                color_to_move: self.color_to_move,
                en_passant_square: self.en_passant_square,
                castling_rights: self.castling_rights,
            },
        );
        assert(self@.history =~= save_view(old(self)@).history);
    }

    fn update_occupied(&mut self)
        ensures
            final(self)@ == (BoardView { pos: refresh(old(self)@.pos), ..old(self)@ }),
            final(self).keys() == old(self).keys(),
    {
        let ghost bb = self@.pos.bitboards;
        let mut white: u64 = 0;
        let mut i: usize = 0;
        while i < PIECETYPE_COUNT
            invariant
                i <= 6,
                bb == self.bitboards@,
                white == or_range(bb, 0, i as int),
            decreases 6 - i,
        {
            white = white | self.bitboards[i];
            i += 1;
        }
        let mut black: u64 = 0;
        let mut i: usize = PIECETYPE_COUNT;
        while i < 12
            invariant
                6 <= i <= 12,
                bb == self.bitboards@,
                black == or_range(bb, 6, i as int),
            decreases 12 - i,
        {
            black = black | self.bitboards[i];
            i += 1;
        }
        self.occupied.white = white;
        self.occupied.black = black;
        self.occupied.all = white | black;
        assert(self@.pos =~= refresh(old(self)@.pos));
    }

    pub fn revert_state(&mut self)
        requires
            old(self)@.history.len() > 0,
        ensures
            final(self)@ == revert_view(old(self)@),
            final(self).keys() == old(self).keys(),
    {
        let state = self.history.pop().unwrap();
        self.bitboards = state.bitboards;
        self.mailbox = state.mailbox;
        self.occupied = state.occupied;
        self.color_to_move = state.color_to_move;
        self.en_passant_square = state.en_passant_square;
        self.castling_rights = state.castling_rights;
        assert(self@.history =~= revert_view(old(self)@).history);
        assert(self@.pos =~= revert_view(old(self)@).pos);
    }

    /// Gives the move its kind when it is `Unknown`: a king's two-square
    /// step from its home square is a castling, a pawn's move onto the
    /// en-passant square an en-passant capture, and any other move a capture
    /// or a quiet move as its target is occupied or not.
    pub fn find_move_type(&self, mv: &mut Move)
        requires
            old(mv).move_type == MoveType::Unknown ==> old(mv).from < 64 && old(mv).to < 64
                && self@.pos.mailbox[old(mv).from as int] is Some,
        ensures
            *final(mv) == classify_move(self@.pos, *old(mv)),
    {
        if mv.move_type != MoveType::Unknown {
            return;
        }
        let piece = *self.mailbox.get_piece(mv.from).unwrap();
        let target = self.mailbox.get_piece(mv.to);
        if piece.piece_type == PieceType::King {
            match (piece.color, mv.from, mv.to) {
                (Color::White, 4, 6) => {
                    mv.move_type = MoveType::CastleKingside;
                    return;
                },
                (Color::White, 4, 2) => {
                    mv.move_type = MoveType::CastleQueenside;
                    return;
                },
                (Color::Black, 60, 62) => {
                    mv.move_type = MoveType::CastleKingside;
                    return;
                },
                (Color::Black, 60, 58) => {
                    mv.move_type = MoveType::CastleQueenside;
                    return;
                },
                _ => {},
            }
        }
        if piece.piece_type == PieceType::Pawn {
            if let Some(en_passant_square) = self.en_passant_square {
                if mv.to == en_passant_square {
                    mv.move_type = MoveType::EnPassant;
                    return;
                }
            }
        }
        mv.move_type = if target.is_some() {
            MoveType::Capture
        } else {
            MoveType::Quiet
        };
    }

    /// Removes the castling rights that a move of `piece` from `from` to
    /// `to` loses.
    fn strip_rights(&mut self, piece: Piece, from: Square, to: Square)
        ensures
            final(self)@ == (BoardView {
                pos: Position {
                    castling_rights: rights_after(old(self)@.pos.castling_rights, piece, from as int, to as int),
                    ..old(self)@.pos
                },
                ..old(self)@
            }),
            final(self).keys() == old(self).keys(),
    {
        match piece.piece_type {
            PieceType::King => match piece.color {
                Color::White => {
                    self.castling_rights.white_king_side = false;
                    self.castling_rights.white_queen_side = false;
                },
                Color::Black => {
                    self.castling_rights.black_king_side = false;
                    self.castling_rights.black_queen_side = false;
                },
            },
            PieceType::Rook => match from {
                0 => self.castling_rights.white_queen_side = false,
                7 => self.castling_rights.white_king_side = false,
                56 => self.castling_rights.black_queen_side = false,
                63 => self.castling_rights.black_king_side = false,
                _ => {},
            },
            _ => {},
        }
        match to {
            0 => self.castling_rights.white_queen_side = false,
            7 => self.castling_rights.white_king_side = false,
            56 => self.castling_rights.black_queen_side = false,
            63 => self.castling_rights.black_king_side = false,
            _ => {},
        }
        assert(self@.pos =~= Position {
            castling_rights: rights_after(old(self)@.pos.castling_rights, piece, from as int, to as int),
            ..old(self)@.pos
        });
    }

    /// Moves the rook of a castling of `color` from its corner.
    fn castle_rook(&mut self, color: Color, kingside: bool)
        requires
            old(self)@.pos.mailbox[castle_rook_squares(color, kingside).0] is Some,
        ensures
            final(self)@ == (BoardView {
                pos: {
                    let (corner, dest) = castle_rook_squares(color, kingside);
                    let p1c = Position {
                        castling_rights: clear_right(old(self)@.pos.castling_rights, color, kingside),
                        ..old(self)@.pos
                    };
                    let rook = piece_on(p1c, corner);
                    put(take(p1c, corner, rook), dest, rook)
                },
                ..old(self)@
            }),
            final(self).keys() == old(self).keys(),
    {
        let corner: Square;
        let dest: Square;
        match (color, kingside) {
            (Color::White, true) => {
                self.castling_rights.white_king_side = false;
                corner = 7;
                dest = 5;
            },
            (Color::Black, true) => {
                self.castling_rights.black_king_side = false;
                corner = 63;
                dest = 61;
            },
            (Color::White, false) => {
                self.castling_rights.white_queen_side = false;
                corner = 0;
                dest = 3;
            },
            (Color::Black, false) => {
                self.castling_rights.black_queen_side = false;
                corner = 56;
                dest = 59;
            },
        }
        let ghost p1c = self@.pos;
        assert(p1c =~= Position {
            castling_rights: clear_right(old(self)@.pos.castling_rights, color, kingside),
            ..old(self)@.pos
        });
        let rook = *self.mailbox.get_piece(corner).unwrap();
        self.remove_piece(corner, &rook);
        self.place_piece(dest, rook);
    }

    /// Makes the captures and rook moves of `mv` other than moving `piece`.
    fn make_side_effects(&mut self, mv: &Move, piece: Piece)
        requires
            mv.to < 64,
            mv.move_type == MoveType::Capture ==> old(self)@.pos.mailbox[mv.to as int] is Some,
            mv.move_type == MoveType::CastleKingside ==> old(self)@.pos.mailbox[castle_rook_squares(piece.color, true).0] is Some,
            mv.move_type == MoveType::CastleQueenside ==> old(self)@.pos.mailbox[castle_rook_squares(piece.color, false).0] is Some,
            mv.move_type == MoveType::EnPassant ==> {
                let v = en_passant_victim(piece.color, mv.to as int);
                0 <= v < 64 && old(self)@.pos.mailbox[v] is Some
            },
        ensures
            final(self)@ == (BoardView { pos: side_effects(old(self)@.pos, *mv, piece), ..old(self)@ }),
            final(self).keys() == old(self).keys(),
    {
        match mv.move_type {
            MoveType::Capture => {
                let captured_piece = *self.mailbox.get_piece(mv.to).unwrap();
                self.remove_piece(mv.to, &captured_piece);
            },
            MoveType::CastleKingside => {
                self.castle_rook(piece.color, true);
            },
            MoveType::CastleQueenside => {
                self.castle_rook(piece.color, false);
            },
            MoveType::EnPassant => {
                let captured_pawn_square = if piece.color.is_white() {
                    mv.to - 8
                } else {
                    mv.to + 8
                };
                let captured_pawn = *self.mailbox.get_piece(captured_pawn_square).unwrap();
                self.remove_piece(captured_pawn_square, &captured_pawn);
            },
            _ => {},
        }
    }

    /// Moves `piece` from `mv.from` to `mv.to`, hands the move to the other
    /// side, sets the en-passant square and refreshes the occupied squares.
    fn finish(&mut self, mv: &Move, piece: Piece)
        requires
            mv.from < 64,
            mv.to < 64,
        ensures
            final(self)@ == (BoardView { pos: finish_move(old(self)@.pos, *mv, piece), ..old(self)@ }),
            final(self).keys() == old(self).keys(),
    {
        let is_white = piece.color.is_white();
        self.remove_piece(mv.from, &piece);
        self.place_piece(mv.to, piece);
        self.color_to_move = self.color_to_move.inverse();
        self.en_passant_square = None;
        if piece.piece_type == PieceType::Pawn {
            if is_white && (mv.to == mv.from + 16) {
                self.en_passant_square = Some(mv.from + 8);
            } else if !is_white && mv.from >= 16 && mv.to == mv.from - 16 {
                self.en_passant_square = Some(mv.from - 8);
            }
        }
        self.update_occupied();
        assert(self@.pos =~= finish_move(old(self)@.pos, *mv, piece));
    }

    /// Promotes the pawn `piece` on `mv.from` to `promotion` on `mv.to`.
    fn promote(&mut self, mv: &Move, piece: Piece, promotion: PieceType)
        requires
            mv.from < 64,
            mv.to < 64,
        ensures
            final(self)@ == (BoardView { pos: promote_move(old(self)@.pos, *mv, piece, promotion), ..old(self)@ }),
            final(self).keys() == old(self).keys(),
    {
        self.remove_piece(mv.from, &piece);
        if let Some(captured) = self.mailbox.get_piece(mv.to) {
            let captured_piece = *captured;
            self.remove_piece(mv.to, &captured_piece);
        }
        self.place_piece(mv.to, Piece { piece_type: promotion, color: piece.color });
        self.color_to_move = self.color_to_move.inverse();
        self.en_passant_square = None;
        self.update_occupied();
        assert(self@.pos =~= promote_move(old(self)@.pos, *mv, piece, promotion));
    }

    /// The number of positions saved on the history stack.
    pub fn history_len(&self) -> (r: usize)
        ensures
            r == self@.history.len(),
    {
        self.history.len()
    }

    /// Whether `make_move` can play `mv` on this board: both squares on the
    /// board, a piece to move, a known kind of move, and a piece on every
    /// square that the move takes a piece from.
    pub fn move_is_ok(&self, mv: &Move) -> (r: bool)
        ensures
            r == move_ok(self@.pos, *mv),
    {
        if mv.from >= 64 || mv.to >= 64 {
            return false;
        }
        let piece = match self.get_piece(mv.from) {
            Some(p) => *p,
            None => return false,
        };
        let white = piece.color == Color::White;
        match mv.move_type {
            MoveType::Unknown => false,
            MoveType::Capture => self.get_piece(mv.to).is_some(),
            MoveType::CastleKingside => self.get_piece(if white { 7 } else { 63 }).is_some(),
            MoveType::CastleQueenside => self.get_piece(if white { 0 } else { 56 }).is_some(),
            MoveType::EnPassant => {
                if white {
                    mv.to >= 8 && self.get_piece(mv.to - 8).is_some()
                } else {
                    mv.to < 56 && self.get_piece(mv.to + 8).is_some()
                }
            },
            _ => true,
        }
    }

    /// Saves the position, then plays `mv`: moves the piece, takes what the
    /// move captures, moves the rook of a castling, promotes, updates the
    /// castling rights, the en-passant square, the side to move and the
    /// occupied squares.
    pub fn make_move(&mut self, mv: &Move)
        requires
            move_ok(old(self)@.pos, *mv),
        ensures
            final(self)@ == make_move_view(old(self)@, *mv),
            final(self).keys() == old(self).keys(),
    {
        let ghost v0 = self@;
        self.save_state();
        let moving_piece = *self.mailbox.get_piece(mv.from).unwrap();
        self.strip_rights(moving_piece, mv.from, mv.to);
        match mv.move_type {
            MoveType::Promotion(promotion) => {
                self.promote(mv, moving_piece, promotion);
            },
            _ => {
                self.make_side_effects(mv, moving_piece);
                self.finish(mv, moving_piece);
            },
        }
        assert(self@ =~= make_move_view(v0, *mv));
    }

    /// An enemy piece attacks `square`.
    pub fn is_attacked(&self, square: Square) -> (r: bool)
        requires
            square < 64,
            ep_ok(self@.pos),
        ensures
            r == attacked(self@.pos, square as int),
    {
        let enemy_color = self.color_to_move.inverse();
        let enemy_pawns = self.bitboards[PieceType::Pawn.index(&enemy_color)];
        let enemy_knights = self.bitboards[PieceType::Knight.index(&enemy_color)];
        let enemy_bishops = self.bitboards[PieceType::Bishop.index(&enemy_color)];
        let enemy_rooks = self.bitboards[PieceType::Rook.index(&enemy_color)];
        let enemy_queens = self.bitboards[PieceType::Queen.index(&enemy_color)];
        let enemy_king = self.bitboards[PieceType::King.index(&enemy_color)];
        (MoveGen::attacks(self, &PieceType::Pawn, &self.color_to_move, square) & enemy_pawns
            | MoveGen::attacks(self, &PieceType::Knight, &self.color_to_move, square)
            & enemy_knights | MoveGen::attacks(self, &PieceType::Bishop, &self.color_to_move, square)
            & enemy_bishops | MoveGen::attacks(self, &PieceType::Rook, &self.color_to_move, square)
            & enemy_rooks | MoveGen::attacks(self, &PieceType::Queen, &self.color_to_move, square)
            & enemy_queens | MoveGen::attacks(self, &PieceType::King, &self.color_to_move, square)
            & enemy_king) != 0
    }

    pub fn can_castle_kingside(&self) -> (r: bool)
        requires
            ep_ok(self@.pos),
        ensures
            r == can_castle_kingside_spec(self@.pos),
    {
        if ((self.color_to_move == Color::White) && !self.castling_rights.white_king_side) || ((
        self.color_to_move == Color::Black) && !self.castling_rights.black_king_side) {
            return false;
        }
        let squares: (u8, u8, u8) = if self.color_to_move == Color::White {
            (4, 5, 6)
        } else {
            (60, 61, 62)
        };
        if self.mailbox.get_piece(squares.1).is_some() || self.mailbox.get_piece(squares.2).is_some() {
            return false;
        }
        if self.is_attacked(squares.0) || self.is_attacked(squares.1) || self.is_attacked(squares.2) {
            return false;
        }
        true
    }

    pub fn can_castle_queenside(&self) -> (r: bool)
        requires
            ep_ok(self@.pos),
        ensures
            r == can_castle_queenside_spec(self@.pos),
    {
        if ((self.color_to_move == Color::White) && !self.castling_rights.white_queen_side) || ((
        self.color_to_move == Color::Black) && !self.castling_rights.black_queen_side) {
            return false;
        }
        let squares: (u8, u8, u8, u8) = if self.color_to_move == Color::White {
            (4, 3, 2, 1)
        } else {
            (60, 59, 58, 57)
        };
        if self.mailbox.get_piece(squares.1).is_some() || self.mailbox.get_piece(squares.2).is_some()
            || self.mailbox.get_piece(squares.3).is_some() {
            return false;
        }
        if self.is_attacked(squares.0) || self.is_attacked(squares.1) || self.is_attacked(squares.2) {
            return false;
        }
        true
    }

    /// After a move: whether the side that made it left its king attacked.
    /// When it did, the side to move stays switched to that side.
    pub fn was_illegal_move(&mut self) -> (r: bool)
        requires
            ep_ok(old(self)@.pos),
            has_king(old(self)@.pos, old(self)@.pos.color_to_move.inverse()),
        ensures
            r == illegal_spec(old(self)@.pos),
            final(self)@ == (BoardView {
                pos: if r {
                    flip(old(self)@.pos)
                } else {
                    old(self)@.pos
                },
                ..old(self)@
            }),
            final(self).keys() == old(self).keys(),
    {
        self.color_to_move = self.color_to_move.inverse();
        assert(self@.pos =~= flip(old(self)@.pos));
        proof {
            lemma_king_square(old(self)@.pos, old(self)@.pos.color_to_move.inverse());
        }
        if self.is_attacked(
            self.bitboards[PieceType::King.index(&self.color_to_move)].trailing_zeros() as u8,
        ) {
            return true;
        }
        self.color_to_move = self.color_to_move.inverse();
        assert(self@.pos =~= old(self)@.pos);
        false
    }

    /// The material balance from the point of view of the side to move.
    pub fn evaluate(&self) -> (r: i16)
        requires
            material(self@.pos.mailbox, Color::White, 64) <= i16::MAX,
            material(self@.pos.mailbox, Color::Black, 64) <= i16::MAX,
        ensures
            r == evaluation(self@.pos),
    {
        let ghost m = self@.pos.mailbox;
        let mut white_score: i16 = 0;
        let mut black_score: i16 = 0;
        let mut square: u8 = 0;
        while square < 64
            invariant
                m == self@.pos.mailbox,
                m.len() == 64,
                material(m, Color::White, 64) <= i16::MAX,
                material(m, Color::Black, 64) <= i16::MAX,
                square <= 64,
                white_score == material(m, Color::White, square as nat),
                black_score == material(m, Color::Black, square as nat),
            decreases 64 - square,
        {
            proof {
                lemma_material_mono(m, Color::White, (square + 1) as nat, 64);
                lemma_material_mono(m, Color::Black, (square + 1) as nat, 64);
            }
            match self.get_piece(square) {
                Some(piece) => {
                    let value = piece.piece_type.value();
                    if piece.color == Color::White {
                        white_score += value;
                    } else {
                        black_score += value;
                    }
                },
                None => {},
            }
            square += 1;
        }
        proof {
            lemma_material_mono(m, Color::White, 0, 64);
            lemma_material_mono(m, Color::Black, 0, 64);
        }
        if self.color_to_move == Color::White {
            return white_score - black_score;
        } else {
            return black_score - white_score;
        }
    }

    /// The Zobrist hash of the position: the keys of the pieces on their
    /// squares, of White to move, of each castling right held and of the
    /// file of the en-passant square, combined by exclusive or.
    pub fn get_zobrist_hash(&self) -> (r: u64)
        ensures
            r == zobrist_hash(self.keys(), self@.pos),
    {
        let ghost m = self@.pos.mailbox;
        let mut hash: u64 = 0;
        let mut square: u8 = 0;
        while square < 64
            invariant
                m == self@.pos.mailbox,
                m.len() == 64,
                square <= 64,
                hash == piece_hash(self.keys(), m, square as nat),
            decreases 64 - square,
        {
            match self.get_piece(square) {
                Some(piece) => {
                    let i = Zobrist::index(piece.color.index(), piece.piece_type.ord(), square);
                    hash ^= self.zobrist.pieces[i];
                },
                None => {},
            }
            square += 1;
        }
        if self.color_to_move == Color::White {
            hash ^= self.zobrist.side_to_move;
        }
        let castling_rights = &self.castling_rights;
        if castling_rights.white_king_side {
            hash ^= self.zobrist.castling_rights[0];
        }
        if castling_rights.white_queen_side {
            hash ^= self.zobrist.castling_rights[1];
        }
        if castling_rights.black_king_side {
            hash ^= self.zobrist.castling_rights[2];
        }
        if castling_rights.black_queen_side {
            hash ^= self.zobrist.castling_rights[3];
        }
        if let Some(ep_square) = self.en_passant_square {
            let file = ep_square % 8;
            hash ^= self.zobrist.en_passant_file[file as usize];
        }
        hash
    }

    /// The starting position of chess, White to move, every castling right
    /// held, no en-passant square, fresh random keys.
    pub fn startpos() -> (b: Self)
        ensures
            b@.pos == start_position(),
            b@.history == Seq::<Position>::empty(),
    {
        let mut bitboards: [Bitboard; 12] = [0; 12];
        bitboards[Piece::new(PieceType::Pawn, Color::White).index()] = 0xff00;
        bitboards[Piece::new(PieceType::Knight, Color::White).index()] = 0x42;
        bitboards[Piece::new(PieceType::Bishop, Color::White).index()] = 0x24;
        bitboards[Piece::new(PieceType::Rook, Color::White).index()] = 0x81;
        bitboards[Piece::new(PieceType::Queen, Color::White).index()] = 0x8;
        bitboards[Piece::new(PieceType::King, Color::White).index()] = 0x10;
        bitboards[Piece::new(PieceType::Pawn, Color::Black).index()] = 0xff000000000000;
        bitboards[Piece::new(PieceType::Knight, Color::Black).index()] = 0x4200000000000000;
        bitboards[Piece::new(PieceType::Bishop, Color::Black).index()] = 0x2400000000000000;
        bitboards[Piece::new(PieceType::Rook, Color::Black).index()] = 0x8100000000000000;
        bitboards[Piece::new(PieceType::Queen, Color::Black).index()] = 0x800000000000000;
        bitboards[Piece::new(PieceType::King, Color::Black).index()] = 0x1000000000000000;
        let b = Self::from_parts(
            bitboards,
            Mailbox::startpos(),
            Occupied { white: 0xffff, black: 0xffff000000000000, all: 0xffff00000000ffff },
            Color::White,
            None,
            CastlingRights::default(),
            Zobrist::new(),
        );
        assert(b@.pos.bitboards =~= start_position().bitboards);
        assert(b@.pos.mailbox =~= start_position().mailbox);
        b
    }
}

} // verus!
