//! The small value types of the board: colours, pieces, castling rights,
//! moves, occupancy sets, the square-indexed mailbox and saved positions.

use vstd::prelude::*;
use crate::bits::Bitboard;

verus! {

/// A square index: 0 is a1, 7 is h1, 56 is a8, 63 is h8.
pub type Square = u8;

/// The number of kinds of piece.
pub const PIECETYPE_COUNT: usize = 6;

#[derive(Clone, Copy, Debug, PartialEq, Eq, Structural)]
pub enum Color {
    White,
    Black,
}

impl Color {
    #[verifier::allow_in_spec]
    pub fn inverse(&self) -> Self
        returns
            (match self {
                Color::White => Color::Black,
                Color::Black => Color::White,
            }),
    {
        match self {
            Color::White => Color::Black,
            Color::Black => Color::White,
        }
    }

    #[verifier::allow_in_spec]
    pub fn from_bool(b: bool) -> Self
        returns
            (if b {
                Color::White
            } else {
                Color::Black
            }),
    {
        match b {
            true => Color::White,
            false => Color::Black,
        }
    }

    #[verifier::allow_in_spec]
    pub fn is_white(&self) -> bool
        returns
            *self == Color::White,
    {
        match self {
            Color::White => true,
            Color::Black => false,
        }
    }

    #[verifier::allow_in_spec]
    pub fn index(&self) -> usize
        returns
            (match self {
                Color::White => 0usize,
                Color::Black => 1usize,
            }),
    {
        match self {
            Color::White => 0,
            Color::Black => 1,
        }
    }
}

#[derive(Clone, Copy, Debug, PartialEq, Eq, Structural)]
pub enum PieceType {
    Pawn,
    Knight,
    Bishop,
    Rook,
    Queen,
    King,
}

/// The position of a piece type in the order Pawn, Knight, Bishop, Rook, Queen, King.
pub open spec fn type_ord(pt: PieceType) -> usize {
    match pt {
        PieceType::Pawn => 0usize,
        PieceType::Knight => 1usize,
        PieceType::Bishop => 2usize,
        PieceType::Rook => 3usize,
        PieceType::Queen => 4usize,
        PieceType::King => 5usize,
    }
}

/// The piece type at a position of the order Pawn, Knight, Bishop, Rook, Queen, King.
pub open spec fn type_of_ord(i: int) -> PieceType {
    if i == 0 {
        PieceType::Pawn
    } else if i == 1 {
        PieceType::Knight
    } else if i == 2 {
        PieceType::Bishop
    } else if i == 3 {
        PieceType::Rook
    } else if i == 4 {
        PieceType::Queen
    } else {
        PieceType::King
    }
}

/// The material value of a piece type.
pub open spec fn type_value(pt: PieceType) -> i16 {
    match pt {
        PieceType::Pawn => 100i16,
        PieceType::Knight => 300i16,
        PieceType::Bishop => 300i16,
        PieceType::Rook => 500i16,
        PieceType::Queen => 900i16,
        PieceType::King => 10000i16,
    }
}

impl PieceType {
    /// The order number of this type, as the discriminant of the enum.
    #[verifier::allow_in_spec]
    pub fn ord(&self) -> usize
        returns
            type_ord(*self),
    {
        match self {
            PieceType::Pawn => 0,
            PieceType::Knight => 1,
            PieceType::Bishop => 2,
            PieceType::Rook => 3,
            PieceType::Queen => 4,
            PieceType::King => 5,
        }
    }

    /// The index of the bitboard of the pieces of this type and `color`.
    #[verifier::allow_in_spec]
    pub fn index(&self, color: &Color) -> usize
        returns
            (type_ord(*self) + PIECETYPE_COUNT * color.index()) as usize,
    {
        self.ord() + PIECETYPE_COUNT * color.index()
    }

    #[verifier::allow_in_spec]
    pub fn value(&self) -> i16
        returns
            type_value(*self),
    {
        match self {
            PieceType::Pawn => 100,
            PieceType::Knight => 300,
            PieceType::Bishop => 300,
            PieceType::Rook => 500,
            PieceType::Queen => 900,
            PieceType::King => 10000,
        }
    }
}

#[derive(Clone, Copy, Debug, PartialEq, Eq, Structural)]
pub struct Piece {
    pub piece_type: PieceType,
    pub color: Color,
}

/// The characters of FEN that stand for a piece.
pub open spec fn is_piece_char(c: char) -> bool {
    c == 'P' || c == 'p' || c == 'N' || c == 'n' || c == 'B' || c == 'b' || c == 'R' || c == 'r'
        || c == 'Q' || c == 'q' || c == 'K' || c == 'k'
}

/// The FEN letter of a piece type, in upper case.
pub open spec fn type_letter(pt: PieceType) -> char {
    match pt {
        PieceType::Pawn => 'P',
        PieceType::Knight => 'N',
        PieceType::Bishop => 'B',
        PieceType::Rook => 'R',
        PieceType::Queen => 'Q',
        PieceType::King => 'K',
    }
}

/// The FEN character of a piece: upper case for White, lower case for Black.
pub open spec fn piece_char(p: Piece) -> char {
    match p.color {
        Color::White => type_letter(p.piece_type),
        Color::Black => match p.piece_type {
            PieceType::Pawn => 'p',
            PieceType::Knight => 'n',
            PieceType::Bishop => 'b',
            PieceType::Rook => 'r',
            PieceType::Queen => 'q',
            PieceType::King => 'k',
        },
    }
}

/// The piece that a FEN character stands for.
pub open spec fn char_piece(c: char) -> Piece {
    let color = if c == 'P' || c == 'N' || c == 'B' || c == 'R' || c == 'Q' || c == 'K' {
        Color::White
    } else {
        Color::Black
    };
    let piece_type = if c == 'P' || c == 'p' {
        PieceType::Pawn
    } else if c == 'N' || c == 'n' {
        PieceType::Knight
    } else if c == 'B' || c == 'b' {
        PieceType::Bishop
    } else if c == 'R' || c == 'r' {
        PieceType::Rook
    } else if c == 'Q' || c == 'q' {
        PieceType::Queen
    } else {
        PieceType::King
    };
    Piece { piece_type, color }
}

/// The FEN letter of a piece names its type, `P`, `N`, `B`, `R`, `Q` or
/// `K`, in upper case for White and in lower case for Black; reading the
/// letter gives the piece back.
pub proof fn law_piece_letters(p: Piece)
    ensures
        char_piece(piece_char(p)) == p,
        piece_char(p) == match (p.color, p.piece_type) {
            (Color::White, PieceType::Pawn) => 'P',
            (Color::White, PieceType::Knight) => 'N',
            (Color::White, PieceType::Bishop) => 'B',
            (Color::White, PieceType::Rook) => 'R',
            (Color::White, PieceType::Queen) => 'Q',
            (Color::White, PieceType::King) => 'K',
            (Color::Black, PieceType::Pawn) => 'p',
            (Color::Black, PieceType::Knight) => 'n',
            (Color::Black, PieceType::Bishop) => 'b',
            (Color::Black, PieceType::Rook) => 'r',
            (Color::Black, PieceType::Queen) => 'q',
            (Color::Black, PieceType::King) => 'k',
        },
{
}

/// The index of the bitboard that holds the pieces like `p`.
pub open spec fn piece_index(p: Piece) -> int {
    type_ord(p.piece_type) + 6 * p.color.index()
}

/// The piece whose pieces the bitboard at index `i` holds.
pub open spec fn piece_of_index(i: int) -> Piece {
    Piece {
        piece_type: type_of_ord(i % 6),
        color: if i < 6 {
            Color::White
        } else {
            Color::Black
        },
    }
}

pub proof fn lemma_piece_index(p: Piece)
    ensures
        0 <= piece_index(p) < 12,
        piece_of_index(piece_index(p)) == p,
        forall|q: Piece| piece_index(q) == piece_index(p) ==> q == p,
{
}

pub proof fn lemma_index_piece(i: int)
    requires
        0 <= i < 12,
    ensures
        piece_index(piece_of_index(i)) == i,
{
}

impl Piece {
    #[verifier::allow_in_spec]
    pub fn new(piece_type: PieceType, color: Color) -> Self
        returns
            (Piece { piece_type, color }),
    {
        Self { piece_type, color }
    }

    pub fn from_char(c: char) -> (p: Self)
        requires
            is_piece_char(c),
        ensures
            p == char_piece(c),
            piece_char(p) == c,
    {
        match c {
            'P' => Piece { piece_type: PieceType::Pawn, color: Color::White },
            'p' => Piece { piece_type: PieceType::Pawn, color: Color::Black },
            'N' => Piece { piece_type: PieceType::Knight, color: Color::White },
            'n' => Piece { piece_type: PieceType::Knight, color: Color::Black },
            'B' => Piece { piece_type: PieceType::Bishop, color: Color::White },
            'b' => Piece { piece_type: PieceType::Bishop, color: Color::Black },
            'R' => Piece { piece_type: PieceType::Rook, color: Color::White },
            'r' => Piece { piece_type: PieceType::Rook, color: Color::Black },
            'Q' => Piece { piece_type: PieceType::Queen, color: Color::White },
            'q' => Piece { piece_type: PieceType::Queen, color: Color::Black },
            'K' => Piece { piece_type: PieceType::King, color: Color::White },
            _ => Piece { piece_type: PieceType::King, color: Color::Black },
        }
    }

    pub fn to_char(&self) -> (c: char)
        ensures
            c == piece_char(*self),
            is_piece_char(c),
            char_piece(c) == *self,
    {
        match (self.piece_type, &self.color) {
            (PieceType::Pawn, Color::White) => 'P',
            (PieceType::Pawn, Color::Black) => 'p',
            (PieceType::Knight, Color::White) => 'N',
            (PieceType::Knight, Color::Black) => 'n',
            (PieceType::Bishop, Color::White) => 'B',
            (PieceType::Bishop, Color::Black) => 'b',
            (PieceType::Rook, Color::White) => 'R',
            (PieceType::Rook, Color::Black) => 'r',
            (PieceType::Queen, Color::White) => 'Q',
            (PieceType::Queen, Color::Black) => 'q',
            (PieceType::King, Color::White) => 'K',
            (PieceType::King, Color::Black) => 'k',
        }
    }

    #[verifier::allow_in_spec]
    pub fn index(&self) -> usize
        returns
            piece_index(*self) as usize,
    {
        self.piece_type.ord() + PIECETYPE_COUNT * self.color.index()
    }
}

#[derive(Clone, Copy, Debug, PartialEq, Eq, Structural)]
pub struct CastlingRights {
    pub white_queen_side: bool,
    pub white_king_side: bool,
    pub black_queen_side: bool,
    pub black_king_side: bool,
}

impl CastlingRights {
    pub fn default() -> (r: Self)
        ensures
            r.white_queen_side && r.white_king_side && r.black_queen_side && r.black_king_side,
    {
        Self {
            white_queen_side: true,
            white_king_side: true,
            black_queen_side: true,
            black_king_side: true,
        }
    }

    pub fn default_but_false() -> (r: Self)
        ensures
            !r.white_queen_side && !r.white_king_side && !r.black_queen_side
                && !r.black_king_side,
    {
        Self {
            white_queen_side: false,
            white_king_side: false,
            black_queen_side: false,
            black_king_side: false,
        }
    }
}

#[derive(Clone, Copy, Debug, PartialEq, Eq, Structural)]
pub enum MoveType {
    Unknown,
    Quiet,
    Capture,
    EnPassant,
    CastleKingside,
    CastleQueenside,
    Promotion(PieceType),
}

#[derive(Clone, Copy, Debug, PartialEq, Eq, Structural)]
pub struct Move {
    pub from: Square,
    pub to: Square,
    pub move_type: MoveType,
}

impl Move {
    #[verifier::allow_in_spec]
    pub fn new(from: Square, to: Square, move_type: MoveType) -> Self
        returns
            (Move { from, to, move_type }),
    {
        Self { from, to, move_type }
    }
}

#[derive(Clone, Copy, Debug, PartialEq, Eq, Structural)]
pub struct Occupied {
    pub white: Bitboard,
    pub black: Bitboard,
    pub all: Bitboard,
}

impl Occupied {
    pub fn new() -> (r: Self)
        ensures
            r.white == 0 && r.black == 0 && r.all == 0,
    {
        Self { white: 0, black: 0, all: 0 }
    }

    #[verifier::allow_in_spec]
    pub fn enemy(&self, color: &Color) -> Bitboard
        returns
            (match color {
                Color::White => self.black,
                Color::Black => self.white,
            }),
    {
        match color {
            Color::White => self.black,
            Color::Black => self.white,
        }
    }
}

/// The piece on each of the 64 squares, if any.
#[derive(Clone, Copy)]
pub struct Mailbox(pub [Option<Piece>; 64]);

impl View for Mailbox {
    type V = Seq<Option<Piece>>;

    open spec fn view(&self) -> Seq<Option<Piece>> {
        self.0@
    }
}

/// The pieces of the starting position: white pieces on ranks 1 and 2,
/// black pieces on ranks 7 and 8.
pub open spec fn start_piece(s: int) -> Option<Piece> {
    let back = if s % 8 == 0 || s % 8 == 7 {
        PieceType::Rook
    } else if s % 8 == 1 || s % 8 == 6 {
        PieceType::Knight
    } else if s % 8 == 2 || s % 8 == 5 {
        PieceType::Bishop
    } else if s % 8 == 3 {
        PieceType::Queen
    } else {
        PieceType::King
    };
    if s < 8 {
        Some(Piece { piece_type: back, color: Color::White })
    } else if s < 16 {
        Some(Piece { piece_type: PieceType::Pawn, color: Color::White })
    } else if s < 48 {
        None
    } else if s < 56 {
        Some(Piece { piece_type: PieceType::Pawn, color: Color::Black })
    } else {
        Some(Piece { piece_type: back, color: Color::Black })
    }
}

impl Mailbox {
    pub fn new() -> (r: Self)
        ensures
            r@.len() == 64,
            forall|s: int| 0 <= s < 64 ==> r@[s] is None,
    {
        Self([None; 64])
    }

    pub fn startpos() -> (r: Self)
        ensures
            r@.len() == 64,
            forall|s: int| 0 <= s < 64 ==> r@[s] == start_piece(s),
    {
        let mut squares: [Option<Piece>; 64] = [None; 64];
        let back: [PieceType; 8] = [
            PieceType::Rook,
            PieceType::Knight,
            PieceType::Bishop,
            PieceType::Queen,
            PieceType::King,
            PieceType::Bishop,
            PieceType::Knight,
            PieceType::Rook,
        ];
        let mut file: usize = 0;
        while file < 8
            invariant
                file <= 8,
                back@ == seq![
                    PieceType::Rook,
                    PieceType::Knight,
                    PieceType::Bishop,
                    PieceType::Queen,
                    PieceType::King,
                    PieceType::Bishop,
                    PieceType::Knight,
                    PieceType::Rook,
                ],
                forall|s: int|
                    0 <= s < 64 ==> #[trigger] squares@[s] == if s % 8 < file {
                        start_piece(s)
                    } else {
                        None
                    },
            decreases 8 - file,
        {
            squares[file] = Some(Piece { piece_type: back[file], color: Color::White });
            squares[file + 8] = Some(Piece { piece_type: PieceType::Pawn, color: Color::White });
            squares[file + 48] = Some(Piece { piece_type: PieceType::Pawn, color: Color::Black });
            squares[file + 56] = Some(Piece { piece_type: back[file], color: Color::Black });
            file += 1;
        }
        Self(squares)
    }

    pub fn get_piece(&self, square: Square) -> (r: Option<&Piece>)
        requires
            square < 64,
        ensures
            match r {
                Some(p) => self@[square as int] == Some(*p),
                None => self@[square as int] is None,
            },
    {
        self.0[square as usize].as_ref()
    }

    pub fn set_piece(&mut self, square: Square, piece: Option<Piece>)
        requires
            square < 64,
        ensures
            final(self)@ == old(self)@.update(square as int, piece),
    {
        self.0[square as usize] = piece;
    }
}

/// A saved position: everything that `Board::revert_state` brings back.
#[derive(Clone, Copy)]
pub struct HistoryState {
    pub bitboards: [Bitboard; 12],
    pub mailbox: Mailbox,
    pub occupied: Occupied,
    pub color_to_move: Color,
    pub en_passant_square: Option<Square>,
    pub castling_rights: CastlingRights,
}

} // verus!
