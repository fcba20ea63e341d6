//! Forsyth-Edwards notation: reading a board from the fields of a FEN string
//! and writing a board back, and the algebraic names of squares.

use vstd::prelude::*;
use crate::bits::Bitboard;
use crate::types::{
    Square, Color, Piece, PieceType, Move, MoveType, CastlingRights, Occupied, Mailbox, is_piece_char, char_piece,
    piece_char, piece_index, lemma_piece_index,
};
use crate::position::Position;
use crate::board::Board;
use crate::zobrist::Zobrist;
use crate::text::{push_char, push_decimal, str_is, decimal, is_digit, digit_value};

verus! {

/// A square's name: a file letter from `a` to `h`, then a rank digit from
/// `1` to `8`.
pub open spec fn is_square_name(s: Seq<char>) -> bool {
    &&& s.len() == 2
    &&& 'a' <= s[0] <= 'h'
    &&& '1' <= s[1] <= '8'
}

/// The square that a name stands for.
pub open spec fn square_of_name(s: Seq<char>) -> int {
    (s[1] as int - '1' as int) * 8 + (s[0] as int - 'a' as int)
}

/// The name of a square.
pub open spec fn square_name(sq: int) -> Seq<char> {
    seq![(sq % 8 + 'a' as int) as char, (sq / 8 + '1' as int) as char]
}

/// The algebraic names of squares.
pub trait SquareExt: Sized {
    /// The square is on the board.
    spec fn on_board(&self) -> bool;

    /// The square named by `s`, such as `e4`.
    fn from_algebraic(s: &str) -> Self
        requires
            is_square_name(s@),
    ;

    /// The name of the square, such as `e4`.
    fn to_algebraic(&self) -> String
        requires
            self.on_board(),
    ;
}

impl SquareExt for Square {
    open spec fn on_board(&self) -> bool {
        *self < 64
    }

    fn from_algebraic(s: &str) -> (r: Square)
        ensures
            r == square_of_name(s@),
            r < 64,
    {
        let file = s.get_char(0) as u32 - 'a' as u32;
        let rank = s.get_char(1) as u32 - '1' as u32;
        (rank * 8 + file) as u8
    }

    fn to_algebraic(&self) -> (r: String)
        ensures
            r@ == square_name(*self as int),
    {
        let mut name = String::new();
        let file = (*self % 8 + 97u8) as char;
        let rank = (*self / 8 + 49u8) as char;
        push_char(&mut name, file);
        push_char(&mut name, rank);
        assert(name@ =~= square_name(*self as int));
        name
    }
}

/// The promotion that the fifth character of a move in UCI notation asks
/// for, in either case.
pub open spec fn promotion_of(c: char) -> Option<PieceType> {
    if c == 'n' || c == 'N' {
        Some(PieceType::Knight)
    } else if c == 'b' || c == 'B' {
        Some(PieceType::Bishop)
    } else if c == 'r' || c == 'R' {
        Some(PieceType::Rook)
    } else if c == 'q' || c == 'Q' {
        Some(PieceType::Queen)
    } else {
        None
    }
}

/// A move in UCI notation: two square names, then nothing or a promotion
/// letter (anything after that is not read).
pub open spec fn uci_move_ok(s: Seq<char>) -> bool {
    &&& s.len() >= 4
    &&& is_square_name(s.subrange(0, 2))
    &&& is_square_name(s.subrange(2, 4))
    &&& s.len() > 4 ==> promotion_of(s[4]) is Some
}

/// The move that UCI notation stands for; its kind is `Unknown` unless it is
/// a promotion.
pub open spec fn uci_move(s: Seq<char>) -> Move {
    Move {
        from: square_of_name(s.subrange(0, 2)) as u8,
        to: square_of_name(s.subrange(2, 4)) as u8,
        move_type: if s.len() > 4 {
            MoveType::Promotion(promotion_of(s[4])->0)
        } else {
            MoveType::Unknown
        },
    }
}

/// The letter of a promotion piece in UCI notation.
pub open spec fn promotion_letter(pt: PieceType) -> char {
    match pt {
        PieceType::Knight => 'n',
        PieceType::Bishop => 'b',
        PieceType::Rook => 'r',
        _ => 'q',
    }
}

/// The UCI notation of a move: the names of its squares, then the letter of
/// the promotion piece, if any.
pub open spec fn uci_text(mv: Move) -> Seq<char> {
    square_name(mv.from as int) + square_name(mv.to as int) + match mv.move_type {
        MoveType::Promotion(pt) => seq![promotion_letter(pt)],
        _ => Seq::empty(),
    }
}

/// A move can be written in UCI notation: its squares are on the board and
/// it promotes, if at all, to a knight, bishop, rook or queen.
pub open spec fn uci_writable(mv: Move) -> bool {
    &&& mv.from < 64
    &&& mv.to < 64
    &&& mv.move_type matches MoveType::Promotion(pt) ==> pt != PieceType::Pawn && pt != PieceType::King
}

impl Move {
    /// The move written in UCI notation, such as `e2e4` or `e7e8q`.
    pub fn from_uci(uci: &str) -> (r: Move)
        requires
            uci_move_ok(uci@),
        ensures
            r == uci_move(uci@),
    {
        let from = Square::from_algebraic(uci.substring_char(0, 2));
        let to = Square::from_algebraic(uci.substring_char(2, 4));
        let move_type = if uci.unicode_len() > 4 {
            match uci.get_char(4) {
                'n' | 'N' => MoveType::Promotion(PieceType::Knight),
                'b' | 'B' => MoveType::Promotion(PieceType::Bishop),
                'r' | 'R' => MoveType::Promotion(PieceType::Rook),
                _ => MoveType::Promotion(PieceType::Queen),
            }
        } else {
            MoveType::Unknown
        };
        Self { from, to, move_type }
    }

    /// Whether `Move::from_uci` can read `uci`.
    pub fn is_valid_uci(uci: &str) -> (r: bool)
        ensures
            r == uci_move_ok(uci@),
    {
        let n = uci.unicode_len();
        if n < 4 {
            return false;
        }
        let from = uci.substring_char(0, 2);
        let to = uci.substring_char(2, 4);
        if !is_valid_square_name(from) || !is_valid_square_name(to) {
            return false;
        }
        if n > 4 {
            let c = uci.get_char(4);
            return c == 'n' || c == 'N' || c == 'b' || c == 'B' || c == 'r' || c == 'R' || c == 'q'
                || c == 'Q';
        }
        true
    }

    /// Whether the move can be written in UCI notation.
    pub fn can_write_uci(&self) -> (r: bool)
        ensures
            r == uci_writable(*self),
    {
        let promotion_ok = match self.move_type {
            MoveType::Promotion(pt) => pt != PieceType::Pawn && pt != PieceType::King,
            _ => true,
        };
        self.from < 64 && self.to < 64 && promotion_ok
    }

    /// The move in UCI notation.
    pub fn to_uci(&self) -> (r: String)
        requires
            uci_writable(*self),
        ensures
            r@ == uci_text(*self),
    {
        let mut uci = self.from.to_algebraic();
        let to = self.to.to_algebraic();
        uci.append(to.as_str());
        if let MoveType::Promotion(promotion) = self.move_type {
            let promo_char = match promotion {
                PieceType::Knight => 'n',
                PieceType::Bishop => 'b',
                PieceType::Rook => 'r',
                _ => 'q',
            };
            push_char(&mut uci, promo_char);
        }
        assert(uci@ =~= uci_text(*self));
        uci
    }
}

/// Whether `s` is the name of a square.
pub fn is_valid_square_name(s: &str) -> (r: bool)
    ensures
        r == is_square_name(s@),
{
    if s.unicode_len() != 2 {
        return false;
    }
    let file = s.get_char(0);
    let rank = s.get_char(1);
    'a' <= file && file <= 'h' && '1' <= rank && rank <= '8'
}

/// What the walk over the piece placement field has built so far: the
/// current square and the pieces put down.
#[verifier::ext_equal]
pub struct Placement {
    pub square: int,
    pub bitboards: Seq<u64>,
    pub mailbox: Seq<Option<Piece>>,
    pub white: u64,
    pub black: u64,
}

/// The walk starts on a8 with an empty board.
pub open spec fn empty_placement() -> Placement {
    Placement {
        square: 56,
        bitboards: Seq::new(12, |i: int| 0u64),
        mailbox: Seq::new(64, |i: int| None::<Piece>),
        white: 0,
        black: 0,
    }
}

/// One character of the placement field: `/` goes down to the start of the
/// next rank, a digit skips that many squares, a piece letter puts the piece
/// on the current square and moves on.
pub open spec fn place_char(st: Placement, c: char) -> Placement {
    if c == '/' {
        Placement { square: st.square - 16, ..st }
    } else if is_digit(c) {
        Placement { square: st.square + digit_value(c), ..st }
    } else {
        let piece = char_piece(c);
        let bit = 1u64 << (st.square as u64);
        let i = piece_index(piece);
        Placement {
            square: st.square + 1,
            bitboards: st.bitboards.update(i, st.bitboards[i] | bit),
            mailbox: st.mailbox.update(st.square, Some(piece)),
            white: if piece.color == Color::White {
                st.white | bit
            } else {
                st.white
            },
            black: if piece.color == Color::Black {
                st.black | bit
            } else {
                st.black
            },
        }
    }
}

/// The character `c` can be read at this point of the walk: the square stays
/// within a byte, and a piece is only put on a square of the board.
pub open spec fn place_char_ok(st: Placement, c: char) -> bool {
    if c == '/' {
        st.square >= 16
    } else if is_digit(c) {
        st.square + digit_value(c) <= 255
    } else {
        is_piece_char(c) && 0 <= st.square < 64
    }
}

/// The walk over the first `n` characters of the placement field.
pub open spec fn placement(cs: Seq<char>, n: nat) -> Placement
    decreases n,
{
    if n == 0 {
        empty_placement()
    } else {
        place_char(placement(cs, (n - 1) as nat), cs[n - 1])
    }
}

/// Every one of the first `n` characters of the placement field can be read.
pub open spec fn placement_ok(cs: Seq<char>, n: nat) -> bool
    decreases n,
{
    n == 0 || (placement_ok(cs, (n - 1) as nat) && place_char_ok(
        placement(cs, (n - 1) as nat),
        cs[n - 1],
    ))
}

/// The castling rights that a castling field grants: each of `K`, `Q`, `k`
/// and `q` that occurs in it; other characters are ignored.
pub open spec fn castling_of(cs: Seq<char>) -> CastlingRights {
    CastlingRights {
        white_king_side: cs.contains('K'),
        white_queen_side: cs.contains('Q'),
        black_king_side: cs.contains('k'),
        black_queen_side: cs.contains('q'),
    }
}

/// The characters of each field.
pub open spec fn field_views(fields: Seq<&str>) -> Seq<Seq<char>> {
    fields.map_values(|s: &str| s@)
}

/// The fields can be read: there are at least four, the placement field
/// can be walked, and the en-passant field is `-` or a square's name.
pub open spec fn fen_ok(fields: Seq<Seq<char>>) -> bool {
    &&& fields.len() >= 4
    &&& placement_ok(fields[0], fields[0].len())
    &&& (fields[3] == seq!['-'] || is_square_name(fields[3]))
}

/// The position that the fields describe. White is to move when the second
/// field is `w`, and Black otherwise.
pub open spec fn fen_position(fields: Seq<Seq<char>>) -> Position {
    let pl = placement(fields[0], fields[0].len());
    Position {
        bitboards: pl.bitboards,
        mailbox: pl.mailbox,
        occupied: Occupied { white: pl.white, black: pl.black, all: pl.white | pl.black },
        color_to_move: Color::from_bool(fields[1] == seq!['w']),
        en_passant_square: if fields[3] == seq!['-'] {
            None
        } else {
            Some(square_of_name(fields[3]) as u8)
        },
        castling_rights: castling_of(fields[2]),
    }
}

/// The text of one rank of the placement field from file `file` on, when
/// `empty` empty squares precede it: a piece's letter for each piece, the
/// number of each run of empty squares.
pub open spec fn rank_text(m: Seq<Option<Piece>>, rank: int, file: nat, empty: nat) -> Seq<char>
    decreases 8 - file,
{
    let run = if empty > 0 {
        decimal(empty)
    } else {
        Seq::empty()
    };
    if file >= 8 {
        run
    } else {
        match m[rank * 8 + file] {
            Some(p) => run + seq![piece_char(p)] + rank_text(m, rank, file + 1, 0),
            None => rank_text(m, rank, file + 1, empty + 1),
        }
    }
}

/// The top `k` ranks of the placement field, from the eighth rank down,
/// separated by `/`.
pub open spec fn placement_text(m: Seq<Option<Piece>>, k: nat) -> Seq<char>
    decreases k,
{
    if k == 0 {
        Seq::empty()
    } else if k == 1 {
        rank_text(m, 7, 0, 0)
    } else {
        placement_text(m, (k - 1) as nat) + seq!['/'] + rank_text(m, 8 - k, 0, 0)
    }
}

/// The castling field: the letters of the rights held, or `-` for none.
pub open spec fn castle_text(cr: CastlingRights) -> Seq<char> {
    let t = (if cr.white_king_side {
        seq!['K']
    } else {
        Seq::empty()
    }) + (if cr.white_queen_side {
        seq!['Q']
    } else {
        Seq::empty()
    }) + (if cr.black_king_side {
        seq!['k']
    } else {
        Seq::empty()
    }) + (if cr.black_queen_side {
        seq!['q']
    } else {
        Seq::empty()
    });
    if t.len() == 0 {
        seq!['-']
    } else {
        t
    }
}

/// The en-passant field as written, with a space after it: `-`, or a `0`
/// followed by the index of the square in decimal.
pub open spec fn ep_text(ep: Option<Square>) -> Seq<char> {
    match ep {
        Some(sq) => seq!['0'] + decimal(sq as nat) + seq![' '],
        None => seq!['-', ' '],
    }
}

/// The FEN text of a position: placement, side to move, castling rights and
/// en-passant field.
pub open spec fn fen_text(p: Position) -> Seq<char> {
    placement_text(p.mailbox, 8) + seq![
        ' ',
        if p.color_to_move == Color::White {
            'w'
        } else {
            'b'
        },
        ' ',
    ] + castle_text(p.castling_rights) + seq![' '] + ep_text(p.en_passant_square)
}

/// Reading the name of a square gives the square back.
pub proof fn law_square_name_round_trip(sq: int)
    requires
        0 <= sq < 64,
    ensures
        is_square_name(square_name(sq)),
        square_of_name(square_name(sq)) == sq,
{
    let n = square_name(sq);
    assert(n[0] as int == sq % 8 + 'a' as int);
    assert(n[1] as int == sq / 8 + '1' as int);
}

/// Reading a move written in UCI notation gives back its squares and its
/// promotion; any other kind of move comes back as `Unknown`.
pub proof fn law_uci_round_trip(mv: Move)
    requires
        uci_writable(mv),
    ensures
        uci_move_ok(uci_text(mv)),
        uci_move(uci_text(mv)) == (Move {
            from: mv.from,
            to: mv.to,
            move_type: match mv.move_type {
                MoveType::Promotion(pt) => MoveType::Promotion(pt),
                _ => MoveType::Unknown,
            },
        }),
{
    let t = uci_text(mv);
    law_square_name_round_trip(mv.from as int);
    law_square_name_round_trip(mv.to as int);
    assert(t.subrange(0, 2) =~= square_name(mv.from as int));
    assert(t.subrange(2, 4) =~= square_name(mv.to as int));
}

/// Writing the castling rights and reading them back gives them back.
pub proof fn law_castling_round_trip(cr: CastlingRights)
    ensures
        castling_of(castle_text(cr)) == cr,
{
    let t = castle_text(cr);
    if cr.white_king_side {
        assert(t[0] == 'K');
    }
    if cr.white_queen_side {
        assert(t.contains('Q')) by {
            let i = if cr.white_king_side { 1int } else { 0int };
            assert(t[i] == 'Q');
        }
    }
    if cr.black_king_side {
        assert(t.contains('k')) by {
            let i = (if cr.white_king_side { 1int } else { 0int }) + (if cr.white_queen_side { 1int } else { 0int });
            assert(t[i] == 'k');
        }
    }
    if cr.black_queen_side {
        assert(t.contains('q')) by {
            let i = (if cr.white_king_side { 1int } else { 0int }) + (if cr.white_queen_side { 1int } else { 0int })
                + (if cr.black_king_side { 1int } else { 0int });
            assert(t[i] == 'q');
        }
    }
}

proof fn lemma_contains_concat(a: Seq<char>, b: Seq<char>, x: char)
    ensures
        (a + b).contains(x) <==> (a.contains(x) || b.contains(x)),
{
    let c = a + b;
    if c.contains(x) {
        let j = choose|j: int| 0 <= j < c.len() && c[j] == x;
        if j < a.len() {
            assert(a[j] == x);
        } else {
            assert(b[j - a.len()] == x);
        }
    }
    if a.contains(x) {
        let j = choose|j: int| 0 <= j < a.len() && a[j] == x;
        assert(c[j] == x);
    }
    if b.contains(x) {
        let j = choose|j: int| 0 <= j < b.len() && b[j] == x;
        assert(c[j + a.len()] == x);
    }
}

proof fn lemma_contains_letter(on: bool, c: char, x: char)
    ensures
        (if on {
            seq![c]
        } else {
            Seq::<char>::empty()
        }).contains(x) <==> (on && c == x),
{
    if on {
        assert(seq![c][0] == c);
    }
}

/// The castling field written for `cr` names each right by its own letter:
/// `K` and `Q` for White's king and queen side, `k` and `q` for Black's; it
/// holds no other letter, and it is `-` exactly when no right is left.
pub proof fn law_castling_field_letters(cr: CastlingRights)
    ensures
        castle_text(cr).contains('K') == cr.white_king_side,
        castle_text(cr).contains('Q') == cr.white_queen_side,
        castle_text(cr).contains('k') == cr.black_king_side,
        castle_text(cr).contains('q') == cr.black_queen_side,
        (castle_text(cr) == seq!['-']) == !(cr.white_king_side || cr.white_queen_side
            || cr.black_king_side || cr.black_queen_side),
{
    let a = if cr.white_king_side { seq!['K'] } else { Seq::<char>::empty() };
    let b = if cr.white_queen_side { seq!['Q'] } else { Seq::<char>::empty() };
    let c = if cr.black_king_side { seq!['k'] } else { Seq::<char>::empty() };
    let d = if cr.black_queen_side { seq!['q'] } else { Seq::<char>::empty() };
    let t = a + b + c + d;
    assert forall|x: char| t.contains(x) <==> ((x == 'K' && cr.white_king_side) || (x == 'Q'
        && cr.white_queen_side) || (x == 'k' && cr.black_king_side) || (x == 'q' && cr.black_queen_side)) by {
        lemma_contains_concat(a + b + c, d, x);
        lemma_contains_concat(a + b, c, x);
        lemma_contains_concat(a, b, x);
        lemma_contains_letter(cr.white_king_side, 'K', x);
        lemma_contains_letter(cr.white_queen_side, 'Q', x);
        lemma_contains_letter(cr.black_king_side, 'k', x);
        lemma_contains_letter(cr.black_queen_side, 'q', x);
    }
    if t.len() == 0 {
        assert(seq!['-'][0] == '-');
        assert(!t.contains('K') && !t.contains('Q') && !t.contains('k') && !t.contains('q'));
    } else {
        assert(t[0] == 'K' || t[0] == 'Q' || t[0] == 'k' || t[0] == 'q') by {
            assert(t.contains(t[0]));
        }
        assert(castle_text(cr) == t);
        if t == seq!['-'] {
            assert(t[0] == '-');
        }
    }
}

/// Reading the castling field of FEN gives each right by its own letter:
/// White may castle king side exactly when the field holds `K`, queen side
/// when it holds `Q`, and Black likewise with `k` and `q`.
pub proof fn law_castling_field_read(fields: Seq<Seq<char>>)
    ensures
        fen_position(fields).castling_rights.white_king_side == fields[2].contains('K'),
        fen_position(fields).castling_rights.white_queen_side == fields[2].contains('Q'),
        fen_position(fields).castling_rights.black_king_side == fields[2].contains('k'),
        fen_position(fields).castling_rights.black_queen_side == fields[2].contains('q'),
{
}

/// The fifth letter of a move in UCI notation names its promotion piece:
/// `n` a knight, `b` a bishop, `r` a rook, `q` a queen, in either case.
pub proof fn law_uci_promotion_read(s: Seq<char>)
    requires
        uci_move_ok(s),
        s.len() > 4,
    ensures
        (s[4] == 'n' || s[4] == 'N') ==> uci_move(s).move_type == MoveType::Promotion(PieceType::Knight),
        (s[4] == 'b' || s[4] == 'B') ==> uci_move(s).move_type == MoveType::Promotion(PieceType::Bishop),
        (s[4] == 'r' || s[4] == 'R') ==> uci_move(s).move_type == MoveType::Promotion(PieceType::Rook),
        (s[4] == 'q' || s[4] == 'Q') ==> uci_move(s).move_type == MoveType::Promotion(PieceType::Queen),
        s[4] == 'n' || s[4] == 'N' || s[4] == 'b' || s[4] == 'B' || s[4] == 'r' || s[4] == 'R'
            || s[4] == 'q' || s[4] == 'Q',
{
}

/// A promotion is written in UCI notation with a fifth letter naming its
/// piece: `n` for a knight, `b` for a bishop, `r` for a rook, `q` for a
/// queen; any other move is written with its two squares only.
pub proof fn law_uci_promotion_written(mv: Move)
    ensures
        mv.move_type == MoveType::Promotion(PieceType::Knight) ==> uci_text(mv).len() == 5
            && uci_text(mv)[4] == 'n',
        mv.move_type == MoveType::Promotion(PieceType::Bishop) ==> uci_text(mv).len() == 5
            && uci_text(mv)[4] == 'b',
        mv.move_type == MoveType::Promotion(PieceType::Rook) ==> uci_text(mv).len() == 5
            && uci_text(mv)[4] == 'r',
        mv.move_type == MoveType::Promotion(PieceType::Queen) ==> uci_text(mv).len() == 5
            && uci_text(mv)[4] == 'q',
        !(mv.move_type is Promotion) ==> uci_text(mv).len() == 4,
{
    let head = square_name(mv.from as int) + square_name(mv.to as int);
    if let MoveType::Promotion(pt) = mv.move_type {
        assert(uci_text(mv) == head + seq![promotion_letter(pt)]);
        assert((head + seq![promotion_letter(pt)])[4] == promotion_letter(pt));
    } else {
        assert(uci_text(mv) =~= head);
    }
}

proof fn lemma_placement_ok_prefix(cs: Seq<char>, k: nat, n: nat)
    requires
        k <= n,
        placement_ok(cs, n),
    ensures
        placement_ok(cs, k),
    decreases n,
{
    if k < n {
        lemma_placement_ok_prefix(cs, k, (n - 1) as nat);
    }
}

proof fn lemma_contains_push(s: Seq<char>, c: char, x: char)
    ensures
        s.push(c).contains(x) <==> (s.contains(x) || c == x),
{
    if s.contains(x) {
        let j = choose|j: int| 0 <= j < s.len() && s[j] == x;
        assert(s.push(c)[j] == x);
    }
    if c == x {
        assert(s.push(c)[s.len() as int] == x);
    }
    if s.push(c).contains(x) {
        let j = choose|j: int| 0 <= j < s.push(c).len() && s.push(c)[j] == x;
        if j < s.len() {
            assert(s[j] == x);
        }
    }
}

/// The castling rights granted by the characters of `field`.
fn read_castling(field: &str) -> (r: CastlingRights)
    ensures
        r == castling_of(field@),
{
    let ghost cs = field@;
    let mut castling_rights = CastlingRights::default_but_false();
    let n = field.unicode_len();
    let mut i: usize = 0;
    assert(cs.take(0) =~= Seq::<char>::empty());
    while i < n
        invariant
            cs == field@,
            n == cs.len(),
            i <= n,
            castling_rights == castling_of(cs.take(i as int)),
        decreases n - i,
    {
        let c = field.get_char(i);
        assert(cs.take(i + 1) =~= cs.take(i as int).push(c));
        proof {
            lemma_contains_push(cs.take(i as int), c, 'K');
            lemma_contains_push(cs.take(i as int), c, 'Q');
            lemma_contains_push(cs.take(i as int), c, 'k');
            lemma_contains_push(cs.take(i as int), c, 'q');
        }
        match c {
            'K' => castling_rights.white_king_side = true,
            'Q' => castling_rights.white_queen_side = true,
            'k' => castling_rights.black_king_side = true,
            'q' => castling_rights.black_queen_side = true,
            _ => {},
        }
        i += 1;
    }
    assert(cs.take(n as int) =~= cs);
    castling_rights
}

/// Appends the text of rank `rank` of the board's placement field.
fn push_rank(result: &mut String, board: &Board, rank: u8)
    requires
        rank < 8,
    ensures
        final(result)@ == old(result)@ + rank_text(board@.pos.mailbox, rank as int, 0, 0),
{
    let ghost m = board@.pos.mailbox;
    let ghost base = result@;
    let mut empty_count: u8 = 0;
    let mut file: u8 = 0;
    while file < 8
        invariant
            m == board@.pos.mailbox,
            rank < 8,
            file <= 8,
            empty_count <= file,
            result@ + rank_text(m, rank as int, file as nat, empty_count as nat) == base
                + rank_text(m, rank as int, 0, 0),
        decreases 8 - file,
    {
        let ghost before = result@;
        match board.get_piece(rank * 8 + file) {
            Some(piece) => {
                if empty_count != 0 {
                    push_decimal(result, empty_count);
                }
                push_char(result, piece.to_char());
                assert(before + rank_text(m, rank as int, file as nat, empty_count as nat)
                    =~= result@ + rank_text(m, rank as int, (file + 1) as nat, 0));
                empty_count = 0;
            },
            None => empty_count += 1,
        }
        file += 1;
    }
    if empty_count != 0 {
        push_decimal(result, empty_count);
    }
    assert(result@ =~= base + rank_text(m, rank as int, 0, 0));
}

/// Appends the castling field.
fn push_castling(result: &mut String, castling_rights: &CastlingRights)
    ensures
        final(result)@ == old(result)@ + castle_text(*castling_rights),
{
    let mut any = false;
    if castling_rights.white_king_side {
        push_char(result, 'K');
        any = true;
    }
    if castling_rights.white_queen_side {
        push_char(result, 'Q');
        any = true;
    }
    if castling_rights.black_king_side {
        push_char(result, 'k');
        any = true;
    }
    if castling_rights.black_queen_side {
        push_char(result, 'q');
        any = true;
    }
    if !any {
        push_char(result, '-');
    }
    assert(result@ =~= old(result)@ + castle_text(*castling_rights));
}

/// Appends the en-passant field and the space after it.
fn push_en_passant(result: &mut String, ep: Option<Square>)
    ensures
        final(result)@ == old(result)@ + ep_text(ep),
{
    match ep {
        Some(square) => {
            push_char(result, '0');
            push_decimal(result, square);
            push_char(result, ' ');
        },
        None => {
            push_char(result, '-');
            push_char(result, ' ');
        },
    }
    assert(result@ =~= old(result)@ + ep_text(ep));
}

impl Board {
    /// The board that the fields of a FEN string describe (the half-move
    /// clock and the move number are not read), with an empty history and
    /// fresh random keys.
    pub fn from_fen(split_fen: Vec<&str>) -> (b: Self)
        requires
            fen_ok(field_views(split_fen@)),
        ensures
            b@.pos == fen_position(field_views(split_fen@)),
            b@.history == Seq::<Position>::empty(),
    {
        let ghost fields = field_views(split_fen@);
        assert(fields[0] == split_fen@[0]@);
        assert(fields[1] == split_fen@[1]@);
        assert(fields[2] == split_fen@[2]@);
        assert(fields[3] == split_fen@[3]@);
        let mut bitboards: [Bitboard; 12] = [0; 12];
        let mut mailbox = Mailbox::new();
        let mut occupied = Occupied::new();
        let mut square: Square = 56;
        let pieces = split_fen[0];
        let ghost cs = pieces@;
        let n = pieces.unicode_len();
        let mut i: usize = 0;
        assert(bitboards@ =~= empty_placement().bitboards);
        assert(mailbox@ =~= empty_placement().mailbox);
        while i < n
            invariant
                cs == pieces@,
                n == cs.len(),
                i <= n,
                placement_ok(cs, n as nat),
                placement(cs, i as nat) == (Placement {
                    square: square as int,
                    bitboards: bitboards@,
                    mailbox: mailbox@,
                    white: occupied.white,
                    black: occupied.black,
                }),
            decreases n - i,
        {
            let c = pieces.get_char(i);
            proof {
                lemma_placement_ok_prefix(cs, (i + 1) as nat, n as nat);
            }
            let ghost before = placement(cs, i as nat);
            if c == '/' {
                square -= 16;
            } else if '0' <= c && c <= '9' {
                square += (c as u32 - '0' as u32) as u8;
            } else {
                let piece = Piece::from_char(c);
                proof {
                    lemma_piece_index(piece);
                }
                let index = piece.index();
                bitboards[index] |= 1 << square;
                mailbox.set_piece(square, Some(piece));
                match piece.color {
                    Color::White => occupied.white |= 1 << square,
                    Color::Black => occupied.black |= 1 << square,
                }
                square += 1;
            }
            assert(placement(cs, (i + 1) as nat) =~= (Placement {
                square: square as int,
                bitboards: bitboards@,
                mailbox: mailbox@,
                white: occupied.white,
                black: occupied.black,
            }));
            i += 1;
        }
        occupied.all = occupied.white | occupied.black;
        proof {
            reveal_strlit("w");
            reveal_strlit("-");
            assert("w"@ =~= seq!['w']);
            assert("-"@ =~= seq!['-']);
        }
        let color_to_move = Color::from_bool(str_is(split_fen[1], "w"));
        let castling_rights = read_castling(split_fen[2]);
        let en_passant_square = if str_is(split_fen[3], "-") {
            None
        } else {
            Some(Square::from_algebraic(split_fen[3]))
        };
        let b = Self::from_parts(
            bitboards,
            mailbox,
            occupied,
            color_to_move,
            en_passant_square,
            castling_rights,
            Zobrist::new(),
        );
        assert(b@.pos =~= fen_position(fields));
        b
    }

    /// The FEN text of the board.
    pub fn to_fen(&self) -> (r: String)
        ensures
            r@ == fen_text(self@.pos),
    {
        let ghost m = self@.pos.mailbox;
        proof {
            self.lemma_lengths();
        }
        let mut result = String::new();
        let mut rank: u8 = 8;
        while rank > 0
            invariant
                m == self@.pos.mailbox,
                m.len() == 64,
                rank <= 8,
                result@ == placement_text(m, (8 - rank) as nat),
            decreases rank,
        {
            rank -= 1;
            let ghost before = result@;
            if rank < 7 {
                push_char(&mut result, '/');
            }
            push_rank(&mut result, self, rank);
            assert(result@ =~= placement_text(m, (8 - rank) as nat));
        }
        push_char(&mut result, ' ');
        push_char(&mut result, if *self.color_to_move() == Color::White { 'w' } else { 'b' });
        push_char(&mut result, ' ');
        push_castling(&mut result, self.get_castling_rights());
        push_char(&mut result, ' ');
        push_en_passant(&mut result, self.get_en_passant_square());
        assert(result@ =~= fen_text(self@.pos));
        result
    }

    /// Whether `Board::from_fen` can read these fields.
    pub fn is_valid_fen(split_fen: &Vec<&str>) -> (r: bool)
        ensures
            r == fen_ok(field_views(split_fen@)),
    {
        let ghost fields = field_views(split_fen@);
        if split_fen.len() < 4 {
            return false;
        }
        assert(fields[0] == split_fen@[0]@);
        assert(fields[3] == split_fen@[3]@);
        let pieces = split_fen[0];
        let ghost cs = pieces@;
        let n = pieces.unicode_len();
        let mut square: u16 = 56;
        let mut i: usize = 0;
        while i < n
            invariant
                cs == pieces@,
                n == cs.len(),
                i <= n,
                placement_ok(cs, i as nat),
                placement(cs, i as nat).square == square as int,
                square <= 255,
                fields == field_views(split_fen@),
                fields.len() >= 4,
                fields[0] == cs,
            decreases n - i,
        {
            let c = pieces.get_char(i);
            if c == '/' {
                if square < 16 {
                    proof {
                        if placement_ok(cs, n as nat) {
                            lemma_placement_ok_prefix(cs, (i + 1) as nat, n as nat);
                        }
                    }
                    return false;
                }
                square -= 16;
            } else if '0' <= c && c <= '9' {
                let d = (c as u32 - '0' as u32) as u16;
                if square + d > 255 {
                    proof {
                        if placement_ok(cs, n as nat) {
                            lemma_placement_ok_prefix(cs, (i + 1) as nat, n as nat);
                        }
                    }
                    return false;
                }
                square += d;
            } else {
                let is_piece = c == 'P' || c == 'p' || c == 'N' || c == 'n' || c == 'B' || c == 'b'
                    || c == 'R' || c == 'r' || c == 'Q' || c == 'q' || c == 'K' || c == 'k';
                if !is_piece || square >= 64 {
                    proof {
                        if placement_ok(cs, n as nat) {
                            lemma_placement_ok_prefix(cs, (i + 1) as nat, n as nat);
                        }
                    }
                    return false;
                }
                square += 1;
            }
            i += 1;
        }
        proof {
            reveal_strlit("-");
            assert("-"@ =~= seq!['-']);
        }
        if str_is(split_fen[3], "-") {
            return true;
        }
        is_valid_square_name(split_fen[3])
    }
}

} // verus!
