//! Writing a position in FEN and reading it back gives the position back.

use vstd::prelude::*;
use crate::bits::{has_bit, lemma_or_bit, lemma_single_bit, lemma_zero_bits, lemma_bits_ext};
use crate::types::{Color, Piece, piece_char, char_piece, piece_index, piece_of_index, lemma_piece_index, lemma_index_piece};
use crate::position::{Position, wf, or_range, occupied_of, lemma_or_range_bits};
use crate::fen::{
    Placement, empty_placement, place_char, place_char_ok, placement, placement_ok, rank_text,
    placement_text, castle_text, fen_ok, fen_position, fen_text, law_castling_round_trip,
};
use crate::text::{decimal, digit_char, digit_value, is_digit};

verus! {

/// The walk over the characters `cs` from the state `st`.
pub open spec fn walk(st: Placement, cs: Seq<char>) -> Placement
    decreases cs.len(),
{
    if cs.len() == 0 {
        st
    } else {
        walk(place_char(st, cs[0]), cs.drop_first())
    }
}

/// Every character of `cs` can be read on the walk from `st`.
pub open spec fn walk_ok(st: Placement, cs: Seq<char>) -> bool
    decreases cs.len(),
{
    cs.len() == 0 || (place_char_ok(st, cs[0]) && walk_ok(place_char(st, cs[0]), cs.drop_first()))
}

proof fn lemma_walk_one(st: Placement, c: char)
    ensures
        walk(st, seq![c]) == place_char(st, c),
        walk_ok(st, seq![c]) == place_char_ok(st, c),
{
    let one = seq![c];
    assert(one[0] == c);
    assert(one.drop_first() =~= Seq::<char>::empty());
    assert(walk(place_char(st, c), Seq::<char>::empty()) == place_char(st, c));
    assert(walk_ok(place_char(st, c), Seq::<char>::empty()));
}

proof fn lemma_walk_push(st: Placement, a: Seq<char>, c: char)
    ensures
        walk(st, a.push(c)) == place_char(walk(st, a), c),
        walk_ok(st, a.push(c)) == (walk_ok(st, a) && place_char_ok(walk(st, a), c)),
    decreases a.len(),
{
    if a.len() > 0 {
        lemma_walk_push(place_char(st, a[0]), a.drop_first(), c);
        assert(a.push(c)[0] == a[0]);
        assert(a.push(c).drop_first() =~= a.drop_first().push(c));
    } else {
        assert(a.push(c) =~= seq![c]);
        lemma_walk_one(st, c);
    }
}

proof fn lemma_walk_concat(st: Placement, a: Seq<char>, b: Seq<char>)
    ensures
        walk(st, a + b) == walk(walk(st, a), b),
        walk_ok(st, a + b) == (walk_ok(st, a) && walk_ok(walk(st, a), b)),
    decreases a.len(),
{
    if a.len() > 0 {
        lemma_walk_concat(place_char(st, a[0]), a.drop_first(), b);
        assert((a + b).drop_first() =~= a.drop_first() + b);
    } else {
        assert(a + b =~= b);
    }
}

proof fn lemma_placement_is_walk(cs: Seq<char>, n: nat)
    requires
        n <= cs.len(),
    ensures
        placement(cs, n) == walk(empty_placement(), cs.take(n as int)),
        placement_ok(cs, n) == walk_ok(empty_placement(), cs.take(n as int)),
    decreases n,
{
    if n > 0 {
        lemma_placement_is_walk(cs, (n - 1) as nat);
        lemma_walk_push(empty_placement(), cs.take(n - 1), cs[n - 1]);
        assert(cs.take(n - 1).push(cs[n - 1]) =~= cs.take(n as int));
    } else {
        assert(cs.take(0) =~= Seq::<char>::empty());
    }
}

/// Square `s` has been walked over when the walk stands on file `file` of
/// rank `rank`: it lies on a higher rank, or on this rank before the file.
pub open spec fn walked(s: int, rank: int, file: int) -> bool {
    (rank * 8 <= s < rank * 8 + file) || s >= rank * 8 + 8
}

/// The square holds a piece of colour `c`.
pub open spec fn has_color(x: Option<Piece>, c: Color) -> bool {
    match x {
        Some(p) => p.color == c,
        None => false,
    }
}

/// The state holds exactly the pieces of `m` on the squares walked over.
pub open spec fn holds(st: Placement, m: Seq<Option<Piece>>, rank: int, file: int) -> bool {
    &&& st.bitboards.len() == 12
    &&& st.mailbox.len() == 64
    &&& forall|s: int| 0 <= s < 64 ==> #[trigger] st.mailbox[s] == if walked(s, rank, file) {
        m[s]
    } else {
        None
    }
    &&& forall|i: int, s: u64|
        0 <= i < 12 && s < 64 ==> (#[trigger] has_bit(st.bitboards[i], s) <==> (walked(
            s as int,
            rank,
            file,
        ) && m[s as int] == Some(piece_of_index(i))))
    &&& forall|s: u64|
        s < 64 ==> (#[trigger] has_bit(st.white, s) <==> (walked(s as int, rank, file) && has_color(
            m[s as int],
            Color::White,
        )))
    &&& forall|s: u64|
        s < 64 ==> (#[trigger] has_bit(st.black, s) <==> (walked(s as int, rank, file) && has_color(
            m[s as int],
            Color::Black,
        )))
}

/// Reading a piece's letter on an empty square of rank `rank` puts the
/// piece there and walks one file on.
proof fn lemma_place_piece(st: Placement, m: Seq<Option<Piece>>, rank: int, file: int, p: Piece)
    requires
        0 <= rank < 8,
        0 <= file < 8,
        m.len() == 64,
        m[rank * 8 + file] == Some(p),
        holds(st, m, rank, file),
        st.square == rank * 8 + file,
    ensures
        place_char_ok(st, piece_char(p)),
        holds(place_char(st, piece_char(p)), m, rank, file + 1),
        place_char(st, piece_char(p)).square == rank * 8 + file + 1,
{
    let c = piece_char(p);
    let sq = rank * 8 + file;
    assert(char_piece(c) == p);
    assert(!is_digit(c) && c != '/');
    let st2 = place_char(st, c);
    let bit = 1u64 << (sq as u64);
    lemma_piece_index(p);
    let idx = piece_index(p);
    assert forall|i: int, s: u64| 0 <= i < 12 && s < 64 implies (#[trigger] has_bit(st2.bitboards[i], s) <==> (
    walked(s as int, rank, file + 1) && m[s as int] == Some(piece_of_index(i)))) by {
        lemma_single_bit(sq as u64, s);
        if i == idx {
            lemma_or_bit(st.bitboards[i], bit, s);
        }
        lemma_index_piece(i);
    }
    assert forall|s: u64| s < 64 implies (#[trigger] has_bit(st2.white, s) <==> (walked(s as int, rank, file + 1)
        && has_color(m[s as int], Color::White))) by {
        lemma_single_bit(sq as u64, s);
        lemma_or_bit(st.white, bit, s);
    }
    assert forall|s: u64| s < 64 implies (#[trigger] has_bit(st2.black, s) <==> (walked(s as int, rank, file + 1)
        && has_color(m[s as int], Color::Black))) by {
        lemma_single_bit(sq as u64, s);
        lemma_or_bit(st.black, bit, s);
    }
}

/// The walk over the text of rank `rank` from file `file`, with `empty`
/// empty squares pending, ends at the start of the next rank up having put
/// down the pieces of the rest of the rank.
proof fn lemma_rank_walk(st: Placement, m: Seq<Option<Piece>>, rank: int, file: int, empty: int)
    requires
        0 <= rank < 8,
        0 <= empty <= file <= 8,
        m.len() == 64,
        forall|f: int| file - empty <= f < file ==> #[trigger] m[rank * 8 + f] is None,
        holds(st, m, rank, file),
        st.square == rank * 8 + file - empty,
    ensures
        walk_ok(st, rank_text(m, rank, file as nat, empty as nat)),
        holds(walk(st, rank_text(m, rank, file as nat, empty as nat)), m, rank, 8),
        walk(st, rank_text(m, rank, file as nat, empty as nat)).square == rank * 8 + 8,
    decreases 8 - file,
{
    let run = if empty > 0 {
        decimal(empty as nat)
    } else {
        Seq::<char>::empty()
    };
    let after_run = walk(st, run);
    if empty > 0 {
        assert(run == seq![digit_char(empty)]);
        assert(digit_value(digit_char(empty)) == empty);
        lemma_walk_one(st, digit_char(empty));
    } else {
        assert(after_run == st);
    }
    assert(after_run.square == rank * 8 + file);
    assert(holds(after_run, m, rank, file));
    if file >= 8 {
    } else {
        match m[rank * 8 + file] {
            Some(p) => {
                let c = piece_char(p);
                let rest = rank_text(m, rank, (file + 1) as nat, 0);
                assert(rank_text(m, rank, file as nat, empty as nat) == run + seq![c] + rest);
                lemma_place_piece(after_run, m, rank, file, p);
                let st2 = place_char(after_run, c);
                lemma_walk_one(after_run, c);
                lemma_rank_walk(st2, m, rank, file + 1, 0);
                lemma_walk_concat(st, run, seq![c]);
                lemma_walk_concat(st, run + seq![c], rest);
            },
            None => {
                assert(holds(st, m, rank, file + 1)) by {
                    assert forall|s: int| 0 <= s < 64 implies #[trigger] st.mailbox[s] == if walked(s, rank, file + 1) {
                        m[s]
                    } else {
                        None
                    } by {
                        if s == rank * 8 + file {
                            assert(!walked(s, rank, file));
                        }
                    }
                }
                lemma_rank_walk(st, m, rank, file + 1, empty + 1);
            },
        }
    }
}

proof fn lemma_holds_next_rank(st: Placement, m: Seq<Option<Piece>>, rank: int)
    requires
        holds(st, m, rank, 8),
    ensures
        holds(st, m, rank - 1, 0),
{
    assert forall|s: int| #[trigger] walked(s, rank, 8) == walked(s, rank - 1, 0) by {}
}

/// The walk over the top `k` ranks of the placement text.
proof fn lemma_placement_walk(m: Seq<Option<Piece>>, k: int)
    requires
        1 <= k <= 8,
        m.len() == 64,
    ensures
        walk_ok(empty_placement(), placement_text(m, k as nat)),
        holds(walk(empty_placement(), placement_text(m, k as nat)), m, 8 - k, 8),
        walk(empty_placement(), placement_text(m, k as nat)).square == (8 - k) * 8 + 8,
    decreases k,
{
    let e = empty_placement();
    if k == 1 {
        assert forall|i: int, s: u64| 0 <= i < 12 && s < 64 implies (#[trigger] has_bit(e.bitboards[i], s) <==> (
        walked(s as int, 7, 0) && m[s as int] == Some(piece_of_index(i)))) by {
            lemma_zero_bits(s);
        }
        assert forall|s: u64| s < 64 implies !has_bit(e.white, s) && !has_bit(e.black, s) by {
            lemma_zero_bits(s);
        }
        lemma_rank_walk(e, m, 7, 0, 0);
    } else {
        lemma_placement_walk(m, k - 1);
        let top = placement_text(m, (k - 1) as nat);
        let st = walk(e, top);
        lemma_holds_next_rank(st, m, 9 - k);
        let st2 = place_char(st, '/');
        assert(st2.square == (8 - k) * 8);
        assert(holds(st2, m, 8 - k, 0));
        lemma_walk_one(st, '/');
        let row = rank_text(m, 8 - k, 0, 0);
        lemma_rank_walk(st2, m, 8 - k, 0, 0);
        lemma_walk_concat(e, top, seq!['/']);
        lemma_walk_concat(e, top + seq!['/'], row);
    }
}

/// The four fields that `Board::to_fen` writes for a position without an
/// en-passant square: placement, side to move, castling rights, and `-`.
pub open spec fn fen_fields(p: Position) -> Seq<Seq<char>> {
    seq![
        placement_text(p.mailbox, 8),
        seq![if p.color_to_move == Color::White { 'w' } else { 'b' }],
        castle_text(p.castling_rights),
        seq!['-'],
    ]
}

/// Writing a well-formed position without an en-passant square in FEN and
/// reading the fields back gives the position back. The text written is the
/// four fields, each followed by a space.
pub proof fn law_fen_round_trip(p: Position)
    requires
        wf(p),
        p.en_passant_square is None,
    ensures
        fen_text(p) == fen_fields(p)[0] + seq![' '] + fen_fields(p)[1] + seq![' '] + fen_fields(p)[2]
            + seq![' '] + fen_fields(p)[3] + seq![' '],
        fen_ok(fen_fields(p)),
        fen_position(fen_fields(p)) == p,
{
    assert(fen_text(p) =~= fen_fields(p)[0] + seq![' '] + fen_fields(p)[1] + seq![' '] + fen_fields(p)[2]
        + seq![' '] + fen_fields(p)[3] + seq![' ']);
    let m = p.mailbox;
    let fields = fen_fields(p);
    let text = placement_text(m, 8);
    lemma_placement_walk(m, 8);
    lemma_placement_is_walk(text, text.len());
    assert(text.take(text.len() as int) =~= text);
    let pl = placement(text, text.len());
    assert(holds(pl, m, 0, 8));
    assert forall|s: int| 0 <= s < 64 implies #[trigger] walked(s, 0, 8) by {}
    assert(pl.mailbox =~= m);
    assert forall|i: int| 0 <= i < 12 implies #[trigger] pl.bitboards[i] == p.bitboards[i] by {
        assert forall|s: u64| s < 64 implies has_bit(pl.bitboards[i], s) == has_bit(p.bitboards[i], s) by {
            assert(walked(s as int, 0, 8));
        }
        lemma_bits_ext(pl.bitboards[i], p.bitboards[i]);
    }
    assert(pl.bitboards =~= p.bitboards);
    assert forall|s: u64| s < 64 implies has_bit(pl.white, s) == has_bit(or_range(p.bitboards, 0, 6), s) by {
        assert(walked(s as int, 0, 8));
        lemma_or_range_bits(p.bitboards, 0, 6, s);
        if let Some(q) = m[s as int] {
            lemma_piece_index(q);
            if q.color == Color::White {
                assert(has_bit(p.bitboards[piece_index(q)], s));
            }
        }
        if exists|i: int| 0 <= i < 6 && #[trigger] has_bit(p.bitboards[i], s) {
            let i = choose|i: int| 0 <= i < 6 && #[trigger] has_bit(p.bitboards[i], s);
            assert(m[s as int] == Some(piece_of_index(i)));
        }
    }
    lemma_bits_ext(pl.white, or_range(p.bitboards, 0, 6));
    assert forall|s: u64| s < 64 implies has_bit(pl.black, s) == has_bit(or_range(p.bitboards, 6, 12), s) by {
        assert(walked(s as int, 0, 8));
        lemma_or_range_bits(p.bitboards, 6, 12, s);
        if let Some(q) = m[s as int] {
            lemma_piece_index(q);
            if q.color == Color::Black {
                assert(has_bit(p.bitboards[piece_index(q)], s));
            }
        }
        if exists|i: int| 6 <= i < 12 && #[trigger] has_bit(p.bitboards[i], s) {
            let i = choose|i: int| 6 <= i < 12 && #[trigger] has_bit(p.bitboards[i], s);
            assert(m[s as int] == Some(piece_of_index(i)));
        }
    }
    lemma_bits_ext(pl.black, or_range(p.bitboards, 6, 12));
    law_castling_round_trip(p.castling_rights);
    assert(fields[0] == text);
    assert(fields[2] == castle_text(p.castling_rights));
    assert(fields[3] == seq!['-']);
    if p.color_to_move == Color::White {
        assert(fields[1] =~= seq!['w']);
    } else {
        assert(fields[1][0] != seq!['w'][0]);
    }
    assert(fen_position(fields).occupied == occupied_of(p.bitboards));
    assert(fen_position(fields) =~= p);
}

/// The number of squares that a rank field describes: one for each piece
/// letter, the value of each digit.
pub open spec fn rank_width(cs: Seq<char>) -> int
    decreases cs.len(),
{
    if cs.len() == 0 {
        0
    } else {
        (if is_digit(cs[0]) {
            digit_value(cs[0])
        } else {
            1
        }) + rank_width(cs.drop_first())
    }
}

/// No two digits stand side by side in `cs`.
pub open spec fn no_adjacent_digits(cs: Seq<char>) -> bool {
    forall|i: int| 0 <= i < cs.len() - 1 ==> !(is_digit(#[trigger] cs[i]) && is_digit(cs[i + 1]))
}

proof fn lemma_width_concat(a: Seq<char>, b: Seq<char>)
    ensures
        rank_width(a + b) == rank_width(a) + rank_width(b),
    decreases a.len(),
{
    if a.len() == 0 {
        assert(a + b =~= b);
    } else {
        lemma_width_concat(a.drop_first(), b);
        assert((a + b).drop_first() =~= a.drop_first() + b);
        assert((a + b)[0] == a[0]);
    }
}

proof fn lemma_no_adjacent_concat(a: Seq<char>, b: Seq<char>)
    requires
        no_adjacent_digits(a),
        no_adjacent_digits(b),
        a.len() > 0 && b.len() > 0 ==> !(is_digit(a.last()) && is_digit(b[0])),
    ensures
        no_adjacent_digits(a + b),
{
    let c = a + b;
    assert forall|i: int| 0 <= i < c.len() - 1 implies !(is_digit(#[trigger] c[i]) && is_digit(c[i + 1])) by {
        if i + 1 < a.len() {
            assert(c[i] == a[i] && c[i + 1] == a[i + 1]);
        } else if i >= a.len() {
            assert(c[i] == b[i - a.len()] && c[i + 1] == b[i - a.len() + 1]);
        } else {
            assert(c[i] == a.last() && c[i + 1] == b[0]);
        }
    }
}

proof fn lemma_run_text(empty: nat)
    requires
        1 <= empty <= 8,
    ensures
        decimal(empty) == seq![digit_char(empty as int)],
        is_digit(digit_char(empty as int)),
        rank_width(decimal(empty)) == empty,
        no_adjacent_digits(decimal(empty)),
{
    let c = digit_char(empty as int);
    assert(c as int == empty + 48);
    assert(seq![c].drop_first() =~= Seq::<char>::empty());
    assert(rank_width(Seq::<char>::empty()) == 0);
    assert(digit_value(c) == empty);
    assert(seq![c][0] == c);
}

proof fn lemma_piece_letter(p: Piece)
    ensures
        !is_digit(piece_char(p)),
        rank_width(seq![piece_char(p)]) == 1,
        no_adjacent_digits(seq![piece_char(p)]),
{
    assert(seq![piece_char(p)].drop_first() =~= Seq::<char>::empty());
    assert(rank_width(Seq::<char>::empty()) == 0);
    assert(seq![piece_char(p)][0] == piece_char(p));
}

proof fn lemma_rank_text_shape(m: Seq<Option<Piece>>, rank: int, file: nat, empty: nat)
    requires
        m.len() == 64,
        0 <= rank < 8,
        empty <= file <= 8,
    ensures
        rank_width(rank_text(m, rank, file, empty)) == 8 - file + empty,
        no_adjacent_digits(rank_text(m, rank, file, empty)),
        empty > 0 ==> rank_text(m, rank, file, empty).len() > 0 && is_digit(
            rank_text(m, rank, file, empty)[0],
        ),
    decreases 8 - file,
{
    let run = if empty > 0 {
        decimal(empty)
    } else {
        Seq::empty()
    };
    if empty > 0 {
        lemma_run_text(empty);
    } else {
        assert(rank_width(run) == 0);
    }
    if file < 8 {
        match m[rank * 8 + file] {
            Some(p) => {
                let rest = rank_text(m, rank, file + 1, 0);
                lemma_rank_text_shape(m, rank, file + 1, 0);
                lemma_piece_letter(p);
                let one = seq![piece_char(p)];
                lemma_width_concat(run, one);
                lemma_width_concat(run + one, rest);
                lemma_no_adjacent_concat(run, one);
                lemma_no_adjacent_concat(run + one, rest);
                assert((run + one).last() == piece_char(p));
                if empty > 0 {
                    assert((run + one + rest)[0] == run[0]);
                }
            },
            None => {
                lemma_rank_text_shape(m, rank, file + 1, empty + 1);
            },
        }
    }
}

/// Each rank field that writing FEN produces describes exactly eight
/// squares and never holds two digits side by side. The placement field is
/// the eight rank fields from the eighth rank down, joined by `/`.
pub proof fn law_rank_fields_well_formed(m: Seq<Option<Piece>>, rank: int)
    requires
        m.len() == 64,
        0 <= rank < 8,
    ensures
        rank_width(rank_text(m, rank, 0, 0)) == 8,
        no_adjacent_digits(rank_text(m, rank, 0, 0)),
{
    lemma_rank_text_shape(m, rank, 0, 0);
}

/// Writing any position without an en-passant square in FEN and reading the
/// fields back gives back the piece on every square, the side to move and
/// the castling rights, and no en-passant square.
pub proof fn law_fen_round_trip_pieces(p: Position)
    requires
        p.mailbox.len() == 64,
        p.en_passant_square is None,
    ensures
        fen_ok(fen_fields(p)),
        fen_position(fen_fields(p)).mailbox == p.mailbox,
        fen_position(fen_fields(p)).color_to_move == p.color_to_move,
        fen_position(fen_fields(p)).castling_rights == p.castling_rights,
        fen_position(fen_fields(p)).en_passant_square is None,
{
    let m = p.mailbox;
    let fields = fen_fields(p);
    let text = placement_text(m, 8);
    lemma_placement_walk(m, 8);
    lemma_placement_is_walk(text, text.len());
    assert(text.take(text.len() as int) =~= text);
    let pl = placement(text, text.len());
    assert(holds(pl, m, 0, 8));
    assert forall|s: int| 0 <= s < 64 implies #[trigger] walked(s, 0, 8) by {}
    assert(pl.mailbox =~= m);
    law_castling_round_trip(p.castling_rights);
    assert(fields[0] == text);
    assert(fields[2] == castle_text(p.castling_rights));
    assert(fields[3] == seq!['-']);
    if p.color_to_move == Color::White {
        assert(fields[1] =~= seq!['w']);
    } else {
        assert(fields[1][0] != seq!['w'][0]);
    }
}

/// The six fields of the FEN string of the starting position.
pub open spec fn start_fen_fields() -> Seq<Seq<char>> {
    seq![
        seq!['r', 'n', 'b', 'q', 'k', 'b', 'n', 'r', '/', 'p', 'p', 'p', 'p', 'p', 'p', 'p', 'p', '/', '8', '/', '8', '/', '8', '/', '8', '/', 'P', 'P', 'P', 'P', 'P', 'P', 'P', 'P', '/', 'R', 'N', 'B', 'Q', 'K', 'B', 'N', 'R'],
        seq!['w'],
        seq!['K', 'Q', 'k', 'q'],
        seq!['-'],
        seq!['0'],
        seq!['1'],
    ]
}

/// The FEN string of the starting position can be read, and it describes
/// the starting position: the board that `Board::from_fen` builds from it
/// holds the same pieces, bitboards and occupied squares as the one that
/// `Board::startpos` builds, White to move, every castling right, and no
/// en-passant square.
pub proof fn law_start_fen_reads_start_position()
    ensures
        fen_ok(start_fen_fields()),
        fen_position(start_fen_fields()) == crate::board::start_position(),
{
    let p = crate::board::start_position();
    crate::board::law_start_position_wf();
    law_fen_round_trip(p);
    let f = start_fen_fields();
    let g = fen_fields(p);
    let m = p.mailbox;
    assert(digit_char(8) == '8');
    assert(rank_text(m, 0, 0, 0) =~= seq!['R', 'N', 'B', 'Q', 'K', 'B', 'N', 'R']) by {
        reveal_with_fuel(rank_text, 10);
    }
    assert(rank_text(m, 1, 0, 0) =~= seq!['P', 'P', 'P', 'P', 'P', 'P', 'P', 'P']) by {
        reveal_with_fuel(rank_text, 10);
    }
    assert(rank_text(m, 2, 0, 0) =~= seq!['8']) by {
        reveal_with_fuel(rank_text, 10);
    }
    assert(rank_text(m, 3, 0, 0) =~= seq!['8']) by {
        reveal_with_fuel(rank_text, 10);
    }
    assert(rank_text(m, 4, 0, 0) =~= seq!['8']) by {
        reveal_with_fuel(rank_text, 10);
    }
    assert(rank_text(m, 5, 0, 0) =~= seq!['8']) by {
        reveal_with_fuel(rank_text, 10);
    }
    assert(rank_text(m, 6, 0, 0) =~= seq!['p', 'p', 'p', 'p', 'p', 'p', 'p', 'p']) by {
        reveal_with_fuel(rank_text, 10);
    }
    assert(rank_text(m, 7, 0, 0) =~= seq!['r', 'n', 'b', 'q', 'k', 'b', 'n', 'r']) by {
        reveal_with_fuel(rank_text, 10);
    }
    assert(placement_text(m, 8) =~= f[0]) by {
        reveal_with_fuel(placement_text, 9);
    }
    assert(castle_text(p.castling_rights) =~= f[2]);
    assert(g[0] == f[0]);
    assert(g[1] =~= f[1]);
    assert(g[2] == f[2]);
    assert(g[3] =~= f[3]);
}

} // verus!
