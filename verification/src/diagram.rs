//! Text diagrams of boards and bitboards: eight rows from the eighth rank
//! down, framed, with the files named below.

use vstd::prelude::*;
use crate::bits::{Bitboard, has_bit};
use crate::board::Board;
use crate::types::piece_char;
use crate::text::{push_char, digit_char};
use crate::uci::string_views;

verus! {

/// The frame above and below the rows.
pub open spec fn frame() -> Seq<char> {
    "  +-----------------+"@
}

/// The line that names the files.
pub open spec fn file_names() -> Seq<char> {
    "    a b c d e f g h"@
}

/// The first `n` cells of rank `rank`, each followed by a space.
pub open spec fn row_cells(cells: Seq<char>, rank: int, n: nat) -> Seq<char>
    decreases n,
{
    if n == 0 {
        Seq::empty()
    } else {
        row_cells(cells, rank, (n - 1) as nat) + seq![cells[rank * 8 + n - 1], ' ']
    }
}

/// The row of rank `rank`: its number, a bar, its eight cells, a bar.
pub open spec fn diagram_row(cells: Seq<char>, rank: int) -> Seq<char> {
    seq![digit_char(rank + 1), ' ', '|', ' '] + row_cells(cells, rank, 8) + seq!['|']
}

/// The diagram of the 64 cells, given square by square from a1.
pub open spec fn diagram_text(cells: Seq<char>) -> Seq<Seq<char>> {
    seq![frame()] + Seq::new(8, |i: int| diagram_row(cells, 7 - i)) + seq![frame(), file_names()]
}

/// The cells of a bitboard: `X` on its squares, `.` elsewhere.
pub open spec fn bitboard_cells(bb: u64) -> Seq<char> {
    Seq::new(64, |s: int| if has_bit(bb, s as u64) { 'X' } else { '.' })
}

/// The cells of a mailbox: a piece's letter, or `.` for an empty square.
pub open spec fn mailbox_cells(m: Seq<Option<crate::types::Piece>>) -> Seq<char> {
    Seq::new(
        64,
        |s: int|
            match m[s] {
                Some(p) => piece_char(p),
                None => '.',
            },
    )
}

/// The diagram of the cells `cells`.
fn diagram_of(cells: &[char; 64]) -> (r: Vec<String>)
    ensures
        string_views(r@) == diagram_text(cells@),
{
    let mut lines: Vec<String> = Vec::new();
    lines.push(String::from_str("  +-----------------+"));
    let mut rank: u8 = 8;
    while rank > 0
        invariant
            rank <= 8,
            string_views(lines@) == seq![frame()] + Seq::new(
                (8 - rank) as nat,
                |i: int| diagram_row(cells@, 7 - i),
            ),
        decreases rank,
    {
        rank -= 1;
        let mut row = String::new();
        push_char(&mut row, (rank + 49) as char);
        push_char(&mut row, ' ');
        push_char(&mut row, '|');
        push_char(&mut row, ' ');
        let ghost head = row@;
        let mut file: u8 = 0;
        while file < 8
            invariant
                rank < 8,
                file <= 8,
                row@ == head + row_cells(cells@, rank as int, file as nat),
            decreases 8 - file,
        {
            push_char(&mut row, cells[(rank * 8 + file) as usize]);
            push_char(&mut row, ' ');
            assert(row@ =~= head + row_cells(cells@, rank as int, (file + 1) as nat));
            file += 1;
        }
        push_char(&mut row, '|');
        assert(row@ =~= diagram_row(cells@, rank as int));
        let ghost before = lines@;
        lines.push(row);
        assert(string_views(lines@) =~= seq![frame()] + Seq::new(
            (8 - rank) as nat,
            |i: int| diagram_row(cells@, 7 - i),
        )) by {
            assert(string_views(lines@) =~= string_views(before).push(diagram_row(cells@, rank as int)));
        }
    }
    let ghost before = lines@;
    lines.push(String::from_str("  +-----------------+"));
    lines.push(String::from_str("    a b c d e f g h"));
    assert(string_views(lines@) =~= diagram_text(cells@)) by {
        assert(string_views(lines@) =~= string_views(before).push(frame()).push(file_names()));
    }
    lines
}

/// Diagrams of bitboards.
pub trait BitboardExt: Sized {
    /// The lines of the diagram.
    spec fn diagram_spec(&self) -> Seq<Seq<char>>;

    /// The diagram of the bitboard, line by line: `X` on its squares.
    fn diagram(&self) -> (r: Vec<String>)
        ensures
            string_views(r@) == self.diagram_spec(),
    ;
}

impl BitboardExt for Bitboard {
    open spec fn diagram_spec(&self) -> Seq<Seq<char>> {
        diagram_text(bitboard_cells(*self))
    }

    fn diagram(&self) -> (r: Vec<String>) {
        let mut cells: [char; 64] = ['.'; 64];
        let mut s: u64 = 0;
        while s < 64
            invariant
                s <= 64,
                forall|t: int| 0 <= t < s ==> cells@[t] == bitboard_cells(*self)[t],
            decreases 64 - s,
        {
            if (*self >> s) & 1 == 1 {
                cells[s as usize] = 'X';
            } else {
                cells[s as usize] = '.';
            }
            s += 1;
        }
        assert(cells@ =~= bitboard_cells(*self));
        diagram_of(&cells)
    }
}

impl Board {
    /// The diagram of the board, line by line: each piece's letter, upper
    /// case for White, on its square.
    pub fn diagram(&self) -> (r: Vec<String>)
        ensures
            string_views(r@) == diagram_text(mailbox_cells(self@.pos.mailbox)),
    {
        let ghost m = self@.pos.mailbox;
        let mut cells: [char; 64] = ['.'; 64];
        let mut s: u8 = 0;
        while s < 64
            invariant
                m == self@.pos.mailbox,
                s <= 64,
                forall|t: int| 0 <= t < s ==> cells@[t] == mailbox_cells(m)[t],
            decreases 64 - s,
        {
            match self.get_piece(s) {
                Some(piece) => cells[s as usize] = piece.to_char(),
                None => cells[s as usize] = '.',
            }
            s += 1;
        }
        assert(cells@ =~= mailbox_cells(m));
        diagram_of(&cells)
    }
}

} // verus!
