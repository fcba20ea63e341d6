//! Setting up a position as the `position` command describes it, playing a
//! move given in UCI notation and taking a move back.

use vstd::prelude::*;
use crate::types::MoveType;
use crate::types::Move;
use crate::board::{Board, BoardView, classify_move, make_move_view, revert_view, start_position};
use crate::position::{Position, move_ok};
use crate::fen::{uci_move_ok, uci_move, fen_ok, fen_position, field_views};
use crate::uci::string_views;

verus! {

/// The move written `s` in UCI notation, with its kind found on `p`.
pub open spec fn uci_move_on(p: Position, s: Seq<char>) -> Move {
    classify_move(p, uci_move(s))
}

/// Whether the move written `s` in UCI notation can be played on `p`: it
/// can be read, a piece stands on its first square where its kind has to be
/// found from the board, and the move of that kind can be made.
pub open spec fn uci_playable(p: Position, s: Seq<char>) -> bool {
    &&& uci_move_ok(s)
    &&& (uci_move(s).move_type == MoveType::Unknown ==> p.mailbox[uci_move(s).from as int] is Some)
    &&& move_ok(p, uci_move_on(p, s))
}

/// The board after the first `n` of the moves `moves` are played from `v`
/// one after the other, or `None` where one of them cannot be played.
pub open spec fn play_prefix(v: BoardView, moves: Seq<Seq<char>>, n: nat) -> Option<BoardView>
    decreases n,
{
    if n == 0 {
        Some(v)
    } else {
        match play_prefix(v, moves, (n - 1) as nat) {
            Some(w) => if uci_playable(w.pos, moves[n - 1]) {
                Some(make_move_view(w, uci_move_on(w.pos, moves[n - 1])))
            } else {
                None
            },
            None => None,
        }
    }
}

/// The board that a `position` command starts from: the position of the
/// FEN fields, or the starting position, with an empty history.
pub open spec fn position_start(fen: Option<Seq<Seq<char>>>) -> BoardView {
    BoardView {
        pos: match fen {
            Some(f) => fen_position(f),
            None => start_position(),
        },
        history: Seq::empty(),
    }
}

impl Board {
    /// Plays the move written `uci` in UCI notation, its kind found from the
    /// board. Where the move cannot be read or played, nothing changes and
    /// the answer is `false`.
    pub fn play_uci(&mut self, uci: &str) -> (r: bool)
        ensures
            r == uci_playable(old(self)@.pos, uci@),
            r ==> final(self)@ == make_move_view(old(self)@, uci_move_on(old(self)@.pos, uci@)),
            !r ==> final(self)@ == old(self)@,
            final(self).keys() == old(self).keys(),
    {
        if !Move::is_valid_uci(uci) {
            return false;
        }
        let mut mv = Move::from_uci(uci);
        if mv.move_type == MoveType::Unknown {
            proof {
                self.lemma_lengths();
            }
            if self.get_piece(mv.from).is_none() {
                return false;
            }
        }
        self.find_move_type(&mut mv);
        if !self.move_is_ok(&mv) {
            return false;
        }
        self.make_move(&mv);
        true
    }

    /// Takes the last move back. Where no move is left to take back,
    /// nothing changes and the answer is `false`.
    pub fn undo(&mut self) -> (r: bool)
        ensures
            r == (old(self)@.history.len() > 0),
            r ==> final(self)@ == revert_view(old(self)@),
            !r ==> final(self)@ == old(self)@,
            final(self).keys() == old(self).keys(),
    {
        if self.history_len() == 0 {
            return false;
        }
        self.revert_state();
        true
    }
}

/// The board that a `position` command sets up: the position of the FEN
/// fields (or the starting position when there are none), then each of
/// `moves` played in turn. `None` where the fields cannot be read or a move
/// cannot be played.
pub fn set_up_position(fen: Option<Vec<&str>>, moves: &Vec<String>) -> (r: Option<Board>)
    ensures
        (fen matches Some(f) && !fen_ok(field_views(f@))) ==> r is None,
        (fen matches Some(f) ==> fen_ok(field_views(f@))) ==> {
            let start = position_start(
                match fen {
                    Some(f) => Some(field_views(f@)),
                    None => None,
                },
            );
            let ms = string_views(moves@);
            &&& (r is Some <==> play_prefix(start, ms, ms.len()) is Some)
            &&& (r matches Some(b) ==> Some(b@) == play_prefix(start, ms, ms.len()))
        },
{
    let ghost fields = match &fen {
        Some(f) => Some(field_views(f@)),
        None => None,
    };
    let mut board = match fen {
        Some(f) => {
            if !Board::is_valid_fen(&f) {
                return None;
            }
            Board::from_fen(f)
        },
        None => Board::startpos(),
    };
    let ghost start = position_start(fields);
    let ghost ms = string_views(moves@);
    assert(board@ == start);
    let mut i: usize = 0;
    while i < moves.len()
        invariant
            start == position_start(fields),
            fields == (match fen {
                Some(f) => Some(field_views(f@)),
                None => None,
            }),
            ms == string_views(moves@),
            ms.len() == moves@.len(),
            i <= moves@.len(),
            play_prefix(start, ms, i as nat) == Some(board@),
        decreases moves@.len() - i,
    {
        assert(ms[i as int] == moves@[i as int]@);
        let ghost before = board@;
        let text = moves[i].as_str();
        assert(text@ == ms[i as int]);
        if !board.play_uci(text) {
            proof {
                assert(!uci_playable(before.pos, ms[i as int]));
                assert(play_prefix(start, ms, (i + 1) as nat) is None);
                lemma_play_prefix_stops(start, ms, (i + 1) as nat, ms.len());
            }
            return None;
        }
        i += 1;
    }
    Some(board)
}

/// Once a move cannot be played, no longer prefix of the moves can be.
proof fn lemma_play_prefix_stops(v: BoardView, ms: Seq<Seq<char>>, n: nat, m: nat)
    requires
        n <= m,
        play_prefix(v, ms, n) is None,
    ensures
        play_prefix(v, ms, m) is None,
    decreases m - n,
{
    if n < m {
        lemma_play_prefix_stops(v, ms, n + 1, m);
    }
}

} // verus!
