//! One step of a UCI session: a parsed command is carried out on the board
//! and the transposition table, and the reply says what is to be printed.

use vstd::prelude::*;
use crate::bits::Bitboard;
use crate::types::{Move, Square, Color, Occupied, CastlingRights};
use crate::board::{Board, BoardView, make_move_view, revert_view};
use crate::zobrist::Zobrist;
use crate::movegen::{MoveGen, ep_ok, attacks_spec, moves_spec};
use crate::position::Position;
use crate::fen::{SquareExt, is_valid_square_name, is_square_name, square_of_name, square_name, fen_ok, fen_position, fen_text, field_views};
use crate::text::str_is;
use crate::tree::{safe_tree, perft_count, legal_moves};
use crate::debug::plies;
use crate::search::{Search, search_ok, root_search};
use crate::transposition_table::{TranspositionTable, TTEntry, scores_ok};
use crate::uci::{UciCommand, DebugCommand, CommandView, DebugView};
use crate::play::{set_up_position, play_prefix, position_start, uci_playable, uci_move_on};

verus! {

/// The depth of the search that answers `go`.
pub const SEARCH_DEPTH: u8 = 5;

/// What a command asks to be printed, or that it cannot be carried out.
pub enum Reply {
    /// The engine's name and author, then `uciok`.
    Identify,
    /// `readyok`.
    Ready,
    /// Nothing to print.
    Done,
    /// `bestmove` and the move.
    BestMove(Move),
    /// Stop reading commands.
    Quit,
    /// One line of text.
    Text(String),
    /// The diagram of the board.
    ShowBoard,
    /// The black, white and all occupied squares, each as a diagram.
    ShowOccupied(Occupied),
    /// One bitboard as a diagram.
    ShowBitboard(Bitboard),
    /// The name of the en-passant square, or that there is none.
    EnPassant(Option<String>),
    /// The castling rights.
    ShowCastlingRights(CastlingRights),
    /// The castling rights, the side to move and the en-passant square.
    AllStats(CastlingRights, Color, Option<Square>),
    /// A timed perft of the depth; on one line when the flag is set.
    TimedPerft(i32, bool),
    /// The total of a divide and the count below each legal move.
    Divided(u64, Vec<(Move, u64)>),
    /// A debug command that is not known.
    UnknownDebug(String),
    /// A command that is not known.
    Unknown(String),
    /// The command cannot be carried out on this board and table.
    Refused,
}

/// The six fields of the FEN string of the kiwipete position.
pub open spec fn kiwipete_fields() -> Seq<Seq<char>> {
    seq![
        "r3k2r/p1ppqpb1/bn2pnp1/3PN3/1p2P3/2N2Q1p/PPPBBPPP/R3K2R"@,
        "w"@,
        "KQkq"@,
        "-"@,
        "0"@,
        "1"@,
    ]
}

/// Board, keys and table are as they were.
pub open spec fn kept(
    v0: BoardView,
    z0: Zobrist,
    t0: Seq<Option<TTEntry>>,
    v1: BoardView,
    z1: Zobrist,
    t1: Seq<Option<TTEntry>>,
) -> bool {
    v1 == v0 && z1 == z0 && t1 == t0
}

/// What a debug command does to the board (`v0`, keys `z0`) and the table
/// (`t0`): the reply `r` and the board and table afterwards.
pub open spec fn debug_step(
    d: DebugView,
    v0: BoardView,
    z0: Zobrist,
    t0: Seq<Option<TTEntry>>,
    r: Reply,
    v1: BoardView,
    z1: Zobrist,
    t1: Seq<Option<TTEntry>>,
) -> bool {
    let p = v0.pos;
    let same = kept(v0, z0, t0, v1, z1, t1);
    match d {
        DebugView::Move(s) => if uci_playable(p, s) {
            r is Done && v1 == make_move_view(v0, uci_move_on(p, s)) && z1 == z0 && t1 == t0
        } else {
            r is Refused && same
        },
        DebugView::Undo => if v0.history.len() > 0 {
            r is Done && v1 == revert_view(v0) && z1 == z0 && t1 == t0
        } else {
            r is Refused && same
        },
        DebugView::Fen => same && (r matches Reply::Text(t) && t@ == fen_text(p)),
        DebugView::Print => same && r is ShowBoard,
        DebugView::PrintOccupied => same && r == Reply::ShowOccupied(p.occupied),
        DebugView::PrintAttacks(s) => same && if !is_square_name(s) {
            r is Refused
        } else {
            match p.mailbox[square_of_name(s)] {
                None => r is Done,
                Some(pc) => if ep_ok(p) {
                    r == Reply::ShowBitboard(attacks_spec(p, pc.piece_type, pc.color, square_of_name(s)))
                } else {
                    r is Refused
                },
            }
        },
        DebugView::PrintMoves(s) => same && if !is_square_name(s) {
            r is Refused
        } else {
            match p.mailbox[square_of_name(s)] {
                None => r is Done,
                Some(pc) => r == Reply::ShowBitboard(
                    moves_spec(p, pc.piece_type, pc.color, square_of_name(s)),
                ),
            }
        },
        DebugView::Position(s) => if s == "kiwipete"@ {
            if fen_ok(kiwipete_fields()) {
                r is Done && v1 == (BoardView {
                    pos: fen_position(kiwipete_fields()),
                    history: Seq::empty(),
                }) && t1 == t0
            } else {
                r is Refused && same
            }
        } else {
            r is Done && same
        },
        DebugView::EnPassant => same && match p.en_passant_square {
            None => r == Reply::EnPassant(None),
            Some(e) => if e < 64 {
                r matches Reply::EnPassant(Some(t)) && t@ == square_name(e as int)
            } else {
                r is Refused
            },
        },
        DebugView::CastlingRights => same && r == Reply::ShowCastlingRights(p.castling_rights),
        DebugView::AllStats => same && r == Reply::AllStats(
            p.castling_rights,
            p.color_to_move,
            p.en_passant_square,
        ),
        DebugView::Perft(n) => same && r == Reply::TimedPerft(n, false),
        DebugView::PerftSingleLine(n) => same && r == Reply::TimedPerft(n, true),
        DebugView::Divide(n) => same && if n > i32::MIN && safe_tree(p, 1 + plies(n - 1))
            && perft_count(p, 1 + plies(n - 1)) <= u64::MAX {
            r matches Reply::Divided(total, per_move) && {
                &&& total == perft_count(p, 1 + plies(n - 1))
                &&& per_move@.map_values(|e: (Move, u64)| e.0) == legal_moves(p)
                &&& forall|k: int|
                    0 <= k < per_move@.len() ==> #[trigger] per_move@[k].1 == perft_count(
                        crate::position::apply_move(p, per_move@[k].0),
                        plies(n - 1),
                    )
            }
        } else {
            r is Refused
        },
        DebugView::Unknown(s) => same && (r matches Reply::UnknownDebug(t) && t@ == s),
    }
}

/// What a command does to the board (`v0`, keys `z0`) and the table
/// (`t0`): the reply `r` and the board and table afterwards. The keys of a
/// board set up anew are drawn at random and are left open.
pub open spec fn command_step(
    c: CommandView,
    v0: BoardView,
    z0: Zobrist,
    t0: Seq<Option<TTEntry>>,
    r: Reply,
    v1: BoardView,
    z1: Zobrist,
    t1: Seq<Option<TTEntry>>,
) -> bool {
    let p = v0.pos;
    let same = kept(v0, z0, t0, v1, z1, t1);
    match c {
        CommandView::Uci => same && r is Identify,
        CommandView::IsReady => same && r is Ready,
        CommandView::Position { fen, moves } => {
            let start = position_start(fen);
            if (fen matches Some(f) ==> fen_ok(f)) && play_prefix(start, moves, moves.len()) is Some {
                r is Done && Some(v1) == play_prefix(start, moves, moves.len()) && t1 == t0
            } else {
                r is Refused && same
            }
        },
        CommandView::Go => if search_ok(p, SEARCH_DEPTH as nat) && t0.len() > 0 && scores_ok(t0) {
            let (found, t) = root_search(z0, t0, p, SEARCH_DEPTH as nat);
            &&& v1 == v0
            &&& z1 == z0
            &&& t1 == t
            &&& match found {
                Some(m) => r == Reply::BestMove(m),
                None => r is Refused,
            }
        } else {
            r is Refused && same
        },
        CommandView::Stop => same && r is Quit,
        CommandView::Quit => same && r is Quit,
        CommandView::Debug(d) => debug_step(d, v0, z0, t0, r, v1, z1, t1),
        CommandView::Unknown(s) => same && (r matches Reply::Unknown(t) && t@ == s),
    }
}

/// The reply to a `go`: a search to `SEARCH_DEPTH`, where the board and the
/// table allow it without a panic.
fn go(board: &mut Board, tt: &mut TranspositionTable) -> (r: Reply)
    requires
        old(tt).inv(),
    ensures
        final(tt).inv(),
        command_step(
            CommandView::Go,
            old(board)@,
            old(board).keys(),
            old(tt)@,
            r,
            final(board)@,
            final(board).keys(),
            final(tt)@,
        ),
{
    if !Search::search_is_safe(board, SEARCH_DEPTH) {
        return Reply::Refused;
    }
    if tt.len() == 0 || !tt.scores_are_ok() {
        return Reply::Refused;
    }
    match Search::try_alphabeta(board, tt, SEARCH_DEPTH) {
        Some(m) => Reply::BestMove(m),
        None => Reply::Refused,
    }
}

/// The reply to `debug divide`.
fn divide(board: &mut Board, n: i32) -> (r: Reply)
    ensures
        final(board)@ == old(board)@,
        final(board).keys() == old(board).keys(),
        if n > i32::MIN && safe_tree(old(board)@.pos, 1 + plies(n - 1)) && perft_count(
            old(board)@.pos,
            1 + plies(n - 1),
        ) <= u64::MAX {
            r matches Reply::Divided(total, per_move) && {
                &&& total == perft_count(old(board)@.pos, 1 + plies(n - 1))
                &&& per_move@.map_values(|e: (Move, u64)| e.0) == legal_moves(old(board)@.pos)
                &&& forall|k: int|
                    0 <= k < per_move@.len() ==> #[trigger] per_move@[k].1 == perft_count(
                        crate::position::apply_move(old(board)@.pos, per_move@[k].0),
                        plies(n - 1),
                    )
            }
        } else {
            r is Refused
        },
{
    if n == i32::MIN {
        return Reply::Refused;
    }
    let walked: i32 = if n <= 0 {
        1
    } else {
        n
    };
    assert(plies(walked as int) == 1 + plies(n - 1));
    match crate::debug::Debug::try_perft(board, walked) {
        None => Reply::Refused,
        Some(_) => {
            let (total, per_move) = crate::debug::Debug::divide(board, n);
            Reply::Divided(total, per_move)
        },
    }
}

/// The reply to `debug attacks` (when `attacks` is set) or `debug moves`
/// with the square name `s`.
fn show_targets(board: &Board, s: &str, attacks: bool) -> (r: Reply)
    ensures
        if !is_square_name(s@) {
            r is Refused
        } else {
            let p = board@.pos;
            match p.mailbox[square_of_name(s@)] {
                None => r is Done,
                Some(pc) => if attacks {
                    if ep_ok(p) {
                        r == Reply::ShowBitboard(attacks_spec(p, pc.piece_type, pc.color, square_of_name(s@)))
                    } else {
                        r is Refused
                    }
                } else {
                    r == Reply::ShowBitboard(moves_spec(p, pc.piece_type, pc.color, square_of_name(s@)))
                },
            }
        },
{
    if !is_valid_square_name(s) {
        return Reply::Refused;
    }
    let square = Square::from_algebraic(s);
    match board.get_piece(square) {
        None => Reply::Done,
        Some(piece) => {
            let piece = *piece;
            if attacks {
                match board.get_en_passant_square() {
                    Some(e) => if e >= 64 {
                        return Reply::Refused;
                    },
                    None => {},
                }
                Reply::ShowBitboard(MoveGen::attacks(board, &piece.piece_type, &piece.color, square))
            } else {
                Reply::ShowBitboard(MoveGen::moves(board, &piece.piece_type, &piece.color, square))
            }
        },
    }
}

/// The board of the kiwipete position, where its FEN string can be read.
fn kiwipete() -> (r: Option<Board>)
    ensures
        fen_ok(kiwipete_fields()) <==> r is Some,
        r matches Some(b) ==> b@ == (BoardView {
            pos: fen_position(kiwipete_fields()),
            history: Seq::empty(),
        }),
{
    let fields: Vec<&str> = vec![
        "r3k2r/p1ppqpb1/bn2pnp1/3PN3/1p2P3/2N2Q1p/PPPBBPPP/R3K2R",
        "w",
        "KQkq",
        "-",
        "0",
        "1",
    ];
    assert(field_views(fields@) =~= kiwipete_fields());
    if !Board::is_valid_fen(&fields) {
        return None;
    }
    let b = Board::from_fen(fields);
    assert(b@.history =~= Seq::<Position>::empty());
    Some(b)
}

/// The reply to `debug en_passant`.
fn en_passant(board: &Board) -> (r: Reply)
    ensures
        match board@.pos.en_passant_square {
            None => r == Reply::EnPassant(None),
            Some(e) => if e < 64 {
                r matches Reply::EnPassant(Some(t)) && t@ == square_name(e as int)
            } else {
                r is Refused
            },
        },
{
    match board.get_en_passant_square() {
        None => Reply::EnPassant(None),
        Some(e) => if e < 64 {
            Reply::EnPassant(Some(e.to_algebraic()))
        } else {
            Reply::Refused
        },
    }
}

/// Carries out a debug command.
fn debug_command(board: &mut Board, tt: &TranspositionTable, d: DebugCommand) -> (r: Reply)
    ensures
        debug_step(
            d@,
            old(board)@,
            old(board).keys(),
            tt@,
            r,
            final(board)@,
            final(board).keys(),
            tt@,
        ),
{
    match d {
        DebugCommand::Move(s) => {
            if board.play_uci(s.as_str()) {
                Reply::Done
            } else {
                Reply::Refused
            }
        },
        DebugCommand::Undo => {
            if board.undo() {
                Reply::Done
            } else {
                Reply::Refused
            }
        },
        DebugCommand::Fen => Reply::Text(board.to_fen()),
        DebugCommand::Print => Reply::ShowBoard,
        DebugCommand::PrintOccupied => Reply::ShowOccupied(*board.get_occupied()),
        DebugCommand::PrintAttacks(s) => show_targets(board, s.as_str(), true),
        DebugCommand::PrintMoves(s) => show_targets(board, s.as_str(), false),
        DebugCommand::Position(s) => {
            if str_is(s.as_str(), "kiwipete") {
                match kiwipete() {
                    Some(b) => {
                        *board = b;
                        Reply::Done
                    },
                    None => Reply::Refused,
                }
            } else {
                Reply::Done
            }
        },
        DebugCommand::EnPassant => en_passant(board),
        DebugCommand::CastlingRights => Reply::ShowCastlingRights(*board.get_castling_rights()),
        DebugCommand::AllStats => Reply::AllStats(
            *board.get_castling_rights(),
            *board.color_to_move(),
            board.get_en_passant_square(),
        ),
        DebugCommand::Perft(n) => Reply::TimedPerft(n, false),
        DebugCommand::PerftSingleLine(n) => Reply::TimedPerft(n, true),
        DebugCommand::Divide(n) => divide(board, n),
        DebugCommand::Unknown(s) => Reply::UnknownDebug(s),
    }
}

/// Carries out one command of a UCI session on the board and the
/// transposition table, and gives the reply to print. Where the command
/// cannot be carried out, the board and the table stay as they were and the
/// reply is `Refused`.
pub fn step(board: &mut Board, tt: &mut TranspositionTable, cmd: UciCommand) -> (r: Reply)
    requires
        old(tt).inv(),
    ensures
        final(tt).inv(),
        command_step(
            cmd@,
            old(board)@,
            old(board).keys(),
            old(tt)@,
            r,
            final(board)@,
            final(board).keys(),
            final(tt)@,
        ),
{
    match cmd {
        UciCommand::Uci => Reply::Identify,
        UciCommand::IsReady => Reply::Ready,
        UciCommand::Position { fen, moves } => match set_up_position(fen, &moves) {
            Some(b) => {
                *board = b;
                Reply::Done
            },
            None => Reply::Refused,
        },
        UciCommand::Go => go(board, tt),
        UciCommand::Stop => Reply::Quit,
        UciCommand::Quit => Reply::Quit,
        UciCommand::Debug(d) => debug_command(board, tt, d),
        UciCommand::Unknown(s) => Reply::Unknown(s),
    }
}

} // verus!
