use epsilon::board::Board;
use epsilon::session::{step, Reply};
use epsilon::transposition_table::TranspositionTable;
use epsilon::types::{Color, PieceType};
use epsilon::uci::UciParser;

fn run(board: &mut Board, tt: &mut TranspositionTable, line: &str) -> Reply {
    assert!(UciParser::can_parse(line));
    step(board, tt, UciParser::parse(line))
}

#[test]
fn session_identifies_and_quits() {
    let mut board = Board::startpos();
    let mut tt = TranspositionTable::new(0);
    assert!(matches!(run(&mut board, &mut tt, "uci"), Reply::Identify));
    assert!(matches!(run(&mut board, &mut tt, "isready"), Reply::Ready));
    assert!(matches!(run(&mut board, &mut tt, "stop"), Reply::Quit));
    assert!(matches!(run(&mut board, &mut tt, "quit"), Reply::Quit));
    match run(&mut board, &mut tt, "hello there") {
        Reply::Unknown(s) => assert_eq!(s, "hello there"),
        _ => panic!(),
    }
}

#[test]
fn session_sets_up_positions_and_plays_moves() {
    let mut board = Board::startpos();
    let mut tt = TranspositionTable::new(0);
    assert!(matches!(run(&mut board, &mut tt, "position startpos moves e2e4 e7e5"), Reply::Done));
    assert_eq!(board.history_len(), 2);
    assert!(matches!(run(&mut board, &mut tt, "debug move g1f3"), Reply::Done));
    assert_eq!(board.get_piece(21).unwrap().piece_type, PieceType::Knight);
    assert!(matches!(run(&mut board, &mut tt, "debug undo"), Reply::Done));
    assert!(board.get_piece(21).is_none());
    assert!(matches!(run(&mut board, &mut tt, "debug move e2e4"), Reply::Refused));
    assert!(matches!(run(&mut board, &mut tt, "position startpos moves e3e4"), Reply::Refused));
    assert_eq!(board.history_len(), 2);
    assert!(matches!(run(&mut board, &mut tt, "position startpos"), Reply::Done));
    assert!(matches!(run(&mut board, &mut tt, "debug undo"), Reply::Refused));
    match run(&mut board, &mut tt, "debug fen") {
        Reply::Text(t) => assert_eq!(t, "rnbqkbnr/pppppppp/8/8/8/8/PPPPPPPP/RNBQKBNR w KQkq - "),
        _ => panic!(),
    }
}

#[test]
fn session_debug_views() {
    let mut board = Board::startpos();
    let mut tt = TranspositionTable::new(0);
    match run(&mut board, &mut tt, "debug print attacks b1") {
        Reply::ShowBitboard(bb) => assert_eq!(bb, 0),
        _ => panic!(),
    }
    assert!(matches!(run(&mut board, &mut tt, "debug print attacks e4"), Reply::Done));
    match run(&mut board, &mut tt, "debug enpassant") {
        Reply::EnPassant(None) => {}
        _ => panic!(),
    }
    assert!(matches!(run(&mut board, &mut tt, "debug pos kiwipete"), Reply::Done));
    match run(&mut board, &mut tt, "debug print occupied") {
        Reply::ShowOccupied(o) => assert_eq!(o.white & o.black, 0),
        _ => panic!(),
    }
    assert!(matches!(run(&mut board, &mut tt, "position startpos moves e2e4"), Reply::Done));
    match run(&mut board, &mut tt, "debug enpassant") {
        Reply::EnPassant(Some(name)) => assert_eq!(name, "e3"),
        _ => panic!(),
    }
    match run(&mut board, &mut tt, "debug allstats") {
        Reply::AllStats(_, color, ep) => {
            assert_eq!(color, Color::Black);
            assert_eq!(ep, Some(20));
        }
        _ => panic!(),
    }
    assert!(matches!(run(&mut board, &mut tt, "debug perft 3"), Reply::TimedPerft(3, false)));
}

#[test]
fn session_divide_and_go() {
    let mut board = Board::startpos();
    let mut empty = TranspositionTable::new(0);
    match run(&mut board, &mut empty, "debug divide 2") {
        Reply::Divided(total, per_move) => {
            assert_eq!(total, 400);
            assert_eq!(per_move.len(), 20);
            assert!(per_move.iter().all(|(_, n)| *n == 20));
        }
        _ => panic!(),
    }
    assert!(matches!(run(&mut board, &mut empty, "position fen 4k3/8/8/3q4/8/8/8/3RK3 w - - 0 1"), Reply::Done));
    // A search of the depth that `go` uses needs a slot in the table.
    assert!(matches!(run(&mut board, &mut empty, "go"), Reply::Refused));
    let mut tt = TranspositionTable::new(1);
    match run(&mut board, &mut tt, "go") {
        Reply::BestMove(mv) => assert_eq!(mv.to_uci(), "d1d5"),
        _ => panic!(),
    }
}

#[test]
fn start_fen_gives_the_start_position() {
    let a = Board::startpos();
    let b = Board::from_fen("rnbqkbnr/pppppppp/8/8/8/8/PPPPPPPP/RNBQKBNR w KQkq - 0 1".split(' ').collect());
    for s in 0u8..64 {
        assert_eq!(a.get_piece(s), b.get_piece(s));
    }
    assert_eq!(a.get_occupied(), b.get_occupied());
    assert_eq!(a.color_to_move(), b.color_to_move());
    assert_eq!(a.get_castling_rights(), b.get_castling_rights());
    assert_eq!(a.get_en_passant_square(), b.get_en_passant_square());
}
