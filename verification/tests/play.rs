use epsilon::board::Board;
use epsilon::play::set_up_position;
use epsilon::types::{Color, PieceType};

#[test]
fn position_with_moves_plays_them_in_turn() {
    let moves = vec!["e2e4".to_string(), "e7e5".to_string(), "g1f3".to_string()];
    let board = set_up_position(None, &moves).unwrap();
    assert_eq!(board.history_len(), 3);
    assert_eq!(*board.color_to_move(), Color::Black);
    assert_eq!(board.get_piece(28).unwrap().piece_type, PieceType::Pawn);
    assert_eq!(board.get_piece(36).unwrap().color, Color::Black);
    assert_eq!(board.get_piece(21).unwrap().piece_type, PieceType::Knight);
    assert!(board.get_piece(6).is_none());
}

#[test]
fn position_from_fen_and_castling_move() {
    let fen: Vec<&str> = "r3k2r/8/8/8/8/8/8/R3K2R w KQkq - 0 1".split(' ').collect();
    let board = set_up_position(Some(fen), &vec!["e1g1".to_string()]).unwrap();
    assert_eq!(board.get_piece(6).unwrap().piece_type, PieceType::King);
    assert_eq!(board.get_piece(5).unwrap().piece_type, PieceType::Rook);
    assert!(board.get_piece(7).is_none());
}

#[test]
fn position_refuses_what_it_cannot_read_or_play() {
    assert!(set_up_position(None, &vec!["e2e9".to_string()]).is_none());
    assert!(set_up_position(None, &vec!["e3e4".to_string()]).is_none());
    let bad: Vec<&str> = vec!["8/8/8"];
    assert!(set_up_position(Some(bad), &Vec::new()).is_none());
}

#[test]
fn play_and_undo() {
    let mut board = Board::startpos();
    assert!(!board.undo());
    assert!(!board.play_uci("zz"));
    assert_eq!(board.history_len(), 0);
    assert!(board.play_uci("d2d4"));
    assert_eq!(board.history_len(), 1);
    assert!(board.undo());
    assert_eq!(board.history_len(), 0);
    assert_eq!(board.get_piece(11).unwrap().piece_type, PieceType::Pawn);
    assert_eq!(*board.color_to_move(), Color::White);
}
