use epsilon::board::Board;
use epsilon::diagram::BitboardExt;
use epsilon::uci::trim_line;
use epsilon::types::{Move, MoveType, PieceType};

#[test]
fn bitboard_diagram() {
    let lines = (1u64 | (1u64 << 63)).diagram();
    assert_eq!(lines.len(), 11);
    assert_eq!(lines[0], "  +-----------------+");
    assert_eq!(lines[1], "8 | . . . . . . . X |");
    assert_eq!(lines[2], "7 | . . . . . . . . |");
    assert_eq!(lines[8], "1 | X . . . . . . . |");
    assert_eq!(lines[9], "  +-----------------+");
    assert_eq!(lines[10], "    a b c d e f g h");
}

#[test]
fn board_diagram() {
    let lines = Board::startpos().diagram();
    assert_eq!(lines[1], "8 | r n b q k b n r |");
    assert_eq!(lines[2], "7 | p p p p p p p p |");
    assert_eq!(lines[4], "5 | . . . . . . . . |");
    assert_eq!(lines[8], "1 | R N B Q K B N R |");
}

#[test]
fn trimming_lines() {
    assert_eq!(trim_line("  uci \r\n"), "uci");
    assert_eq!(trim_line("go"), "go");
    assert_eq!(trim_line(" \t \n"), "");
    assert_eq!(trim_line(" a b "), "a b");
}

#[test]
fn writable_moves() {
    assert!(Move::new(12, 28, MoveType::Quiet).can_write_uci());
    assert!(!Move::new(64, 28, MoveType::Quiet).can_write_uci());
    assert!(!Move::new(52, 60, MoveType::Promotion(PieceType::King)).can_write_uci());
    assert!(Move::new(52, 60, MoveType::Promotion(PieceType::Queen)).can_write_uci());
}
