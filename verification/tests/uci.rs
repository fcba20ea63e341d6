use epsilon::uci::{UciParser, UciCommand, DebugCommand, split_whitespace, parse_i32};

#[test]
fn tokens_split_on_white_space() {
    assert_eq!(split_whitespace("  go  \t depth\n5 "), vec!["go", "depth", "5"]);
    assert!(split_whitespace("   ").is_empty());
    assert_eq!(split_whitespace("a\u{3000}b"), vec!["a", "b"]);
}

#[test]
fn numbers() {
    assert_eq!(parse_i32("42"), Some(42));
    assert_eq!(parse_i32("-7"), Some(-7));
    assert_eq!(parse_i32("+7"), Some(7));
    assert_eq!(parse_i32("2147483647"), Some(i32::MAX));
    assert_eq!(parse_i32("-2147483648"), Some(i32::MIN));
    assert_eq!(parse_i32("2147483648"), None);
    assert_eq!(parse_i32("99999999999999999999"), None);
    assert_eq!(parse_i32(""), None);
    assert_eq!(parse_i32("-"), None);
    assert_eq!(parse_i32("4x"), None);
}

#[test]
fn simple_commands() {
    assert!(matches!(UciParser::parse("uci"), UciCommand::Uci));
    assert!(matches!(UciParser::parse("isready"), UciCommand::IsReady));
    assert!(matches!(UciParser::parse("go"), UciCommand::Go));
    assert!(matches!(UciParser::parse("stop"), UciCommand::Stop));
    assert!(matches!(UciParser::parse("quit"), UciCommand::Quit));
    match UciParser::parse("hello world") {
        UciCommand::Unknown(s) => assert_eq!(s, "hello world"),
        _ => panic!("expected an unknown command"),
    }
}

#[test]
fn position_startpos_with_moves() {
    match UciParser::parse("position startpos moves e2e4 e7e5") {
        UciCommand::Position { fen, moves } => {
            assert!(fen.is_none());
            assert_eq!(moves, vec!["e2e4".to_string(), "e7e5".to_string()]);
        }
        _ => panic!("expected a position"),
    }
    match UciParser::parse("position startpos e2e4") {
        UciCommand::Position { fen, moves } => {
            assert!(fen.is_none());
            assert!(moves.is_empty());
        }
        _ => panic!("expected a position"),
    }
}

#[test]
fn position_fen() {
    let line = "position fen 8/8/8/8/8/8/8/4K2k w - - 0 1 moves e1e2";
    assert!(UciParser::can_parse(line));
    match UciParser::parse(line) {
        UciCommand::Position { fen, moves } => {
            assert_eq!(fen.unwrap(), vec!["8/8/8/8/8/8/8/4K2k", "w", "-", "-", "0", "1"]);
            assert_eq!(moves, vec!["e1e2".to_string()]);
        }
        _ => panic!("expected a position"),
    }
    match UciParser::parse("position fen 8/8/8/8/8/8/8/4K2k w - -") {
        UciCommand::Position { fen, moves } => {
            assert_eq!(fen.unwrap().len(), 4);
            assert!(moves.is_empty());
        }
        _ => panic!("expected a position"),
    }
    assert!(!UciParser::can_parse("position fen 8/8/8/8/8/8/8/4K2k w -"));
}

#[test]
fn debug_commands() {
    assert!(matches!(UciParser::parse("debug fen"), UciCommand::Debug(DebugCommand::Fen)));
    assert!(matches!(UciParser::parse("debug print"), UciCommand::Debug(DebugCommand::Print)));
    assert!(matches!(UciParser::parse("debug print occupied"), UciCommand::Debug(DebugCommand::PrintOccupied)));
    assert!(matches!(UciParser::parse("debug perft 4"), UciCommand::Debug(DebugCommand::Perft(4))));
    assert!(matches!(UciParser::parse("debug perft singleline 3"), UciCommand::Debug(DebugCommand::PerftSingleLine(3))));
    assert!(matches!(UciParser::parse("debug divide 2"), UciCommand::Debug(DebugCommand::Divide(2))));
    assert!(matches!(UciParser::parse("debug undo"), UciCommand::Debug(DebugCommand::Undo)));
    assert!(matches!(UciParser::parse("debug castling"), UciCommand::Debug(DebugCommand::CastlingRights)));
    assert!(matches!(UciParser::parse("debug allstats"), UciCommand::Debug(DebugCommand::AllStats)));
    assert!(matches!(UciParser::parse("debug enpassant"), UciCommand::Debug(DebugCommand::EnPassant)));
    match UciParser::parse("debug move e2e4") {
        UciCommand::Debug(DebugCommand::Move(m)) => assert_eq!(m, "e2e4"),
        _ => panic!("expected a debug move"),
    }
    match UciParser::parse("debug print attacks e4") {
        UciCommand::Debug(DebugCommand::PrintAttacks(s)) => assert_eq!(s, "e4"),
        _ => panic!("expected print attacks"),
    }
    match UciParser::parse("debug print moves") {
        UciCommand::Debug(DebugCommand::Unknown(s)) => assert_eq!(s, "debug print moves"),
        _ => panic!("expected an unknown debug command"),
    }
    match UciParser::parse("debug pos kiwipete") {
        UciCommand::Debug(DebugCommand::Position(s)) => assert_eq!(s, "kiwipete"),
        _ => panic!("expected a debug position"),
    }
    match UciParser::parse("debug frobnicate") {
        UciCommand::Debug(DebugCommand::Unknown(s)) => assert_eq!(s, "debug frobnicate"),
        _ => panic!("expected an unknown debug command"),
    }
    assert!(!UciParser::can_parse("debug perft x"));
    assert!(UciParser::can_parse("debug divide"));
    assert!(matches!(UciParser::parse("debug divide"), UciCommand::Debug(DebugCommand::Unknown(_))));
    assert!(UciParser::can_parse("debug divide 3"));
}
