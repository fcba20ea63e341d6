use epsilon::board::Board;

use epsilon::movegen::MoveGen;
use epsilon::types::{Color, Move, MoveType, PieceType, Piece};
use epsilon::fen::SquareExt;
use epsilon::search::Search;
use epsilon::transposition_table::{TranspositionTable, TTBound, TTEntry};

const KIWIPETE: &str = "r3k2r/p1ppqpb1/bn2pnp1/3PN3/1p2P3/2N2Q1p/PPPBBPPP/R3K2R w KQkq - 0 1";

fn board_from(fen: &str) -> Board {
    let fields: Vec<&str> = fen.split(' ').collect();
    assert!(Board::is_valid_fen(&fields));
    Board::from_fen(fields)
}

#[test]
fn perft_startpos() {
    let mut board = Board::startpos();
    assert_eq!(epsilon::debug::Debug::perft(&mut board, 0), 1);
    assert_eq!(epsilon::debug::Debug::perft(&mut board, 1), 20);
    assert_eq!(epsilon::debug::Debug::perft(&mut board, 2), 400);
    assert_eq!(epsilon::debug::Debug::perft(&mut board, 3), 8902);
}

#[test]
fn perft_kiwipete() {
    let mut board = board_from(KIWIPETE);
    assert_eq!(epsilon::debug::Debug::perft(&mut board, 1), 48);
    assert_eq!(epsilon::debug::Debug::perft(&mut board, 2), 2039);
}

#[test]
fn perft_negative_depth_counts_one() {
    let mut board = Board::startpos();
    assert_eq!(epsilon::debug::Debug::perft(&mut board, -3), 1);
}

#[test]
fn divide_startpos() {
    let mut board = Board::startpos();
    let (total, per_move) = epsilon::debug::Debug::divide(&mut board, 2);
    assert_eq!(total, 400);
    assert_eq!(per_move.len(), 20);
    for (_, nodes) in per_move.iter() {
        assert_eq!(*nodes, 20);
    }
}

#[test]
fn perft_leaves_board_unchanged() {
    let mut board = board_from(KIWIPETE);
    let before = board.to_fen();
    epsilon::debug::Debug::perft(&mut board, 2);
    assert_eq!(board.to_fen(), before);
}

#[test]
fn startpos_fen() {
    let board = Board::startpos();
    assert_eq!(board.to_fen(), "rnbqkbnr/pppppppp/8/8/8/8/PPPPPPPP/RNBQKBNR w KQkq - ");
}

#[test]
fn fen_round_trip_kiwipete() {
    let board = board_from(KIWIPETE);
    assert_eq!(board.to_fen(), "r3k2r/p1ppqpb1/bn2pnp1/3PN3/1p2P3/2N2Q1p/PPPBBPPP/R3K2R w KQkq - ");
}

#[test]
fn fen_no_castling_black_to_move() {
    let board = board_from("8/8/8/8/8/8/8/4K2k b - - 0 1");
    assert_eq!(board.to_fen(), "8/8/8/8/8/8/8/4K2k b - - ");
    assert_eq!(*board.color_to_move(), Color::Black);
    let cr = board.get_castling_rights();
    assert!(!cr.white_king_side && !cr.white_queen_side && !cr.black_king_side && !cr.black_queen_side);
}

#[test]
fn fen_en_passant_square_written_as_index() {
    let board = board_from("rnbqkbnr/pppp1ppp/8/8/3pP3/8/PPP2PPP/RNBQKBNR b KQkq e3 0 1");
    assert_eq!(board.get_en_passant_square(), Some(20));
    assert_eq!(board.to_fen(), "rnbqkbnr/pppp1ppp/8/8/3pP3/8/PPP2PPP/RNBQKBNR b KQkq 020 ");
}

#[test]
fn fen_reads_pieces() {
    let board = board_from(KIWIPETE);
    let king = board.get_piece(4).unwrap();
    assert_eq!(king.piece_type, PieceType::King);
    assert_eq!(king.color, Color::White);
    assert!(board.get_piece(1).is_none());
    let queen = board.get_piece(21).unwrap();
    assert_eq!(*queen, Piece::new(PieceType::Queen, Color::White));
}

#[test]
fn invalid_fens_are_refused() {
    assert!(!Board::is_valid_fen(&vec!["8/8/8/8", "w", "-"]));
    assert!(!Board::is_valid_fen(&vec!["x7/8/8/8/8/8/8/8", "w", "-", "-"]));
    assert!(!Board::is_valid_fen(&vec!["8/8/8/8/8/8/8/8", "w", "-", "z9"]));
    assert!(!Board::is_valid_fen(&vec!["9/8/8/8/8/8/8/8/8/P", "w", "-", "-"]));
    assert!(Board::is_valid_fen(&vec!["8/8/8/8/8/8/8/8", "w", "-", "-"]));
}

#[test]
fn square_names() {
    assert_eq!(<u8 as SquareExt>::from_algebraic("a1"), 0);
    assert_eq!(<u8 as SquareExt>::from_algebraic("h8"), 63);
    assert_eq!(<u8 as SquareExt>::from_algebraic("e4"), 28);
    assert_eq!(28u8.to_algebraic(), "e4");
    assert_eq!(63u8.to_algebraic(), "h8");
}

#[test]
fn uci_moves() {
    let mv = Move::from_uci("e2e4");
    assert_eq!(mv, Move::new(12, 28, MoveType::Unknown));
    assert_eq!(mv.to_uci(), "e2e4");
    let promo = Move::from_uci("e7e8N");
    assert_eq!(promo.move_type, MoveType::Promotion(PieceType::Knight));
    assert_eq!(promo.to_uci(), "e7e8n");
    assert!(Move::is_valid_uci("a7a8q"));
    assert!(!Move::is_valid_uci("a7a8x"));
    assert!(!Move::is_valid_uci("a7"));
    assert!(!Move::is_valid_uci("i1a1"));
}

#[test]
fn make_and_revert_move() {
    let mut board = Board::startpos();
    let before = board.to_fen();
    let mut mv = Move::from_uci("e2e4");
    board.find_move_type(&mut mv);
    assert_eq!(mv.move_type, MoveType::Quiet);
    board.make_move(&mv);
    assert_eq!(board.to_fen(), "rnbqkbnr/pppppppp/8/8/4P3/8/PPPP1PPP/RNBQKBNR b KQkq 020 ");
    board.revert_state();
    assert_eq!(board.to_fen(), before);
}

#[test]
fn castling_move_type() {
    let board = board_from(KIWIPETE);
    let mut mv = Move::from_uci("e1g1");
    board.find_move_type(&mut mv);
    assert_eq!(mv.move_type, MoveType::CastleKingside);
    let mut mv = Move::from_uci("e1c1");
    board.find_move_type(&mut mv);
    assert_eq!(mv.move_type, MoveType::CastleQueenside);
}

#[test]
fn pseudolegal_moves_of_startpos() {
    let board = Board::startpos();
    let moves = MoveGen::get_pseudolegal_moves(&board);
    assert_eq!(moves.len(), 20);
    assert!(moves.contains(&Move::new(1, 18, MoveType::Quiet)));
    assert!(moves.contains(&Move::new(12, 28, MoveType::Quiet)));
}

#[test]
fn evaluation_of_startpos_is_even() {
    let board = Board::startpos();
    assert_eq!(board.evaluate(), 0);
    let board = board_from("4k3/8/8/8/8/8/8/3QK3 b - - 0 1");
    assert_eq!(board.evaluate(), -900);
}

#[test]
fn zobrist_hash_changes_with_move_and_returns() {
    let mut board = Board::startpos();
    let h0 = board.get_zobrist_hash();
    let mut mv = Move::from_uci("g1f3");
    board.find_move_type(&mut mv);
    board.make_move(&mv);
    assert_ne!(board.get_zobrist_hash(), h0);
    board.revert_state();
    assert_eq!(board.get_zobrist_hash(), h0);
}

#[test]
fn random_move_is_legal() {
    let mut board = Board::startpos();
    let mut rng = rand::rng();
    let mv = Search::random(&mut board, &mut rng);
    let moves = MoveGen::get_pseudolegal_moves(&board);
    assert!(moves.contains(&mv));
}

#[test]
fn alphabeta_takes_hanging_queen() {
    let mut board = board_from("4k3/8/8/3q4/8/8/8/3RK3 w - - 0 1");
    let mut tt = TranspositionTable::new(1);
    let mv = Search::alphabeta(&mut board, &mut tt, 2);
    assert_eq!(mv.to_uci(), "d1d5");
}

#[test]
fn transposition_table_store_and_retrieve() {
    let mut tt = TranspositionTable::new(1);
    assert!(tt.retrieve(12345).is_none());
    tt.store(12345, 3, TTBound::Exact, 42);
    let e = tt.retrieve(12345).unwrap();
    assert_eq!(e.depth, 3);
    assert_eq!(e.score, 42);
    assert_eq!(e.bound, TTBound::Exact);
    tt.store(12345, 2, TTBound::Lower, 7);
    assert_eq!(tt.retrieve(12345).unwrap().score, 42);
    tt.store(12345, 5, TTBound::Upper, -7);
    assert_eq!(tt.retrieve(12345).unwrap().score, -7);
}

#[test]
fn move_conditions() {
    let board = Board::startpos();
    assert!(board.move_is_ok(&Move::new(12, 28, MoveType::Quiet)));
    assert!(!board.move_is_ok(&Move::new(28, 36, MoveType::Quiet)));
    assert!(!board.move_is_ok(&Move::new(12, 28, MoveType::Unknown)));
    assert!(!board.move_is_ok(&Move::new(12, 28, MoveType::Capture)));
    assert!(board.move_is_ok(&Move::new(4, 6, MoveType::CastleKingside)));
    assert!(!board.move_is_ok(&Move::new(1, 35, MoveType::EnPassant)));
    assert_eq!(board.history_len(), 0);
}

#[test]
fn walking_conditions() {
    let mut board = Board::startpos();
    assert!(epsilon::tree::step_is_ok(&mut board));
    assert!(Search::search_is_safe(&mut board, 2));
    assert_eq!(epsilon::debug::Debug::try_perft(&mut board, 3), Some(8902));
    // Without a white king, no white move can be tested for leaving it attacked.
    let mut kingless = board_from("8/8/8/8/8/8/8/R3k3 w - - 0 1");
    assert!(!epsilon::tree::step_is_ok(&mut kingless));
    assert_eq!(epsilon::debug::Debug::try_perft(&mut kingless, 2), None);
    assert_eq!(epsilon::debug::Debug::try_perft(&mut kingless, 0), Some(1));
}

#[test]
fn search_finds_a_move() {
    let mut board = Board::startpos();
    let mut tt = TranspositionTable::new(1);
    let mv = Search::try_alphabeta(&mut board, &mut tt, 2).unwrap();
    let moves = MoveGen::get_pseudolegal_moves(&board);
    assert!(moves.contains(&mv));
}

#[test]
fn divide_at_depth_zero_counts_legal_moves() {
    let mut board = Board::startpos();
    let (total, per_move) = epsilon::debug::Debug::divide(&mut board, 0);
    assert_eq!(total, 20);
    assert!(per_move.iter().all(|(_, n)| *n == 1));
}

#[test]
fn one_ply_search_takes_the_most_material() {
    let mut board = board_from("4k3/8/8/3q4/8/8/3r4/3RK3 w - - 0 1");
    let mut tt = TranspositionTable::new(1);
    let mv = Search::alphabeta(&mut board, &mut tt, 1);
    assert_eq!(mv.to_uci(), "d1d2");
}

#[test]
fn transposition_table_slot_count_and_depth_rule() {
    let mut tt = TranspositionTable::new(1);
    assert_eq!(tt.len(), 1_000_000 / std::mem::size_of::<TTEntry>());
    assert!(tt.len() > 0);
    assert!(tt.scores_are_ok());
    tt.store(5, 3, TTBound::Exact, 42);
    tt.store(5, 3, TTBound::Lower, -7);
    assert_eq!(tt.retrieve(5), Some(TTEntry { key: 5, depth: 3, bound: TTBound::Exact, score: 42 }));
    tt.store(5, 4, TTBound::Upper, 9);
    assert_eq!(tt.retrieve(5), Some(TTEntry { key: 5, depth: 4, bound: TTBound::Upper, score: 9 }));
    tt.store(6, 1, TTBound::Exact, i16::MIN);
    assert!(!tt.scores_are_ok());
    assert_eq!(TranspositionTable::new(0).len(), 0);
}

#[test]
fn one_ply_search_needs_no_table() {
    let mut board = board_from("4k3/8/8/3q4/8/8/3r4/3RK3 w - - 0 1");
    let mut empty = TranspositionTable::new(0);
    let mv = Search::alphabeta(&mut board, &mut empty, 1);
    assert_eq!(mv.to_uci(), "d1d2");
    assert_eq!(empty.len(), 0);
    let mut odd = TranspositionTable::new(1);
    odd.store(7, 9, TTBound::Exact, i16::MIN);
    let mv = Search::try_alphabeta(&mut board, &mut odd, 1).unwrap();
    assert_eq!(mv.to_uci(), "d1d2");
}

#[test]
fn occupied_sets_follow_the_pieces_after_moves() {
    let mut board = board_from(KIWIPETE);
    let moves = MoveGen::get_pseudolegal_moves(&board);
    for mv in moves.iter() {
        board.make_move(mv);
        let occ = *board.get_occupied();
        assert_eq!(occ.white & occ.black, 0);
        assert_eq!(occ.all, occ.white | occ.black);
        for s in 0u8..64 {
            let bit = 1u64 << s;
            match board.get_piece(s) {
                Some(p) if p.color == Color::White => assert!(occ.white & bit != 0 && occ.black & bit == 0),
                Some(_) => assert!(occ.black & bit != 0 && occ.white & bit == 0),
                None => assert_eq!(occ.all & bit, 0),
            }
        }
        board.revert_state();
    }
}

#[test]
fn fen_rank_fields_cover_eight_squares() {
    let board = board_from(KIWIPETE);
    let fen = board.to_fen();
    let placement = fen.split(' ').next().unwrap();
    let ranks: Vec<&str> = placement.split('/').collect();
    assert_eq!(ranks.len(), 8);
    for rank in ranks {
        let mut width = 0;
        let mut last_digit = false;
        for c in rank.chars() {
            let digit = c.is_ascii_digit();
            assert!(!(digit && last_digit));
            width += if digit { c.to_digit(10).unwrap() } else { 1 };
            last_digit = digit;
        }
        assert_eq!(width, 8);
    }
}
