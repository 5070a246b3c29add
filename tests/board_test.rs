use qchess::{fix_move, Board, BoardPiece, Color, Game, Move, MoveType, PieceType, SidePiece, Square};

const DEFAULT_FEN: &str = "rnbqkbnr/pppppppp/8/8/8/8/PPPPPPPP/RNBQKBNR w KQkq - 0 1";

#[test]
fn test_from_to_default_fen() {
    let board = Board::default();
    let fen = board.to_fen();
    assert_eq!(fen, DEFAULT_FEN);
}

#[test]
fn decode_then_encode_start_position() {
    let board = Board::from_fen(DEFAULT_FEN).unwrap();
    assert_eq!(board.to_fen(), DEFAULT_FEN);
    assert_eq!(board.piece_at(Square::E1), BoardPiece::Piece(SidePiece::WKing));
    assert_eq!(board.piece_at(Square::D8), BoardPiece::Piece(SidePiece::BQueen));
    assert_eq!(board.piece_at(Square::E4), BoardPiece::Empty);
}

#[test]
fn empty_board_text() {
    assert_eq!(Board::empty().to_fen(), "8/8/8/8/8/8/8/8 w - - 0 1");
}

#[test]
fn clocks_and_en_passant_are_written() {
    let fen = "rnbqkbnr/pp1ppppp/8/2p5/4P3/8/PPPP1PPP/RNBQKBNR b KQkq e3 12 345";
    let board = Board::from_fen(fen).unwrap();
    assert_eq!(board.turn, Color::Black);
    assert_eq!(board.halfmove_clock, 12);
    assert_eq!(board.fullmove_count, 345);
    assert_eq!(board.ep_square(), Some(Square::E3));
    assert_eq!(board.to_fen(), fen);
}

#[test]
fn decode_accepts_other_white_space_and_plus_signs() {
    let board = Board::from_fen("  8/8/8/8/8/8/8/8\tb\nKq  -  +3   +7 ").unwrap();
    assert_eq!(board.to_fen(), "8/8/8/8/8/8/8/8 b Kq - 3 7");
}

#[test]
fn decode_rejects_malformed_text() {
    let bad = [
        "",
        "rnbqkbnr/pppppppp/8/8/8/8/PPPPPPPP/RNBQKBNR w KQkq - 0",
        "rnbqkbnr/pppppppp/8/8/8/8/PPPPPPPP/RNBQKBNR w KQkq - 0 1 extra",
        "rnbqkbnr/pppppppp/8/8/8/PPPPPPPP/RNBQKBNR w KQkq - 0 1",
        "rnbqkbnr/pppppppp/8/8/8/8/8/PPPPPPPP/RNBQKBNR w KQkq - 0 1",
        "rnbqkbnr/ppppppppp/8/8/8/8/PPPPPPPP/RNBQKBNR w KQkq - 0 1",
        "rnbqkbnr/ppppppp/8/8/8/8/PPPPPPPP/RNBQKBNR w KQkq - 0 1",
        "rnbqkbnr/pppppppp/9/8/8/8/PPPPPPPP/RNBQKBNR w KQkq - 0 1",
        "rnbqkbnr/pppppppp/08/8/8/8/PPPPPPPP/RNBQKBNR w KQkq - 0 1",
        "rnbqkbnx/pppppppp/8/8/8/8/PPPPPPPP/RNBQKBNR w KQkq - 0 1",
        "rnbqkbnr/pppppppp/8/8/8/8/PPPPPPPP/RNBQKBNR x KQkq - 0 1",
        "rnbqkbnr/pppppppp/8/8/8/8/PPPPPPPP/RNBQKBNR w KQkX - 0 1",
        "rnbqkbnr/pppppppp/8/8/8/8/PPPPPPPP/RNBQKBNR w KQkq e3 0 1",
        "rnbqkbnr/pppppppp/8/8/8/8/PPPPPPPP/RNBQKBNR b KQkq e6 0 1",
        "rnbqkbnr/pppppppp/8/8/8/8/PPPPPPPP/RNBQKBNR w KQkq z6 0 1",
        "rnbqkbnr/pppppppp/8/8/8/8/PPPPPPPP/RNBQKBNR w KQkq - x 1",
        "rnbqkbnr/pppppppp/8/8/8/8/PPPPPPPP/RNBQKBNR w KQkq - 256 1",
        "rnbqkbnr/pppppppp/8/8/8/8/PPPPPPPP/RNBQKBNR w KQkq - 0 65536",
        "rnbqkbnr/pppppppp/8/8/8/8/PPPPPPPP/RNBQKBNR w KQkq - -1 1",
        "rnbqkbnr/pppppppp/8/8/8/8/PPPPPPPP/RNBQKBNR w KQkq - + 1",
    ];
    for fen in bad {
        assert!(Board::from_fen(fen).is_err(), "accepted: {}", fen);
    }
    assert!(Board::from_fen("8/8/8/8/8/8/8/8 w - e6 255 65535").is_ok());
}

#[test]
fn start_position_has_twenty_moves() {
    let board = Board::default();
    let moves = board.gen_pseudo_moves();
    assert_eq!(moves.len(), 20);
    let pawn_pushes = moves.iter().filter(|m| m.move_type() == MoveType::Normal && m.from().rank() == qchess::Rank::R2).count();
    let double_pushes = moves.iter().filter(|m| m.move_type() == MoveType::DoublePush).count();
    let knight_moves = moves.iter().filter(|m| m.from() == Square::B1 || m.from() == Square::G1).count();
    assert_eq!(pawn_pushes, 8);
    assert_eq!(double_pushes, 8);
    assert_eq!(knight_moves, 4);
}

#[test]
fn en_passant_lifecycle() {
    let mut board = Board::default();
    let state = board.make_move(Move::new(Square::E2, Square::E4, MoveType::DoublePush));
    assert_eq!(state.captured, BoardPiece::Empty);
    assert_eq!(board.ep_square(), Some(Square::E3));
    assert_eq!(board.turn, Color::Black);
    board.make_move(Move::normal(Square::G8, Square::F6));
    assert_eq!(board.ep_square(), None);
    board.make_move(Move::normal(Square::E4, Square::E5));
    board.make_move(Move::new(Square::D7, Square::D5, MoveType::DoublePush));
    assert_eq!(board.ep_square(), Some(Square::D6));
    let moves = board.gen_pseudo_moves();
    let ep = Move::new(Square::E5, Square::D6, MoveType::EnPassant);
    assert!(moves.contains(&ep));
    let before = board.to_fen();
    let state = board.make_move(ep);
    assert_eq!(board.piece_at(Square::D5), BoardPiece::Empty);
    assert_eq!(board.piece_at(Square::D6), BoardPiece::Piece(SidePiece::WPawn));
    assert_eq!(board.ep_square(), None);
    board.undo_move(state);
    assert_eq!(board.to_fen(), before);
}

fn make_undo_walk(board: &mut Board, depth: u8) -> usize {
    if depth == 0 {
        return 0;
    }
    let og_fen = board.to_fen();
    let moves = board.gen_pseudo_moves();
    let mut n = moves.len();
    for mv in moves {
        let state = board.make_move(mv);
        n += make_undo_walk(board, depth - 1);
        board.undo_move(state);
        assert_eq!(og_fen, board.to_fen(), "{:?}", mv);
    }
    n
}

#[test]
fn make_undo_restores_position_to_depth_three() {
    let mut board = Board::default();
    let n = make_undo_walk(&mut board, 3);
    assert_eq!(n, 20 + 400 + 8902);
}

#[test]
fn make_undo_restores_special_moves() {
    for fen in [
        "rnbqkbnr/ppp1p1pp/8/3pPp2/8/8/PPPP1PPP/RNBQKBNR w KQkq f6 0 3",
        "6n1/7P/8/8/8/8/1p6/K6k w - - 0 1",
        "6n1/7P/8/8/8/8/1p6/K1N4k b - - 0 1",
    ] {
        let mut board = Board::from_fen(fen).unwrap();
        make_undo_walk(&mut board, 2);
        assert_eq!(board.to_fen(), fen);
    }
}

#[test]
fn promotions_on_push_and_capture() {
    let board = Board::from_fen("6n1/7P/8/8/8/8/8/K6k w - - 0 1").unwrap();
    let moves = board.gen_pseudo_moves();
    assert_eq!(moves.len(), 7);
    for kind in [PieceType::Queen, PieceType::Knight] {
        assert!(moves.contains(&Move::new(Square::H7, Square::H8, MoveType::Promotion(kind))));
        assert!(moves.contains(&Move::new(Square::H7, Square::G8, MoveType::Promotion(kind))));
    }
    let mut board = board;
    let state = board.make_move(Move::new(Square::H7, Square::G8, MoveType::Promotion(PieceType::Queen)));
    assert_eq!(state.captured, BoardPiece::Piece(SidePiece::BKnight));
    assert_eq!(board.piece_at(Square::G8), BoardPiece::Piece(SidePiece::WQueen));
    assert_eq!(board.to_fen(), "6Q1/8/8/8/8/8/8/K6k b - - 0 1");
    board.undo_move(state);
    assert_eq!(board.to_fen(), "6n1/7P/8/8/8/8/8/K6k w - - 0 1");
}

#[test]
fn slides_stop_at_the_first_occupied_square() {
    let board = Board::from_fen("8/8/8/8/8/7P/8/K4n1R w - - 0 1").unwrap();
    let moves = board.gen_pseudo_moves();
    let rook: Vec<Square> = moves.iter().filter(|m| m.from() == Square::H1).map(|m| m.to()).collect();
    assert_eq!(rook.len(), 3);
    assert!(rook.contains(&Square::H2));
    assert!(rook.contains(&Square::G1));
    assert!(rook.contains(&Square::F1));
    assert!(!rook.contains(&Square::H3));
    assert!(!rook.contains(&Square::E1));
    let board = Board::from_fen("8/8/8/3p4/8/1B6/2P5/7K w - - 0 1").unwrap();
    let bishop: Vec<Square> = board.gen_pseudo_moves().iter().filter(|m| m.from() == Square::B3).map(|m| m.to()).collect();
    assert_eq!(bishop.len(), 4);
    assert!(bishop.contains(&Square::D5));
    assert!(bishop.contains(&Square::A2));
    assert!(!bishop.contains(&Square::E6));
    assert!(!bishop.contains(&Square::C2));
}

#[test]
fn knights_and_kings_avoid_own_pieces() {
    let board = Board::from_fen("8/8/8/8/8/P1p5/3P4/1N5K w - - 0 1").unwrap();
    let knight: Vec<Square> = board.gen_pseudo_moves().iter().filter(|m| m.from() == Square::B1).map(|m| m.to()).collect();
    assert_eq!(knight, vec![Square::C3]);
    let board = Board::from_fen("8/8/8/8/8/8/6PP/6RK w - - 0 1").unwrap();
    let king: Vec<Square> = board.gen_pseudo_moves().iter().filter(|m| m.from() == Square::H1).map(|m| m.to()).collect();
    assert!(king.is_empty());
}

#[test]
fn validity_checks() {
    let board = Board::default();
    assert!(board.is_valid_move(Move::new(Square::E2, Square::E4, MoveType::DoublePush)));
    assert!(!board.is_valid_move(Move::normal(Square::E7, Square::E5)));
    assert!(!board.is_valid_move(Move::normal(Square::E4, Square::E5)));
    assert!(!board.is_valid_move(Move::normal(Square::A1, Square::A2)));
    assert!(!board.is_valid_move(Move::new(Square::E1, Square::G1, MoveType::Castle)));
    assert!(!board.is_valid_move(Move::new(Square::E2, Square::F3, MoveType::EnPassant)));
    assert!(!board.is_valid_move(Move::new(Square::B1, Square::B8, MoveType::Promotion(PieceType::Queen))));
}

#[test]
fn game_records_and_takes_back_moves() {
    let mut game = Game::default();
    assert!(game.undo_move().is_none());
    let mv = fix_move(&game, Move::from_str("e2e4").unwrap()).unwrap();
    assert_eq!(mv.move_type(), MoveType::DoublePush);
    game.make_move(mv);
    let reply = fix_move(&game, Move::from_str("g8f6").unwrap()).unwrap();
    assert_eq!(reply.move_type(), MoveType::Normal);
    game.make_move(reply);
    assert_eq!(game.board.to_fen(), "rnbqkb1r/pppppppp/5n2/8/4P3/8/PPPP1PPP/RNBQKBNR w KQkq - 0 2");
    let state = game.undo_move().unwrap();
    assert_eq!(state.last_move, reply);
    assert_eq!(game.board.to_fen(), "rnbqkbnr/pppppppp/8/8/4P3/8/PPPP1PPP/RNBQKBNR b KQkq e3 0 1");
    game.undo_move().unwrap();
    assert_eq!(game.board.to_fen(), DEFAULT_FEN);
    assert!(game.undo_move().is_none());
}

#[test]
fn fix_move_reclassifies() {
    let game = Game::from_fen("4k3/8/8/3pP3/8/8/8/4K2R w K d6 0 1").unwrap();
    let ep = fix_move(&game, Move::from_str("e5d6").unwrap()).unwrap();
    assert_eq!(ep.move_type(), MoveType::EnPassant);
    let castle = fix_move(&game, Move::from_str("e1g1").unwrap()).unwrap();
    assert_eq!(castle.move_type(), MoveType::Castle);
    let step = fix_move(&game, Move::from_str("e1f1").unwrap()).unwrap();
    assert_eq!(step.move_type(), MoveType::Normal);
    assert_eq!(fix_move(&game, Move::from_str("a1a2").unwrap()), Err(()));
    assert!(Game::from_fen("not a position").is_err());
    assert_eq!(Game::empty().board.to_fen(), "8/8/8/8/8/8/8/8 w - - 0 1");
}

#[test]
fn en_passant_needs_an_empty_target_and_a_pawn_to_take() {
    // The target square holds the mover's own pawn.
    let board = Board::from_fen("4k3/8/4P3/3P4/8/8/8/4K3 w - e6 0 1").unwrap();
    let moves = board.gen_pseudo_moves();
    assert!(moves.iter().all(|m| m.move_type() != MoveType::EnPassant));
    assert!(moves.iter().all(|m| m.to() != Square::E6));
    // No pawn stands behind the target square.
    let board = Board::from_fen("4k3/8/8/4P3/8/8/8/4K3 w - d6 0 1").unwrap();
    let moves = board.gen_pseudo_moves();
    assert!(moves.iter().all(|m| m.move_type() != MoveType::EnPassant));
    // Every generated move is accepted by make_move.
    for fen in [
        "4k3/8/4P3/3P4/8/8/8/4K3 w - e6 0 1",
        "4k3/8/8/4P3/8/8/8/4K3 w - d6 0 1",
        "rnbqkbnr/ppp1p1pp/8/3pPp2/8/8/PPPP1PPP/RNBQKBNR w KQkq f6 0 3",
    ] {
        let board = Board::from_fen(fen).unwrap();
        for mv in board.gen_pseudo_moves() {
            assert!(board.is_valid_move(mv), "{} {:?}", fen, mv);
        }
    }
}

#[test]
fn generated_moves_are_distinct() {
    for fen in [
        DEFAULT_FEN,
        "r3k2r/8/8/3Q4/8/8/8/R3K2R w KQkq - 0 1",
        "rnbqkbnr/ppp1p1pp/8/3pPp2/8/8/PPPP1PPP/RNBQKBNR w KQkq f6 0 3",
    ] {
        let moves = Board::from_fen(fen).unwrap().gen_pseudo_moves();
        for (i, a) in moves.iter().enumerate() {
            for b in moves.iter().skip(i + 1) {
                assert_ne!(a, b);
            }
        }
    }
}

#[test]
fn decode_of_encode_gives_the_position_back() {
    for fen in [
        DEFAULT_FEN,
        "rnbqkbnr/pp1ppppp/8/2p5/4P3/8/PPPP1PPP/RNBQKBNR b Qk e3 12 345",
        "8/8/8/8/8/8/8/8 w - - 0 1",
        "4k3/8/8/3pP3/8/8/8/4K2R w K d6 255 65535",
    ] {
        let board = Board::from_fen(fen).unwrap();
        let again = Board::from_fen(&board.to_fen()).unwrap();
        assert_eq!(again.to_fen(), fen);
        assert_eq!(again.castle_rights, board.castle_rights);
        assert_eq!(again.turn, board.turn);
        assert_eq!(again.ep_file, board.ep_file);
        let mut sqs = Square::iter();
        while let Some(sq) = sqs.next() {
            assert_eq!(again.piece_at(sq), board.piece_at(sq));
        }
    }
}

#[test]
fn pawn_on_its_last_rank_has_no_moves() {
    let board = Board::from_fen("3P4/8/8/8/8/8/8/k6K w - - 0 1").unwrap();
    let moves = board.gen_pseudo_moves();
    assert!(moves.iter().all(|m| m.from() != Square::D8));
    assert_eq!(moves.len(), 3);
}
