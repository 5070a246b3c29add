use qchess::{gen_game_from_uci, MoveType, Square, UciError, UciInput};

fn words(s: &str) -> Vec<Vec<char>> {
    s.split_ascii_whitespace().map(|w| w.chars().collect()).collect()
}

#[test]
fn simple_commands() {
    assert!(matches!(UciInput::from_str("uci"), Ok(UciInput::UciFirst)));
    assert!(matches!(UciInput::from_str("  isready "), Ok(UciInput::IsReady)));
    assert!(matches!(UciInput::from_str("ucinewgame"), Ok(UciInput::UciNewGame)));
    assert!(matches!(UciInput::from_str("stop"), Ok(UciInput::Stop)));
    assert!(matches!(UciInput::from_str("quit"), Ok(UciInput::Quit)));
    assert!(matches!(UciInput::from_str("debug on"), Ok(UciInput::Debug(true))));
    assert!(matches!(UciInput::from_str("debug off"), Ok(UciInput::Debug(false))));
}

#[test]
fn refused_commands() {
    assert!(matches!(UciInput::from_str(""), Err(UciError::NoCommand)));
    assert!(matches!(UciInput::from_str("debug maybe"), Err(UciError::InvalidDebug)));
    assert!(matches!(UciInput::from_str("uci now"), Err(UciError::InvalidCommand)));
    assert!(matches!(UciInput::from_str("go depth 3"), Err(UciError::Unsupported)));
    assert!(matches!(UciInput::from_str("position"), Err(UciError::InvalidCommand)));
    assert!(matches!(UciInput::from_str("position somewhere"), Err(UciError::InvalidPosition)));
    assert!(matches!(UciInput::from_str("position startpos then"), Err(UciError::InvalidOption)));
    assert!(matches!(UciInput::from_str("position startpos moves e7e5"), Err(UciError::InvalidMove)));
    assert!(matches!(UciInput::from_str("position startpos moves e3e4"), Err(UciError::InvalidMove)));
    assert!(matches!(UciInput::from_str("position startpos moves zz"), Err(UciError::InvalidMove)));
    assert!(matches!(
        UciInput::from_str("position fen 8/8/8 w - 0 1"),
        Err(UciError::InvalidPosition)
    ));
    assert!(matches!(
        UciInput::from_str("position fen 8/8/8/8/8/8/8 w - - 0 1"),
        Err(UciError::InvalidFen)
    ));
}

#[test]
fn position_replays_moves() {
    let input = "position startpos moves e2e4 e7e5 g1f3";
    match UciInput::from_str(input) {
        Ok(UciInput::Position(game)) => {
            assert_eq!(
                game.board.to_fen(),
                "rnbqkbnr/pppp1ppp/8/4p3/4P3/5N2/PPPP1PPP/RNBQKB1R b KQkq - 0 2"
            );
        }
        _ => panic!("not a position"),
    }
}

#[test]
fn position_from_fen_with_en_passant_capture() {
    let args = words("fen 4k3/8/8/3pP3/8/8/8/4K3 w - d6 0 1 moves e5d6");
    let mut game = gen_game_from_uci(&args).unwrap();
    assert_eq!(game.board.to_fen(), "4k3/8/3P4/8/8/8/8/4K3 b - - 0 1");
    let state = game.undo_move().unwrap();
    assert_eq!(state.last_move.move_type(), MoveType::EnPassant);
    assert_eq!(state.last_move.from(), Square::E5);
    assert_eq!(game.board.to_fen(), "4k3/8/8/3pP3/8/8/8/4K3 w - d6 0 1");
}

#[test]
fn castling_text_is_refused_when_replayed() {
    let args = words("fen 4k3/8/8/8/8/8/8/4K2R w K - 0 1 moves e1g1");
    assert!(matches!(gen_game_from_uci(&args), Err(UciError::InvalidMove)));
}
