use qchess::{BoardPiece, Color, PieceType, SidePiece};

#[test]
fn test_sidepiece_piece_type() {
    assert_eq!(SidePiece::WPawn.piece_type(), PieceType::Pawn);
    assert_eq!(SidePiece::BPawn.piece_type(), PieceType::Pawn);
    assert_eq!(SidePiece::WRook.piece_type(), PieceType::Rook);
    assert_eq!(SidePiece::BRook.piece_type(), PieceType::Rook);
    assert_eq!(SidePiece::WKnight.piece_type(), PieceType::Knight);
    assert_eq!(SidePiece::WKnight.piece_type(), PieceType::Knight);
    assert_eq!(SidePiece::WBishop.piece_type(), PieceType::Bishop);
    assert_eq!(SidePiece::BBishop.piece_type(), PieceType::Bishop);
    assert_eq!(SidePiece::WQueen.piece_type(), PieceType::Queen);
    assert_eq!(SidePiece::BQueen.piece_type(), PieceType::Queen);
    assert_eq!(SidePiece::WKing.piece_type(), PieceType::King);
    assert_eq!(SidePiece::BKing.piece_type(), PieceType::King);
}

#[test]
fn test_sidepiece_color() {
    assert_eq!(SidePiece::WPawn.color(), Color::White);
    assert_eq!(SidePiece::WRook.color(), Color::White);
    assert_eq!(SidePiece::WKnight.color(), Color::White);
    assert_eq!(SidePiece::WBishop.color(), Color::White);
    assert_eq!(SidePiece::WQueen.color(), Color::White);
    assert_eq!(SidePiece::WKing.color(), Color::White);
    assert_eq!(SidePiece::BPawn.color(), Color::Black);
    assert_eq!(SidePiece::BRook.color(), Color::Black);
    assert_eq!(SidePiece::BKnight.color(), Color::Black);
    assert_eq!(SidePiece::BBishop.color(), Color::Black);
    assert_eq!(SidePiece::BQueen.color(), Color::Black);
    assert_eq!(SidePiece::BKing.color(), Color::Black);
}

#[test]
fn test_sidepiece_from_piecetype_color() {
    assert_eq!(SidePiece::from((PieceType::Pawn, Color::White)), SidePiece::WPawn);
    assert_eq!(SidePiece::from((PieceType::Pawn, Color::Black)), SidePiece::BPawn);
    assert_eq!(SidePiece::from((PieceType::Rook, Color::White)), SidePiece::WRook);
    assert_eq!(SidePiece::from((PieceType::Rook, Color::Black)), SidePiece::BRook);
    assert_eq!(SidePiece::from((PieceType::Knight, Color::White)), SidePiece::WKnight);
    assert_eq!(SidePiece::from((PieceType::Knight, Color::Black)), SidePiece::BKnight);
    assert_eq!(SidePiece::from((PieceType::Bishop, Color::White)), SidePiece::WBishop);
    assert_eq!(SidePiece::from((PieceType::Bishop, Color::Black)), SidePiece::BBishop);
    assert_eq!(SidePiece::from((PieceType::Queen, Color::White)), SidePiece::WQueen);
    assert_eq!(SidePiece::from((PieceType::Queen, Color::Black)), SidePiece::BQueen);
    assert_eq!(SidePiece::from((PieceType::King, Color::White)), SidePiece::WKing);
    assert_eq!(SidePiece::from((PieceType::King, Color::Black)), SidePiece::BKing);
}

#[test]
fn opposite_side_is_an_involution() {
    assert_eq!(!Color::White, Color::Black);
    assert_eq!(!Color::Black, Color::White);
    assert_eq!(Color::White.opposite().opposite(), Color::White);
    assert_eq!(Color::Black.opposite().opposite(), Color::Black);
}

#[test]
fn piece_letters_round_trip() {
    let letters = ['K', 'Q', 'R', 'B', 'N', 'P', 'k', 'q', 'r', 'b', 'n', 'p'];
    for c in letters {
        let p = SidePiece::try_from(c).unwrap();
        assert_eq!(p.to_letter(), c);
    }
    assert_eq!(SidePiece::try_from('x'), Err(()));
    assert_eq!(SidePiece::try_from('1'), Err(()));
    assert_eq!(SidePiece::from_letter('N'), Ok(SidePiece::WKnight));
    assert_eq!(
        BoardPiece::piece(PieceType::Queen, Color::Black),
        BoardPiece::Piece(SidePiece::BQueen)
    );
}

#[test]
fn piece_type_letters() {
    assert_eq!(PieceType::try_from('q'), Ok(PieceType::Queen));
    assert_eq!(PieceType::try_from('n'), Ok(PieceType::Knight));
    assert_eq!(PieceType::try_from('Q'), Err(()));
    assert_eq!(PieceType::Rook.to_char(), 'r');
    assert_eq!(SidePiece::WKing.glyph(), '\u{2654}');
}
