use qchess::{CastlingRights, Move, MoveType, PieceType, Square};

#[test]
fn test_castling_rights() {
    for &(a, b, c, d) in [
        (false, false, false, false),
        (false, false, false, true),
        (false, true, false, true),
        (true, false, false, false),
        (true, false, true, false),
        (true, true, true, true),
    ]
    .iter()
    {
        let rights = CastlingRights::new(a, b, c, d);
        assert_eq!(rights.white_king(), a);
        assert_eq!(rights.white_queen(), b);
        assert_eq!(rights.black_king(), c);
        assert_eq!(rights.black_queen(), d);
    }
}

fn flags(c: CastlingRights) -> (bool, bool, bool, bool) {
    (c.white_king(), c.white_queen(), c.black_king(), c.black_queen())
}

#[test]
fn castling_dash_gives_no_rights() {
    let c = CastlingRights::from_str("-").unwrap();
    assert_eq!(flags(c), (false, false, false, false));
    assert_eq!(c, CastlingRights::none());
}

#[test]
fn castling_letters_in_any_order_set_their_flags() {
    assert_eq!(flags(CastlingRights::from_str("KQkq").unwrap()), (true, true, true, true));
    assert_eq!(flags(CastlingRights::from_str("qkQK").unwrap()), (true, true, true, true));
    assert_eq!(flags(CastlingRights::from_str("kQ").unwrap()), (false, true, true, false));
    assert_eq!(flags(CastlingRights::from_str("q").unwrap()), (false, false, false, true));
    assert_eq!(flags(CastlingRights::from_str("Kk").unwrap()), (true, false, true, false));
    assert_eq!(CastlingRights::from_str("KQkq").unwrap(), CastlingRights::all());
}

#[test]
fn castling_text_rejects_other_text() {
    assert_eq!(CastlingRights::from_str(""), Err(()));
    assert_eq!(CastlingRights::from_str("KQkqK"), Err(()));
    assert_eq!(CastlingRights::from_str("KX"), Err(()));
    assert_eq!(CastlingRights::from_str("--"), Err(()));
    assert_eq!(CastlingRights::from_str("K-"), Err(()));
}

#[test]
fn castling_text_of_rights() {
    assert_eq!(CastlingRights::none().to_string(), "-");
    assert_eq!(CastlingRights::all().to_string(), "KQkq");
    assert_eq!(CastlingRights::new(false, true, true, false).to_string(), "Qk");
    assert_eq!(CastlingRights::new(true, false, false, true).to_string(), "Kq");
    for bits in 0u8..16 {
        let c = CastlingRights::new(bits & 8 != 0, bits & 4 != 0, bits & 2 != 0, bits & 1 != 0);
        assert_eq!(CastlingRights::from_str(&c.to_string()), Ok(c));
    }
}

#[test]
fn move_text_round_trip() {
    let mv = Move::from_str("e2e4").unwrap();
    assert_eq!(mv, Move::normal(Square::E2, Square::E4));
    assert_eq!(mv.from(), Square::E2);
    assert_eq!(mv.to(), Square::E4);
    assert_eq!(mv.move_type(), MoveType::Normal);
    assert_eq!(mv.to_string(), "e2e4");
    let promo = Move::from_str("a7a8q").unwrap();
    assert_eq!(promo, Move::new(Square::A7, Square::A8, MoveType::Promotion(PieceType::Queen)));
    assert_eq!(promo.to_string(), "a7a8q");
    assert_eq!(Move::from_str("a7a8x"), Err(()));
    assert_eq!(Move::from_str("a7a"), Err(()));
    assert_eq!(Move::from_str("a7a8qq"), Err(()));
    assert_eq!(Move::from_str("z7a8"), Err(()));
}
