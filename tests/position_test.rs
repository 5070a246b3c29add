use qchess::{Color, File, Rank, Square};

#[test]
fn test_square_rank() {
    assert_eq!(Square::A1.rank(), Rank::R1);
    assert_eq!(Square::A8.rank(), Rank::R8);
    assert_eq!(Square::C3.rank(), Rank::R3);
    assert_eq!(Square::F7.rank(), Rank::R7);
    assert_eq!(Square::H1.rank(), Rank::R1);
    assert_eq!(Square::H8.rank(), Rank::R8);
}

#[test]
fn test_square_file() {
    assert_eq!(Square::A1.file(), File::A);
    assert_eq!(Square::A8.file(), File::A);
    assert_eq!(Square::C3.file(), File::C);
    assert_eq!(Square::F7.file(), File::F);
    assert_eq!(Square::H1.file(), File::H);
    assert_eq!(Square::H3.file(), File::H);
}

#[test]
fn test_square_up() {
    assert_eq!(Square::A1.up(Color::White), Some(Square::A2));
    assert_eq!(Square::A1.up(Color::Black), None);
    assert_eq!(Square::H1.up(Color::White), Some(Square::H2));
    assert_eq!(Square::H1.up(Color::Black), None);
    assert_eq!(Square::C4.up(Color::Black), Some(Square::C3));
    assert_eq!(Square::E5.up(Color::White), Some(Square::E6));
    assert_eq!(Square::B8.up(Color::White), None);
    assert_eq!(Square::B8.up(Color::Black), Some(Square::B7));
    assert_eq!(Square::H8.up(Color::White), None);
    assert_eq!(Square::H8.up(Color::Black), Some(Square::H7));
}

#[test]
fn test_square_down() {
    assert_eq!(Square::A1.down(Color::White), None);
    assert_eq!(Square::A1.down(Color::Black), Some(Square::A2));
    assert_eq!(Square::H1.down(Color::White), None);
    assert_eq!(Square::H1.down(Color::Black), Some(Square::H2));
    assert_eq!(Square::C4.down(Color::Black), Some(Square::C5));
    assert_eq!(Square::E5.down(Color::White), Some(Square::E4));
    assert_eq!(Square::B8.down(Color::White), Some(Square::B7));
    assert_eq!(Square::B8.down(Color::Black), None);
    assert_eq!(Square::H8.down(Color::White), Some(Square::H7));
    assert_eq!(Square::H8.down(Color::Black), None);
}

#[test]
fn test_square_left() {
    assert_eq!(Square::A1.left(Color::White), None);
    assert_eq!(Square::A1.left(Color::Black), Some(Square::B1));
    assert_eq!(Square::H1.left(Color::White), Some(Square::G1));
    assert_eq!(Square::H1.left(Color::Black), None);
    assert_eq!(Square::A3.left(Color::White), None);
    assert_eq!(Square::H3.left(Color::White), Some(Square::G3));
    assert_eq!(Square::D7.left(Color::White), Some(Square::C7));
    assert_eq!(Square::D7.left(Color::Black), Some(Square::E7));
    assert_eq!(Square::H8.left(Color::White), Some(Square::G8));
    assert_eq!(Square::H8.left(Color::Black), None);
}

#[test]
fn test_square_right() {
    assert_eq!(Square::A1.right(Color::Black), None);
    assert_eq!(Square::A1.right(Color::White), Some(Square::B1));
    assert_eq!(Square::H1.right(Color::Black), Some(Square::G1));
    assert_eq!(Square::H1.right(Color::White), None);
    assert_eq!(Square::A3.right(Color::Black), None);
    assert_eq!(Square::H3.right(Color::Black), Some(Square::G3));
    assert_eq!(Square::D7.right(Color::Black), Some(Square::C7));
    assert_eq!(Square::D7.right(Color::White), Some(Square::E7));
    assert_eq!(Square::H8.right(Color::Black), Some(Square::G8));
    assert_eq!(Square::H8.right(Color::White), None);
}

#[test]
fn test_square_from_rank_file() {
    assert_eq!(Square::from((Rank::R1, File::A)), Square::A1);
    assert_eq!(Square::from((Rank::R1, File::H)), Square::H1);
    assert_eq!(Square::from((Rank::R5, File::A)), Square::A5);
    assert_eq!(Square::from((Rank::R7, File::F)), Square::F7);
    assert_eq!(Square::from((Rank::R8, File::A)), Square::A8);
    assert_eq!(Square::from((Rank::R8, File::H)), Square::H8);
}

#[test]
fn test_square_from_coords() {
    assert_eq!(Square::try_from((0u8, 0)), Ok(Square::A1));
    assert_eq!(Square::try_from((0u8, 7)), Ok(Square::H1));
    assert_eq!(Square::try_from((4u8, 0)), Ok(Square::A5));
    assert_eq!(Square::try_from((6u8, 5)), Ok(Square::F7));
    assert_eq!(Square::try_from((7u8, 0)), Ok(Square::A8));
    assert_eq!(Square::try_from((7u8, 7)), Ok(Square::H8));
    assert_eq!(Square::try_from((0u8, 8)), Err(()));
    assert_eq!(Square::try_from((8u8, 0)), Err(()));
}

#[test]
fn test_square_from_num() {
    assert_eq!(Square::try_from(0u8), Ok(Square::A1));
    assert_eq!(Square::try_from(1u8), Ok(Square::B1));
    assert_eq!(Square::try_from(7u8), Ok(Square::H1));
    assert_eq!(Square::try_from(8u8), Ok(Square::A2));
    assert_eq!(Square::try_from(33u8), Ok(Square::B5));
    assert_eq!(Square::try_from(44u8), Ok(Square::E6));
    assert_eq!(Square::try_from(54u8), Ok(Square::G7));
    assert_eq!(Square::try_from(56u8), Ok(Square::A8));
    assert_eq!(Square::try_from(63u8), Ok(Square::H8));
    assert_eq!(Square::try_from(64u8), Err(()));
    assert_eq!(Square::try_from(100u8), Err(()));
}

#[test]
fn test_square_parse() {
    let mut squares = Square::iter();
    while let Some(sq) = squares.next() {
        let sq_str = sq.to_string();
        assert_eq!(Square::from_str(&sq_str), Ok(sq));
    }
    assert_eq!(Square::from_str("a0"), Err(()));
    assert_eq!(Square::from_str("d9"), Err(()));
    assert_eq!(Square::from_str("i1"), Err(()));
}

#[test]
fn test_rank_from_num() {
    assert_eq!(Rank::try_from(0), Ok(Rank::R1));
    assert_eq!(Rank::try_from(1), Ok(Rank::R2));
    assert_eq!(Rank::try_from(2), Ok(Rank::R3));
    assert_eq!(Rank::try_from(3), Ok(Rank::R4));
    assert_eq!(Rank::try_from(4), Ok(Rank::R5));
    assert_eq!(Rank::try_from(5), Ok(Rank::R6));
    assert_eq!(Rank::try_from(6), Ok(Rank::R7));
    assert_eq!(Rank::try_from(7), Ok(Rank::R8));
    assert_eq!(Rank::try_from(8), Err(()));
}

#[test]
fn test_rank_from_char() {
    assert_eq!(Rank::try_from('1'), Ok(Rank::R1));
    assert_eq!(Rank::try_from('2'), Ok(Rank::R2));
    assert_eq!(Rank::try_from('5'), Ok(Rank::R5));
    assert_eq!(Rank::try_from('8'), Ok(Rank::R8));
    assert_eq!(Rank::try_from('a'), Err(()));
    assert_eq!(Rank::try_from('0'), Err(()));
    assert_eq!(Rank::try_from('9'), Err(()));
}

#[test]
fn test_file_from_num() {
    assert_eq!(File::try_from(0), Ok(File::A));
    assert_eq!(File::try_from(1), Ok(File::B));
    assert_eq!(File::try_from(2), Ok(File::C));
    assert_eq!(File::try_from(3), Ok(File::D));
    assert_eq!(File::try_from(4), Ok(File::E));
    assert_eq!(File::try_from(5), Ok(File::F));
    assert_eq!(File::try_from(6), Ok(File::G));
    assert_eq!(File::try_from(7), Ok(File::H));
    assert_eq!(File::try_from(8), Err(()));
}

#[test]
fn test_file_from_char() {
    assert_eq!(File::try_from('a'), Ok(File::A));
    assert_eq!(File::try_from('b'), Ok(File::B));
    assert_eq!(File::try_from('e'), Ok(File::E));
    assert_eq!(File::try_from('h'), Ok(File::H));
    assert_eq!(File::try_from('0'), Err(()));
    assert_eq!(File::try_from('i'), Err(()));
    assert_eq!(File::try_from('A'), Err(()));
}

#[test]
fn test_square_iter() {
    assert_eq!(Square::iter().count(), 64);
    assert_eq!(Square::iter().len(), 64);
    let mut sq_iter = Square::iter();
    assert_eq!(sq_iter.next(), Some(Square::A1));
    assert_eq!(sq_iter.next(), Some(Square::B1));
    assert_eq!(sq_iter.len(), 64 - 2);
    assert_eq!(sq_iter.nth(6), Some(Square::A2));
    assert_eq!(sq_iter.nth(7), Some(Square::A3));
    assert_eq!(sq_iter.next(), Some(Square::B3));
    assert_eq!(sq_iter.last(), Some(Square::H8));
}

#[test]
fn square_index_round_trips_for_every_index() {
    for i in 0u8..64 {
        let sq = Square::try_from(i).unwrap();
        assert_eq!(sq.index(), i);
        assert_eq!(Square::try_from(i as i8), Ok(sq));
    }
    assert_eq!(Square::try_from(-1i8), Err(()));
    assert_eq!(Square::try_from((-1i8, 3i8)), Err(()));
    assert_eq!(Square::try_from((2i8, 3i8)), Ok(Square::D3));
}

#[test]
fn square_text_round_trips_for_every_text() {
    for f in ['a', 'b', 'c', 'd', 'e', 'f', 'g', 'h'] {
        for r in ['1', '2', '3', '4', '5', '6', '7', '8'] {
            let text = format!("{}{}", f, r);
            let sq = Square::from_str(&text).unwrap();
            assert_eq!(sq.to_string(), text);
        }
    }
    assert_eq!(Square::from_str("e4").unwrap(), Square::E4);
    assert_eq!(Square::from_str("e"), Err(()));
    assert_eq!(Square::from_str("e44"), Err(()));
    assert_eq!(Square::from_str(""), Err(()));
}

#[test]
fn square_iter_walks_past_the_end() {
    let mut it = Square::iter();
    assert_eq!(it.nth(63), Some(Square::H8));
    assert_eq!(it.next(), None);
    assert_eq!(it.len(), 0);
    let mut it = Square::iter();
    assert_eq!(it.nth(64), None);
    assert_eq!(it.last(), None);
}
