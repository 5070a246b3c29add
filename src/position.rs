use vstd::prelude::*;

use crate::piece::Color;
use crate::text::{chars_of, push_char};

verus! {

/// One of the 64 squares; its index (`a1` = 0, `b1` = 1, ..., `h8` = 63) is `rank * 8 + file`.
#[derive(Clone, Copy, Debug, PartialEq, Eq, Structural)]
pub enum Square {
    A1, B1, C1, D1, E1, F1, G1, H1,
    A2, B2, C2, D2, E2, F2, G2, H2,
    A3, B3, C3, D3, E3, F3, G3, H3,
    A4, B4, C4, D4, E4, F4, G4, H4,
    A5, B5, C5, D5, E5, F5, G5, H5,
    A6, B6, C6, D6, E6, F6, G6, H6,
    A7, B7, C7, D7, E7, F7, G7, H7,
    A8, B8, C8, D8, E8, F8, G8, H8,
}

/// A rank, from the first (`R1`) to the eighth (`R8`).
#[derive(Clone, Copy, Debug, PartialEq, Eq, Structural)]
pub enum Rank {
    R1, R2, R3, R4, R5, R6, R7, R8,
}

/// A file, from `A` to `H`.
#[derive(Clone, Copy, Debug, PartialEq, Eq, Structural)]
pub enum File {
    A, B, C, D, E, F, G, H,
}

/// Walks the squares in index order, `a1` first and `h8` last.
#[derive(Clone, Copy, Debug)]
pub struct SquareIter {
    index: u8,
}

/// The square on the given rank and file, counted from 0, when both lie on the board.
pub open spec fn square_at(rank: int, file: int) -> Option<Square> {
    if 0 <= rank < 8 && 0 <= file < 8 {
        Some(Square::from_int(rank * 8 + file))
    } else {
        None
    }
}

/// One step up the board as seen from `color`'s side: +1 rank for White, -1 for Black.
pub open spec fn forward(color: Color) -> int {
    match color {
        Color::White => 1,
        Color::Black => -1,
    }
}

/// The text form of a square: file letter, then rank digit (`e4`).
pub open spec fn square_text(sq: Square) -> Seq<char> {
    seq![sq.file_of().letter(), sq.rank_of().digit()]
}

/// The square that two characters name, if they are a file letter and a rank digit.
pub open spec fn parse_square_text(t: Seq<char>) -> Option<Square> {
    if t.len() == 2 && File::from_letter_spec(t[0]) is Some && Rank::from_digit_spec(t[1]) is Some {
        Some(Square::from_rank_file(Rank::from_digit_spec(t[1])->0, File::from_letter_spec(t[0])->0))
    } else {
        None
    }
}

impl Square {
    /// The square with the given index; meaningful for 0..63.
    #[verifier::opaque]
    pub open spec fn from_int(i: int) -> Square {
        if i == 0 {
            Square::A1
        } else if i == 1 {
            Square::B1
        } else if i == 2 {
            Square::C1
        } else if i == 3 {
            Square::D1
        } else if i == 4 {
            Square::E1
        } else if i == 5 {
            Square::F1
        } else if i == 6 {
            Square::G1
        } else if i == 7 {
            Square::H1
        } else if i == 8 {
            Square::A2
        } else if i == 9 {
            Square::B2
        } else if i == 10 {
            Square::C2
        } else if i == 11 {
            Square::D2
        } else if i == 12 {
            Square::E2
        } else if i == 13 {
            Square::F2
        } else if i == 14 {
            Square::G2
        } else if i == 15 {
            Square::H2
        } else if i == 16 {
            Square::A3
        } else if i == 17 {
            Square::B3
        } else if i == 18 {
            Square::C3
        } else if i == 19 {
            Square::D3
        } else if i == 20 {
            Square::E3
        } else if i == 21 {
            Square::F3
        } else if i == 22 {
            Square::G3
        } else if i == 23 {
            Square::H3
        } else if i == 24 {
            Square::A4
        } else if i == 25 {
            Square::B4
        } else if i == 26 {
            Square::C4
        } else if i == 27 {
            Square::D4
        } else if i == 28 {
            Square::E4
        } else if i == 29 {
            Square::F4
        } else if i == 30 {
            Square::G4
        } else if i == 31 {
            Square::H4
        } else if i == 32 {
            Square::A5
        } else if i == 33 {
            Square::B5
        } else if i == 34 {
            Square::C5
        } else if i == 35 {
            Square::D5
        } else if i == 36 {
            Square::E5
        } else if i == 37 {
            Square::F5
        } else if i == 38 {
            Square::G5
        } else if i == 39 {
            Square::H5
        } else if i == 40 {
            Square::A6
        } else if i == 41 {
            Square::B6
        } else if i == 42 {
            Square::C6
        } else if i == 43 {
            Square::D6
        } else if i == 44 {
            Square::E6
        } else if i == 45 {
            Square::F6
        } else if i == 46 {
            Square::G6
        } else if i == 47 {
            Square::H6
        } else if i == 48 {
            Square::A7
        } else if i == 49 {
            Square::B7
        } else if i == 50 {
            Square::C7
        } else if i == 51 {
            Square::D7
        } else if i == 52 {
            Square::E7
        } else if i == 53 {
            Square::F7
        } else if i == 54 {
            Square::G7
        } else if i == 55 {
            Square::H7
        } else if i == 56 {
            Square::A8
        } else if i == 57 {
            Square::B8
        } else if i == 58 {
            Square::C8
        } else if i == 59 {
            Square::D8
        } else if i == 60 {
            Square::E8
        } else if i == 61 {
            Square::F8
        } else if i == 62 {
            Square::G8
        } else {
            Square::H8
        }
    }

    /// Board index of the square.
    pub open spec fn idx(self) -> int {
        self as int
    }

    /// Rank number counted from 0.
    pub open spec fn row(self) -> int {
        self.idx() / 8
    }

    /// File number counted from 0.
    pub open spec fn col(self) -> int {
        self.idx() % 8
    }

    pub open spec fn rank_of(self) -> Rank {
        Rank::from_int(self.row())
    }

    pub open spec fn file_of(self) -> File {
        File::from_int(self.col())
    }

    pub open spec fn from_rank_file(rank: Rank, file: File) -> Square {
        Square::from_int(rank as int * 8 + file as int)
    }

    /// The square `dr` ranks and `df` files away, if that is still on the board.
    pub open spec fn offset(self, dr: int, df: int) -> Option<Square> {
        square_at(self.row() + dr, self.col() + df)
    }

    /// Every square has an index in 0..63, and that index names it back.
    pub proof fn lemma_index(sq: Square)
        ensures
            0 <= sq.idx() < 64,
            Square::from_int(sq.idx()) == sq,
    {
        reveal(Square::from_int);
        match sq {
            Square::A1 => {},
            Square::B1 => {},
            Square::C1 => {},
            Square::D1 => {},
            Square::E1 => {},
            Square::F1 => {},
            Square::G1 => {},
            Square::H1 => {},
            Square::A2 => {},
            Square::B2 => {},
            Square::C2 => {},
            Square::D2 => {},
            Square::E2 => {},
            Square::F2 => {},
            Square::G2 => {},
            Square::H2 => {},
            Square::A3 => {},
            Square::B3 => {},
            Square::C3 => {},
            Square::D3 => {},
            Square::E3 => {},
            Square::F3 => {},
            Square::G3 => {},
            Square::H3 => {},
            Square::A4 => {},
            Square::B4 => {},
            Square::C4 => {},
            Square::D4 => {},
            Square::E4 => {},
            Square::F4 => {},
            Square::G4 => {},
            Square::H4 => {},
            Square::A5 => {},
            Square::B5 => {},
            Square::C5 => {},
            Square::D5 => {},
            Square::E5 => {},
            Square::F5 => {},
            Square::G5 => {},
            Square::H5 => {},
            Square::A6 => {},
            Square::B6 => {},
            Square::C6 => {},
            Square::D6 => {},
            Square::E6 => {},
            Square::F6 => {},
            Square::G6 => {},
            Square::H6 => {},
            Square::A7 => {},
            Square::B7 => {},
            Square::C7 => {},
            Square::D7 => {},
            Square::E7 => {},
            Square::F7 => {},
            Square::G7 => {},
            Square::H7 => {},
            Square::A8 => {},
            Square::B8 => {},
            Square::C8 => {},
            Square::D8 => {},
            Square::E8 => {},
            Square::F8 => {},
            Square::G8 => {},
            Square::H8 => {},
        }
    }

    /// The index 0..63 names a square whose index is that number.
    pub proof fn lemma_from_int(i: int)
        requires
            0 <= i < 64,
        ensures
            Square::from_int(i).idx() == i,
    {
        reveal(Square::from_int);
    }

    /// Board index of the square.
    pub fn index(self) -> (r: u8)
        ensures
            r as int == self.idx(),
            r < 64,
    {
        proof {
            Square::lemma_index(self);
        }
        self as u8
    }

    /// The square with index `i`, which must be on the board.
    pub fn from_index(i: u8) -> (r: Square)
        requires
            i < 64,
        ensures
            r == Square::from_int(i as int),
            r.idx() == i,
    {
        proof {
            reveal(Square::from_int);
        }
        match i {
            0 => Square::A1,
            1 => Square::B1,
            2 => Square::C1,
            3 => Square::D1,
            4 => Square::E1,
            5 => Square::F1,
            6 => Square::G1,
            7 => Square::H1,
            8 => Square::A2,
            9 => Square::B2,
            10 => Square::C2,
            11 => Square::D2,
            12 => Square::E2,
            13 => Square::F2,
            14 => Square::G2,
            15 => Square::H2,
            16 => Square::A3,
            17 => Square::B3,
            18 => Square::C3,
            19 => Square::D3,
            20 => Square::E3,
            21 => Square::F3,
            22 => Square::G3,
            23 => Square::H3,
            24 => Square::A4,
            25 => Square::B4,
            26 => Square::C4,
            27 => Square::D4,
            28 => Square::E4,
            29 => Square::F4,
            30 => Square::G4,
            31 => Square::H4,
            32 => Square::A5,
            33 => Square::B5,
            34 => Square::C5,
            35 => Square::D5,
            36 => Square::E5,
            37 => Square::F5,
            38 => Square::G5,
            39 => Square::H5,
            40 => Square::A6,
            41 => Square::B6,
            42 => Square::C6,
            43 => Square::D6,
            44 => Square::E6,
            45 => Square::F6,
            46 => Square::G6,
            47 => Square::H6,
            48 => Square::A7,
            49 => Square::B7,
            50 => Square::C7,
            51 => Square::D7,
            52 => Square::E7,
            53 => Square::F7,
            54 => Square::G7,
            55 => Square::H7,
            56 => Square::A8,
            57 => Square::B8,
            58 => Square::C8,
            59 => Square::D8,
            60 => Square::E8,
            61 => Square::F8,
            62 => Square::G8,
            _ => Square::H8,
        }
    }

    /// The square on `rank` and `file`.
    pub fn from_parts(rank: Rank, file: File) -> (r: Square)
        ensures
            r == Square::from_rank_file(rank, file),
            r.idx() == rank as int * 8 + file as int,
    {
        proof {
            Rank::lemma_index(rank);
            File::lemma_index(file);
        }
        Square::from_index(rank.index() * 8 + file.index())
    }

    /// The square on the given rank and file numbers, when both are below 8.
    pub fn from_coords(rank: u8, file: u8) -> (r: Option<Square>)
        ensures
            r == square_at(rank as int, file as int),
    {
        if rank < 8 && file < 8 {
            Some(Square::from_index(8 * rank + file))
        } else {
            None
        }
    }

    /// The square with index `i`, when `i` is below 64.
    pub fn try_from_index(i: u8) -> (r: Option<Square>)
        ensures
            r == (if i < 64 { Some(Square::from_int(i as int)) } else { None::<Square> }),
    {
        if i < 64 {
            Some(Square::from_index(i))
        } else {
            None
        }
    }

    pub fn rank(self) -> (r: Rank)
        ensures
            r == self.rank_of(),
            r as int == self.row(),
    {
        proof {
            Square::lemma_index(self);
        }
        Rank::from_index(self.index() / 8)
    }

    pub fn file(self) -> (r: File)
        ensures
            r == self.file_of(),
            r as int == self.col(),
    {
        proof {
            Square::lemma_index(self);
        }
        File::from_index(self.index() % 8)
    }

    /// One rank forward as seen from `color`'s side, if the board goes on.
    pub fn up(self, color: Color) -> (r: Option<Square>)
        ensures
            r == self.offset(forward(color), 0),
    {
        proof {
            Square::lemma_index(self);
        }
        let i = self.index();
        match color {
            Color::White => if i < 56 {
                Some(Square::from_index(i + 8))
            } else {
                None
            },
            Color::Black => if i >= 8 {
                Some(Square::from_index(i - 8))
            } else {
                None
            },
        }
    }

    /// One rank backward as seen from `color`'s side, if the board goes on.
    pub fn down(self, color: Color) -> (r: Option<Square>)
        ensures
            r == self.offset(-forward(color), 0),
    {
        self.up(color.opposite())
    }

    /// One file to the left as seen from `color`'s side, if the board goes on.
    pub fn left(self, color: Color) -> (r: Option<Square>)
        ensures
            r == self.offset(0, -forward(color)),
    {
        self.right(color.opposite())
    }

    /// One file to the right as seen from `color`'s side, if the board goes on.
    pub fn right(self, color: Color) -> (r: Option<Square>)
        ensures
            r == self.offset(0, forward(color)),
    {
        proof {
            Square::lemma_index(self);
        }
        let i = self.index();
        match color {
            Color::White => if i % 8 != 7 {
                Some(Square::from_index(i + 1))
            } else {
                None
            },
            Color::Black => if i % 8 != 0 {
                Some(Square::from_index(i - 1))
            } else {
                None
            },
        }
    }

    /// All squares, `a1` first.
    pub fn iter() -> (r: SquareIter)
        ensures
            r@ == Seq::new(64, |i: int| Square::from_int(i)),
    {
        let r = SquareIter { index: 0 };
        assert(r@ =~= Seq::new(64, |i: int| Square::from_int(i)));
        r
    }

    /// Text form of the square, such as `e4`.
    pub fn to_string(self) -> (r: String)
        ensures
            r@ == square_text(self),
    {
        let mut s = String::new();
        push_char(&mut s, self.file().to_char());
        push_char(&mut s, self.rank().to_char());
        assert(s@ =~= square_text(self));
        s
    }

    /// Reads the text form of a square: a file letter, then a rank digit, and nothing else.
    pub fn from_str(text: &str) -> (r: Result<Square, ()>)
        ensures
            r == (match parse_square_text(text@) {
                Some(sq) => Ok::<Square, ()>(sq),
                None => Err(()),
            }),
    {
        let cs = chars_of(text);
        Square::from_chars(cs.as_slice())
    }

    /// Reads the text form of a square from its characters.
    pub fn from_chars(cs: &[char]) -> (r: Result<Square, ()>)
        ensures
            r == (match parse_square_text(cs@) {
                Some(sq) => Ok::<Square, ()>(sq),
                None => Err(()),
            }),
    {
        if cs.len() != 2 {
            return Err(());
        }
        let file = match File::from_char(cs[0]) {
            Ok(f) => f,
            Err(_) => return Err(()),
        };
        let rank = match Rank::from_char(cs[1]) {
            Ok(r) => r,
            Err(_) => return Err(()),
        };
        Ok(Square::from_parts(rank, file))
    }
}

impl From<(Rank, File)> for Square {
    fn from(rf: (Rank, File)) -> Square {
        Square::from_parts(rf.0, rf.1)
    }
}

impl vstd::std_specs::convert::FromSpecImpl<(Rank, File)> for Square {
    open spec fn obeys_from_spec() -> bool {
        true
    }

    open spec fn from_spec(rf: (Rank, File)) -> Square {
        Square::from_rank_file(rf.0, rf.1)
    }
}

impl TryFrom<(u8, u8)> for Square {
    type Error = ();

    fn try_from(coords: (u8, u8)) -> Result<Square, ()> {
        match Square::from_coords(coords.0, coords.1) {
            Some(sq) => Ok(sq),
            None => Err(()),
        }
    }
}

impl vstd::std_specs::convert::TryFromSpecImpl<(u8, u8)> for Square {
    open spec fn obeys_try_from_spec() -> bool {
        true
    }

    open spec fn try_from_spec(coords: (u8, u8)) -> Result<Square, ()> {
        match square_at(coords.0 as int, coords.1 as int) {
            Some(sq) => Ok(sq),
            None => Err(()),
        }
    }
}

impl TryFrom<(i8, i8)> for Square {
    type Error = ();

    fn try_from(coords: (i8, i8)) -> Result<Square, ()> {
        if coords.0 >= 0 && coords.1 >= 0 {
            match Square::from_coords(coords.0 as u8, coords.1 as u8) {
                Some(sq) => Ok(sq),
                None => Err(()),
            }
        } else {
            Err(())
        }
    }
}

impl vstd::std_specs::convert::TryFromSpecImpl<(i8, i8)> for Square {
    open spec fn obeys_try_from_spec() -> bool {
        true
    }

    open spec fn try_from_spec(coords: (i8, i8)) -> Result<Square, ()> {
        match square_at(coords.0 as int, coords.1 as int) {
            Some(sq) => Ok(sq),
            None => Err(()),
        }
    }
}

impl TryFrom<u8> for Square {
    type Error = ();

    fn try_from(i: u8) -> Result<Square, ()> {
        match Square::try_from_index(i) {
            Some(sq) => Ok(sq),
            None => Err(()),
        }
    }
}

impl vstd::std_specs::convert::TryFromSpecImpl<u8> for Square {
    open spec fn obeys_try_from_spec() -> bool {
        true
    }

    open spec fn try_from_spec(i: u8) -> Result<Square, ()> {
        if i < 64 {
            Ok(Square::from_int(i as int))
        } else {
            Err(())
        }
    }
}

impl TryFrom<i8> for Square {
    type Error = ();

    fn try_from(i: i8) -> Result<Square, ()> {
        if i >= 0 {
            match Square::try_from_index(i as u8) {
                Some(sq) => Ok(sq),
                None => Err(()),
            }
        } else {
            Err(())
        }
    }
}

impl vstd::std_specs::convert::TryFromSpecImpl<i8> for Square {
    open spec fn obeys_try_from_spec() -> bool {
        true
    }

    open spec fn try_from_spec(i: i8) -> Result<Square, ()> {
        if 0 <= i < 64 {
            Ok(Square::from_int(i as int))
        } else {
            Err(())
        }
    }
}

/// `square_at` gives the square on exactly the rank and file asked for, and every square
/// stands at its own rank and file.
pub proof fn lemma_square_at(r: int, c: int, sq: Square)
    ensures
        square_at(r, c) matches Some(s) ==> s.row() == r && s.col() == c && 0 <= r < 8 && 0 <= c
            < 8,
        square_at(sq.row(), sq.col()) == Some(sq),
        0 <= sq.row() < 8,
        0 <= sq.col() < 8,
{
    if 0 <= r < 8 && 0 <= c < 8 {
        let k = r * 8 + c;
        Square::lemma_from_int(k);
        vstd::arithmetic::div_mod::lemma_fundamental_div_mod_converse(k, 8, r, c);
    }
    Square::lemma_index(sq);
    vstd::arithmetic::div_mod::lemma_fundamental_div_mod(sq.idx(), 8);
}

/// Square indices and square texts are bijections: every index 0..63 names a square whose index
/// is that number, every square's text reads back as that square, and every text that reads as
/// a square is that square's text.
pub proof fn lemma_square_bijection(i: int, sq: Square, t: Seq<char>)
    ensures
        0 <= i < 64 ==> Square::from_int(i).idx() == i,
        Square::from_int(sq.idx()) == sq,
        parse_square_text(square_text(sq)) == Some(sq),
        parse_square_text(t) is Some ==> square_text(parse_square_text(t)->0) == t,
{
    if 0 <= i < 64 {
        Square::lemma_from_int(i);
    }
    Square::lemma_index(sq);
    let r = sq.rank_of();
    let f = sq.file_of();
    Rank::lemma_int(sq.row());
    File::lemma_int(sq.col());
    Rank::lemma_index(r);
    File::lemma_index(f);
    assert(sq.idx() == sq.row() * 8 + sq.col());
    assert(square_text(sq) =~= seq![f.letter(), r.digit()]);
    if parse_square_text(t) is Some {
        let rr = Rank::from_digit_spec(t[1])->0;
        let ff = File::from_letter_spec(t[0])->0;
        let q = Square::from_rank_file(rr, ff);
        Rank::lemma_index(rr);
        File::lemma_index(ff);
        let k = rr as int * 8 + ff as int;
        Square::lemma_from_int(k);
        vstd::arithmetic::div_mod::lemma_fundamental_div_mod_converse(k, 8, rr as int, ff as int);
        Rank::lemma_int(rr as int);
        File::lemma_int(ff as int);
        assert(q.rank_of() == rr);
        assert(q.file_of() == ff);
        assert(rr.digit() == t[1]);
        assert(ff.letter() == t[0]);
        assert(square_text(q) =~= t);
    }
}

impl Rank {
    /// The rank with the given number counted from 0; meaningful for 0..7.
    pub open spec fn from_int(i: int) -> Rank {
        if i == 0 {
            Rank::R1
        } else if i == 1 {
            Rank::R2
        } else if i == 2 {
            Rank::R3
        } else if i == 3 {
            Rank::R4
        } else if i == 4 {
            Rank::R5
        } else if i == 5 {
            Rank::R6
        } else if i == 6 {
            Rank::R7
        } else {
            Rank::R8
        }
    }

    /// The digit that names the rank.
    pub open spec fn digit(self) -> char {
        match self {
            Rank::R1 => '1',
            Rank::R2 => '2',
            Rank::R3 => '3',
            Rank::R4 => '4',
            Rank::R5 => '5',
            Rank::R6 => '6',
            Rank::R7 => '7',
            Rank::R8 => '8',
        }
    }

    pub open spec fn from_digit_spec(c: char) -> Option<Rank> {
        if c == '1' {
            Some(Rank::R1)
        } else if c == '2' {
            Some(Rank::R2)
        } else if c == '3' {
            Some(Rank::R3)
        } else if c == '4' {
            Some(Rank::R4)
        } else if c == '5' {
            Some(Rank::R5)
        } else if c == '6' {
            Some(Rank::R6)
        } else if c == '7' {
            Some(Rank::R7)
        } else if c == '8' {
            Some(Rank::R8)
        } else {
            None
        }
    }

    pub proof fn lemma_int(i: int)
        requires
            0 <= i < 8,
        ensures
            Rank::from_int(i) as int == i,
    {
    }

    pub proof fn lemma_index(r: Rank)
        ensures
            0 <= (r as int) < 8,
            Rank::from_int(r as int) == r,
            Rank::from_digit_spec(r.digit()) == Some(r),
    {
    }

    pub fn index(self) -> (i: u8)
        ensures
            i == self as int,
            i < 8,
    {
        self as u8
    }

    pub fn from_index(i: u8) -> (r: Rank)
        requires
            i < 8,
        ensures
            r == Rank::from_int(i as int),
            r as int == i,
    {
        match i {
            0 => Rank::R1,
            1 => Rank::R2,
            2 => Rank::R3,
            3 => Rank::R4,
            4 => Rank::R5,
            5 => Rank::R6,
            6 => Rank::R7,
            _ => Rank::R8,
        }
    }

    pub fn to_char(self) -> (c: char)
        ensures
            c == self.digit(),
    {
        match self {
            Rank::R1 => '1',
            Rank::R2 => '2',
            Rank::R3 => '3',
            Rank::R4 => '4',
            Rank::R5 => '5',
            Rank::R6 => '6',
            Rank::R7 => '7',
            Rank::R8 => '8',
        }
    }

    pub fn from_char(c: char) -> (r: Result<Rank, ()>)
        ensures
            r == (match Rank::from_digit_spec(c) {
                Some(x) => Ok::<Rank, ()>(x),
                None => Err(()),
            }),
    {
        match c {
            '1' => Ok(Rank::R1),
            '2' => Ok(Rank::R2),
            '3' => Ok(Rank::R3),
            '4' => Ok(Rank::R4),
            '5' => Ok(Rank::R5),
            '6' => Ok(Rank::R6),
            '7' => Ok(Rank::R7),
            '8' => Ok(Rank::R8),
            _ => Err(()),
        }
    }
}

impl TryFrom<u8> for Rank {
    type Error = ();

    fn try_from(i: u8) -> Result<Rank, ()> {
        if i < 8 {
            Ok(Rank::from_index(i))
        } else {
            Err(())
        }
    }
}

impl vstd::std_specs::convert::TryFromSpecImpl<u8> for Rank {
    open spec fn obeys_try_from_spec() -> bool {
        true
    }

    open spec fn try_from_spec(i: u8) -> Result<Rank, ()> {
        if i < 8 {
            Ok(Rank::from_int(i as int))
        } else {
            Err(())
        }
    }
}

impl TryFrom<char> for Rank {
    type Error = ();

    fn try_from(c: char) -> Result<Rank, ()> {
        Rank::from_char(c)
    }
}

impl vstd::std_specs::convert::TryFromSpecImpl<char> for Rank {
    open spec fn obeys_try_from_spec() -> bool {
        true
    }

    open spec fn try_from_spec(c: char) -> Result<Rank, ()> {
        match Rank::from_digit_spec(c) {
            Some(x) => Ok(x),
            None => Err(()),
        }
    }
}

impl File {
    /// The file with the given number counted from 0; meaningful for 0..7.
    pub open spec fn from_int(i: int) -> File {
        if i == 0 {
            File::A
        } else if i == 1 {
            File::B
        } else if i == 2 {
            File::C
        } else if i == 3 {
            File::D
        } else if i == 4 {
            File::E
        } else if i == 5 {
            File::F
        } else if i == 6 {
            File::G
        } else {
            File::H
        }
    }

    /// The lower-case letter that names the file.
    pub open spec fn letter(self) -> char {
        match self {
            File::A => 'a',
            File::B => 'b',
            File::C => 'c',
            File::D => 'd',
            File::E => 'e',
            File::F => 'f',
            File::G => 'g',
            File::H => 'h',
        }
    }

    pub open spec fn from_letter_spec(c: char) -> Option<File> {
        if c == 'a' {
            Some(File::A)
        } else if c == 'b' {
            Some(File::B)
        } else if c == 'c' {
            Some(File::C)
        } else if c == 'd' {
            Some(File::D)
        } else if c == 'e' {
            Some(File::E)
        } else if c == 'f' {
            Some(File::F)
        } else if c == 'g' {
            Some(File::G)
        } else if c == 'h' {
            Some(File::H)
        } else {
            None
        }
    }

    pub proof fn lemma_int(i: int)
        requires
            0 <= i < 8,
        ensures
            File::from_int(i) as int == i,
    {
    }

    pub proof fn lemma_index(f: File)
        ensures
            0 <= (f as int) < 8,
            File::from_int(f as int) == f,
            File::from_letter_spec(f.letter()) == Some(f),
    {
    }

    pub fn index(self) -> (i: u8)
        ensures
            i == self as int,
            i < 8,
    {
        self as u8
    }

    pub fn from_index(i: u8) -> (r: File)
        requires
            i < 8,
        ensures
            r == File::from_int(i as int),
            r as int == i,
    {
        match i {
            0 => File::A,
            1 => File::B,
            2 => File::C,
            3 => File::D,
            4 => File::E,
            5 => File::F,
            6 => File::G,
            _ => File::H,
        }
    }

    pub fn to_char(self) -> (c: char)
        ensures
            c == self.letter(),
    {
        match self {
            File::A => 'a',
            File::B => 'b',
            File::C => 'c',
            File::D => 'd',
            File::E => 'e',
            File::F => 'f',
            File::G => 'g',
            File::H => 'h',
        }
    }

    pub fn from_char(c: char) -> (r: Result<File, ()>)
        ensures
            r == (match File::from_letter_spec(c) {
                Some(x) => Ok::<File, ()>(x),
                None => Err(()),
            }),
    {
        match c {
            'a' => Ok(File::A),
            'b' => Ok(File::B),
            'c' => Ok(File::C),
            'd' => Ok(File::D),
            'e' => Ok(File::E),
            'f' => Ok(File::F),
            'g' => Ok(File::G),
            'h' => Ok(File::H),
            _ => Err(()),
        }
    }
}

impl TryFrom<u8> for File {
    type Error = ();

    fn try_from(i: u8) -> Result<File, ()> {
        if i < 8 {
            Ok(File::from_index(i))
        } else {
            Err(())
        }
    }
}

impl vstd::std_specs::convert::TryFromSpecImpl<u8> for File {
    open spec fn obeys_try_from_spec() -> bool {
        true
    }

    open spec fn try_from_spec(i: u8) -> Result<File, ()> {
        if i < 8 {
            Ok(File::from_int(i as int))
        } else {
            Err(())
        }
    }
}

impl TryFrom<char> for File {
    type Error = ();

    fn try_from(c: char) -> Result<File, ()> {
        File::from_char(c)
    }
}

impl vstd::std_specs::convert::TryFromSpecImpl<char> for File {
    open spec fn obeys_try_from_spec() -> bool {
        true
    }

    open spec fn try_from_spec(c: char) -> Result<File, ()> {
        match File::from_letter_spec(c) {
            Some(x) => Ok(x),
            None => Err(()),
        }
    }
}

impl View for SquareIter {
    type V = Seq<Square>;

    /// The squares still to come, in order.
    closed spec fn view(&self) -> Seq<Square> {
        Seq::new((64 - self.index) as nat, |i: int| Square::from_int(self.index + i))
    }
}

impl SquareIter {
    #[verifier::type_invariant]
    spec fn inv(self) -> bool {
        self.index <= 64
    }

    /// The next square, if any is left.
    pub fn next(&mut self) -> (r: Option<Square>)
        ensures
            old(self)@.len() == 0 ==> r is None && final(self)@ == old(self)@,
            old(self)@.len() > 0 ==> r == Some(old(self)@[0]) && final(self)@ == old(self)@.drop_first(),
    {
        proof {
            use_type_invariant(&*self);
        }
        if self.index < 64 {
            let sq = Square::from_index(self.index);
            self.index = self.index + 1;
            assert(self@ =~= old(self)@.drop_first());
            Some(sq)
        } else {
            None
        }
    }

    /// How many squares are left.
    pub fn len(&self) -> (n: usize)
        ensures
            n == self@.len(),
    {
        proof {
            use_type_invariant(self);
        }
        64usize - (self.index as usize)
    }

    /// How many squares are left, consuming the walk.
    pub fn count(self) -> (n: usize)
        ensures
            n == self@.len(),
    {
        self.len()
    }

    /// Skips `n` squares and hands out the one after them, if any.
    pub fn nth(&mut self, n: usize) -> (r: Option<Square>)
        ensures
            n < old(self)@.len() ==> r == Some(old(self)@[n as int]) && final(self)@ == old(
                self,
            )@.skip(n + 1),
            n >= old(self)@.len() ==> r is None && final(self)@.len() == 0,
    {
        proof {
            use_type_invariant(&*self);
        }
        let left = 64usize - (self.index as usize);
        if n < left {
            let i = self.index + n as u8;
            self.index = i + 1;
            assert(self@ =~= old(self)@.skip(n + 1));
            Some(Square::from_index(i))
        } else {
            self.index = 64;
            assert(self@.len() == 0);
            None
        }
    }

    /// The final square, if any is left, consuming the walk.
    pub fn last(self) -> (r: Option<Square>)
        ensures
            self@.len() == 0 ==> r is None,
            self@.len() > 0 ==> r == Some(self@.last()),
    {
        proof {
            use_type_invariant(&self);
        }
        if self.index < 64 {
            proof {
                reveal(Square::from_int);
            }
            Some(Square::H8)
        } else {
            None
        }
    }
}

} // verus!
