use vstd::prelude::*;

verus! {

/// The two sides.
#[derive(Copy, Clone, Debug, PartialEq, Eq, Structural)]
pub enum Color {
    White,
    Black,
}

/// The six kinds of piece.
#[derive(Copy, Clone, Debug, PartialEq, Eq, Structural)]
pub enum PieceType {
    Pawn,
    Rook,
    Knight,
    Bishop,
    Queen,
    King,
}

/// A piece of one side.
#[derive(Copy, Clone, Debug, PartialEq, Eq, Structural)]
pub enum SidePiece {
    WPawn,
    WRook,
    WKnight,
    WBishop,
    WQueen,
    WKing,
    BPawn,
    BRook,
    BKnight,
    BBishop,
    BQueen,
    BKing,
}

/// What a square holds.
#[derive(Copy, Clone, Debug, PartialEq, Eq, Structural)]
pub enum BoardPiece {
    Empty,
    Piece(SidePiece),
}

impl Color {
    pub open spec fn other(self) -> Color {
        match self {
            Color::White => Color::Black,
            Color::Black => Color::White,
        }
    }

    /// The other side.
    #[verifier::when_used_as_spec(other)]
    pub fn opposite(self) -> (r: Color)
        ensures
            r == self.other(),
    {
        match self {
            Color::White => Color::Black,
            Color::Black => Color::White,
        }
    }

    /// Taking the other side twice gives the side back.
    pub proof fn lemma_opposite_involution(c: Color)
        ensures
            c.other().other() == c,
            c.other() != c,
    {
    }
}

impl core::ops::Not for Color {
    type Output = Color;

    fn not(self) -> Color {
        self.opposite()
    }
}

impl vstd::std_specs::ops::NotSpecImpl for Color {
    open spec fn obeys_not_spec() -> bool {
        true
    }

    open spec fn not_req(self) -> bool {
        true
    }

    open spec fn not_spec(self) -> Color {
        self.other()
    }
}

impl PieceType {
    /// The lower-case letter of the kind, as move texts write a promotion.
    pub open spec fn letter(self) -> char {
        match self {
            PieceType::Pawn => 'p',
            PieceType::Rook => 'r',
            PieceType::Knight => 'n',
            PieceType::Bishop => 'b',
            PieceType::Queen => 'q',
            PieceType::King => 'k',
        }
    }

    /// The kind that a lower-case letter names, if any.
    pub open spec fn from_letter_spec(c: char) -> Option<PieceType> {
        if c == 'p' {
            Some(PieceType::Pawn)
        } else if c == 'r' {
            Some(PieceType::Rook)
        } else if c == 'n' {
            Some(PieceType::Knight)
        } else if c == 'b' {
            Some(PieceType::Bishop)
        } else if c == 'q' {
            Some(PieceType::Queen)
        } else if c == 'k' {
            Some(PieceType::King)
        } else {
            None
        }
    }

    pub fn to_char(self) -> (c: char)
        ensures
            c == self.letter(),
    {
        match self {
            PieceType::Pawn => 'p',
            PieceType::Rook => 'r',
            PieceType::Knight => 'n',
            PieceType::Bishop => 'b',
            PieceType::Queen => 'q',
            PieceType::King => 'k',
        }
    }

    pub fn from_char(c: char) -> (r: Result<PieceType, ()>)
        ensures
            r == (match PieceType::from_letter_spec(c) {
                Some(k) => Ok::<PieceType, ()>(k),
                None => Err(()),
            }),
    {
        match c {
            'p' => Ok(PieceType::Pawn),
            'r' => Ok(PieceType::Rook),
            'n' => Ok(PieceType::Knight),
            'b' => Ok(PieceType::Bishop),
            'q' => Ok(PieceType::Queen),
            'k' => Ok(PieceType::King),
            _ => Err(()),
        }
    }
}

impl TryFrom<char> for PieceType {
    type Error = ();

    fn try_from(c: char) -> Result<PieceType, ()> {
        PieceType::from_char(c)
    }
}

impl vstd::std_specs::convert::TryFromSpecImpl<char> for PieceType {
    open spec fn obeys_try_from_spec() -> bool {
        true
    }

    open spec fn try_from_spec(c: char) -> Result<PieceType, ()> {
        match PieceType::from_letter_spec(c) {
            Some(k) => Ok(k),
            None => Err(()),
        }
    }
}

impl SidePiece {
    pub open spec fn kind(self) -> PieceType {
        match self {
            SidePiece::WPawn | SidePiece::BPawn => PieceType::Pawn,
            SidePiece::WRook | SidePiece::BRook => PieceType::Rook,
            SidePiece::WKnight | SidePiece::BKnight => PieceType::Knight,
            SidePiece::WBishop | SidePiece::BBishop => PieceType::Bishop,
            SidePiece::WQueen | SidePiece::BQueen => PieceType::Queen,
            SidePiece::WKing | SidePiece::BKing => PieceType::King,
        }
    }

    pub open spec fn side(self) -> Color {
        match self {
            SidePiece::WPawn | SidePiece::WRook | SidePiece::WKnight | SidePiece::WBishop
            | SidePiece::WQueen | SidePiece::WKing => Color::White,
            _ => Color::Black,
        }
    }

    /// The piece of the given kind and side.
    pub open spec fn of(kind: PieceType, side: Color) -> SidePiece {
        match side {
            Color::White => match kind {
                PieceType::Pawn => SidePiece::WPawn,
                PieceType::Rook => SidePiece::WRook,
                PieceType::Knight => SidePiece::WKnight,
                PieceType::Bishop => SidePiece::WBishop,
                PieceType::Queen => SidePiece::WQueen,
                PieceType::King => SidePiece::WKing,
            },
            Color::Black => match kind {
                PieceType::Pawn => SidePiece::BPawn,
                PieceType::Rook => SidePiece::BRook,
                PieceType::Knight => SidePiece::BKnight,
                PieceType::Bishop => SidePiece::BBishop,
                PieceType::Queen => SidePiece::BQueen,
                PieceType::King => SidePiece::BKing,
            },
        }
    }

    /// The notation letter: upper case for White, lower case for Black.
    pub open spec fn letter(self) -> char {
        match self {
            SidePiece::WPawn => 'P',
            SidePiece::WRook => 'R',
            SidePiece::WKnight => 'N',
            SidePiece::WBishop => 'B',
            SidePiece::WQueen => 'Q',
            SidePiece::WKing => 'K',
            SidePiece::BPawn => 'p',
            SidePiece::BRook => 'r',
            SidePiece::BKnight => 'n',
            SidePiece::BBishop => 'b',
            SidePiece::BQueen => 'q',
            SidePiece::BKing => 'k',
        }
    }

    /// The piece that a notation letter names, if any.
    pub open spec fn from_letter_spec(c: char) -> Option<SidePiece> {
        if c == 'K' {
            Some(SidePiece::WKing)
        } else if c == 'Q' {
            Some(SidePiece::WQueen)
        } else if c == 'R' {
            Some(SidePiece::WRook)
        } else if c == 'B' {
            Some(SidePiece::WBishop)
        } else if c == 'N' {
            Some(SidePiece::WKnight)
        } else if c == 'P' {
            Some(SidePiece::WPawn)
        } else if c == 'k' {
            Some(SidePiece::BKing)
        } else if c == 'q' {
            Some(SidePiece::BQueen)
        } else if c == 'r' {
            Some(SidePiece::BRook)
        } else if c == 'b' {
            Some(SidePiece::BBishop)
        } else if c == 'n' {
            Some(SidePiece::BKnight)
        } else if c == 'p' {
            Some(SidePiece::BPawn)
        } else {
            None
        }
    }

    /// A piece is determined by its kind and side, and its letter names it back.
    pub proof fn lemma_parts(p: SidePiece)
        ensures
            SidePiece::of(p.kind(), p.side()) == p,
            SidePiece::from_letter_spec(p.letter()) == Some(p),
    {
    }

    pub fn piece_type(self) -> (r: PieceType)
        ensures
            r == self.kind(),
    {
        match self {
            SidePiece::WPawn | SidePiece::BPawn => PieceType::Pawn,
            SidePiece::WRook | SidePiece::BRook => PieceType::Rook,
            SidePiece::WKnight | SidePiece::BKnight => PieceType::Knight,
            SidePiece::WBishop | SidePiece::BBishop => PieceType::Bishop,
            SidePiece::WQueen | SidePiece::BQueen => PieceType::Queen,
            SidePiece::WKing | SidePiece::BKing => PieceType::King,
        }
    }

    pub fn color(self) -> (r: Color)
        ensures
            r == self.side(),
    {
        match self {
            SidePiece::WPawn | SidePiece::WRook | SidePiece::WKnight | SidePiece::WBishop
            | SidePiece::WQueen | SidePiece::WKing => Color::White,
            _ => Color::Black,
        }
    }

    /// The piece of the given kind and side.
    pub fn new(piece_type: PieceType, color: Color) -> (r: SidePiece)
        ensures
            r == SidePiece::of(piece_type, color),
            r.kind() == piece_type,
            r.side() == color,
    {
        match color {
            Color::White => match piece_type {
                PieceType::Pawn => SidePiece::WPawn,
                PieceType::Rook => SidePiece::WRook,
                PieceType::Knight => SidePiece::WKnight,
                PieceType::Bishop => SidePiece::WBishop,
                PieceType::Queen => SidePiece::WQueen,
                PieceType::King => SidePiece::WKing,
            },
            Color::Black => match piece_type {
                PieceType::Pawn => SidePiece::BPawn,
                PieceType::Rook => SidePiece::BRook,
                PieceType::Knight => SidePiece::BKnight,
                PieceType::Bishop => SidePiece::BBishop,
                PieceType::Queen => SidePiece::BQueen,
                PieceType::King => SidePiece::BKing,
            },
        }
    }

    /// The notation letter of the piece.
    pub fn to_letter(self) -> (c: char)
        ensures
            c == self.letter(),
    {
        match self {
            SidePiece::WPawn => 'P',
            SidePiece::WRook => 'R',
            SidePiece::WKnight => 'N',
            SidePiece::WBishop => 'B',
            SidePiece::WQueen => 'Q',
            SidePiece::WKing => 'K',
            SidePiece::BPawn => 'p',
            SidePiece::BRook => 'r',
            SidePiece::BKnight => 'n',
            SidePiece::BBishop => 'b',
            SidePiece::BQueen => 'q',
            SidePiece::BKing => 'k',
        }
    }

    /// The piece that a notation letter names.
    pub fn from_letter(c: char) -> (r: Result<SidePiece, ()>)
        ensures
            r == (match SidePiece::from_letter_spec(c) {
                Some(p) => Ok::<SidePiece, ()>(p),
                None => Err(()),
            }),
    {
        match c {
            'K' => Ok(SidePiece::WKing),
            'Q' => Ok(SidePiece::WQueen),
            'R' => Ok(SidePiece::WRook),
            'B' => Ok(SidePiece::WBishop),
            'N' => Ok(SidePiece::WKnight),
            'P' => Ok(SidePiece::WPawn),
            'k' => Ok(SidePiece::BKing),
            'q' => Ok(SidePiece::BQueen),
            'r' => Ok(SidePiece::BRook),
            'b' => Ok(SidePiece::BBishop),
            'n' => Ok(SidePiece::BKnight),
            'p' => Ok(SidePiece::BPawn),
            _ => Err(()),
        }
    }

    /// The chess symbol of the piece.
    pub open spec fn symbol(self) -> char {
        match self {
            SidePiece::WPawn => '\u{2659}',
            SidePiece::WRook => '\u{2656}',
            SidePiece::WKnight => '\u{2658}',
            SidePiece::WBishop => '\u{2657}',
            SidePiece::WQueen => '\u{2655}',
            SidePiece::WKing => '\u{2654}',
            SidePiece::BPawn => '\u{265F}',
            SidePiece::BRook => '\u{265C}',
            SidePiece::BKnight => '\u{265E}',
            SidePiece::BBishop => '\u{265D}',
            SidePiece::BQueen => '\u{265B}',
            SidePiece::BKing => '\u{265A}',
        }
    }

    /// The display glyph of the piece.
    pub fn glyph(self) -> (c: char)
        ensures
            c == self.symbol(),
    {
        match self {
            SidePiece::WPawn => '\u{2659}',
            SidePiece::WRook => '\u{2656}',
            SidePiece::WKnight => '\u{2658}',
            SidePiece::WBishop => '\u{2657}',
            SidePiece::WQueen => '\u{2655}',
            SidePiece::WKing => '\u{2654}',
            SidePiece::BPawn => '\u{265F}',
            SidePiece::BRook => '\u{265C}',
            SidePiece::BKnight => '\u{265E}',
            SidePiece::BBishop => '\u{265D}',
            SidePiece::BQueen => '\u{265B}',
            SidePiece::BKing => '\u{265A}',
        }
    }
}

impl From<(PieceType, Color)> for SidePiece {
    fn from(parts: (PieceType, Color)) -> SidePiece {
        SidePiece::new(parts.0, parts.1)
    }
}

impl vstd::std_specs::convert::FromSpecImpl<(PieceType, Color)> for SidePiece {
    open spec fn obeys_from_spec() -> bool {
        true
    }

    open spec fn from_spec(parts: (PieceType, Color)) -> SidePiece {
        SidePiece::of(parts.0, parts.1)
    }
}

impl TryFrom<char> for SidePiece {
    type Error = ();

    fn try_from(c: char) -> Result<SidePiece, ()> {
        SidePiece::from_letter(c)
    }
}

impl vstd::std_specs::convert::TryFromSpecImpl<char> for SidePiece {
    open spec fn obeys_try_from_spec() -> bool {
        true
    }

    open spec fn try_from_spec(c: char) -> Result<SidePiece, ()> {
        match SidePiece::from_letter_spec(c) {
            Some(p) => Ok(p),
            None => Err(()),
        }
    }
}

impl BoardPiece {
    /// The occupied cell holding a piece of the given kind and side.
    pub fn piece(piece_type: PieceType, color: Color) -> (r: BoardPiece)
        ensures
            r == BoardPiece::Piece(SidePiece::of(piece_type, color)),
    {
        BoardPiece::Piece(SidePiece::new(piece_type, color))
    }
}

} // verus!
