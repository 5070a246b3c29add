use vstd::prelude::*;

use crate::piece::{BoardPiece, PieceType};
use crate::position::{parse_square_text, square_text, File, Square};
use crate::text::{chars_of, push_char};

verus! {

/// What kind of move a move is; only a pawn promotes, to the kind it carries.
#[derive(Clone, Copy, Debug, PartialEq, Eq, Structural)]
pub enum MoveType {
    Normal,
    EnPassant,
    DoublePush,
    Castle,
    Promotion(PieceType),
}

/// A move from one square to another, of some kind.
#[derive(Clone, Copy, Debug, PartialEq, Eq, Structural)]
pub struct Move {
    pub from: Square,
    pub to: Square,
    pub move_type: MoveType,
}

/// The four castling rights, one bit each: White king side (8), White queen side (4),
/// Black king side (2), Black queen side (1).
#[derive(Clone, Copy, Debug, PartialEq, Eq, Structural)]
pub struct CastlingRights(u8);

/// What a move changed, enough to take it back.
#[derive(Clone, Copy, Debug, PartialEq, Eq, Structural)]
pub struct StateChange {
    pub last_move: Move,
    pub captured: BoardPiece,
    pub last_ep_file: Option<File>,
    pub last_castle_rights: CastlingRights,
}

impl Move {
    pub fn new(from: Square, to: Square, move_type: MoveType) -> (r: Move)
        ensures
            r == (Move { from, to, move_type }),
    {
        Move { from, to, move_type }
    }

    pub open spec fn normal_spec(from: Square, to: Square) -> Move {
        Move { from, to, move_type: MoveType::Normal }
    }

    /// A move of kind `Normal`.
    pub fn normal(from: Square, to: Square) -> (r: Move)
        ensures
            r == (Move { from, to, move_type: MoveType::Normal }),
    {
        Move::new(from, to, MoveType::Normal)
    }

    pub fn from(self) -> (r: Square)
        ensures
            r == self.from,
    {
        self.from
    }

    pub fn to(self) -> (r: Square)
        ensures
            r == self.to,
    {
        self.to
    }

    pub fn move_type(self) -> (r: MoveType)
        ensures
            r == self.move_type,
    {
        self.move_type
    }

    /// The text form of the move, such as `e2e4` or `e7e8q`.
    pub fn to_string(self) -> (r: String)
        ensures
            r@ == move_text(self),
    {
        let mut s = String::new();
        push_char(&mut s, self.from.file().to_char());
        push_char(&mut s, self.from.rank().to_char());
        push_char(&mut s, self.to.file().to_char());
        push_char(&mut s, self.to.rank().to_char());
        if let MoveType::Promotion(k) = self.move_type {
            push_char(&mut s, k.to_char());
        }
        assert(s@ =~= move_text(self));
        s
    }

    /// Reads the text form of a move.
    pub fn from_str(s: &str) -> (r: Result<Move, ()>)
        ensures
            r == (match parse_move_text(s@) {
                Some(mv) => Ok::<Move, ()>(mv),
                None => Err(()),
            }),
    {
        let cs = chars_of(s);
        Move::from_chars(cs.as_slice())
    }

    /// Reads the text form of a move from its characters.
    pub fn from_chars(cs: &[char]) -> (r: Result<Move, ()>)
        ensures
            r == (match parse_move_text(cs@) {
                Some(mv) => Ok::<Move, ()>(mv),
                None => Err(()),
            }),
    {
        if cs.len() != 4 && cs.len() != 5 {
            return Err(());
        }
        let from = match Square::from_chars(&cs[0..2]) {
            Ok(sq) => sq,
            Err(_) => return Err(()),
        };
        let to = match Square::from_chars(&cs[2..4]) {
            Ok(sq) => sq,
            Err(_) => return Err(()),
        };
        let move_type = if cs.len() == 5 {
            match PieceType::from_char(cs[4]) {
                Ok(k) => MoveType::Promotion(k),
                Err(_) => return Err(()),
            }
        } else {
            MoveType::Normal
        };
        Ok(Move { from, to, move_type })
    }
}

/// The text form of a move: the two squares, then the letter of the promotion kind if any.
pub open spec fn move_text(mv: Move) -> Seq<char> {
    square_text(mv.from) + square_text(mv.to) + match mv.move_type {
        MoveType::Promotion(k) => seq![k.letter()],
        _ => Seq::empty(),
    }
}

/// The move that a text form names: four characters for the two squares, then optionally the
/// letter of a promotion kind. The text alone gives only `Normal` and promotion moves.
pub open spec fn parse_move_text(t: Seq<char>) -> Option<Move> {
    if (t.len() == 4 || t.len() == 5) && parse_square_text(t.subrange(0, 2)) is Some
        && parse_square_text(t.subrange(2, 4)) is Some && (t.len() == 5
        ==> PieceType::from_letter_spec(t[4]) is Some) {
        Some(
            Move {
                from: parse_square_text(t.subrange(0, 2))->0,
                to: parse_square_text(t.subrange(2, 4))->0,
                move_type: if t.len() == 5 {
                    MoveType::Promotion(PieceType::from_letter_spec(t[4])->0)
                } else {
                    MoveType::Normal
                },
            },
        )
    } else {
        None
    }
}

/// The four flags as the text form writes them: `K`, `Q`, `k`, `q` in that order, `-` for none.
pub open spec fn castling_text(wk: bool, wq: bool, bk: bool, bq: bool) -> Seq<char> {
    if !wk && !wq && !bk && !bq {
        seq!['-']
    } else {
        (if wk { seq!['K'] } else { Seq::empty() }) + (if wq { seq!['Q'] } else { Seq::empty() })
            + (if bk { seq!['k'] } else { Seq::empty() }) + (if bq { seq!['q'] } else { Seq::empty() })
    }
}

pub open spec fn is_castling_letter(c: char) -> bool {
    c == 'K' || c == 'Q' || c == 'k' || c == 'q'
}

/// The flags that a text form gives: `-` for none, or one to four of the letters `K`, `Q`, `k`, `q`
/// in any order, each letter setting its flag.
pub open spec fn parse_castling_text(s: Seq<char>) -> Option<(bool, bool, bool, bool)> {
    if s == seq!['-'] {
        Some((false, false, false, false))
    } else if 1 <= s.len() <= 4 && forall|i: int| 0 <= i < s.len() ==> is_castling_letter(#[trigger] s[i]) {
        Some((s.contains('K'), s.contains('Q'), s.contains('k'), s.contains('q')))
    } else {
        None
    }
}

/// A sequence with one more element contains what it contained, and that element.
pub proof fn lemma_push_contains<A>(t: Seq<A>, c: A, x: A)
    ensures
        t.push(c).contains(x) == (t.contains(x) || c == x),
{
    if t.contains(x) {
        let j = choose|j: int| 0 <= j < t.len() && t[j] == x;
        assert(t.push(c)[j] == x);
    }
    if c == x {
        assert(t.push(c)[t.len() as int] == x);
    }
    if t.push(c).contains(x) {
        let j = choose|j: int| 0 <= j < t.push(c).len() && t.push(c)[j] == x;
        if j < t.len() {
            assert(t[j] == x);
        }
    }
}

impl CastlingRights {
    #[verifier::type_invariant]
    spec fn inv(self) -> bool {
        self.0 < 16
    }

    pub closed spec fn wk(self) -> bool {
        self.0 & 8 != 0
    }

    pub closed spec fn wq(self) -> bool {
        self.0 & 4 != 0
    }

    pub closed spec fn bk(self) -> bool {
        self.0 & 2 != 0
    }

    pub closed spec fn bq(self) -> bool {
        self.0 & 1 != 0
    }

    /// The four flags: White king side, White queen side, Black king side, Black queen side.
    pub open spec fn flags(self) -> (bool, bool, bool, bool) {
        (self.wk(), self.wq(), self.bk(), self.bq())
    }

    /// The rights with the given flags.
    pub closed spec fn spec_new(wk: bool, wq: bool, bk: bool, bq: bool) -> CastlingRights {
        CastlingRights(
            ((if wk { 8int } else { 0int }) + (if wq { 4int } else { 0int }) + (if bk { 2int } else {
                0int
            }) + (if bq { 1int } else { 0int })) as u8,
        )
    }

    /// Rights with no flag set.
    pub closed spec fn none_spec() -> CastlingRights {
        CastlingRights(0)
    }

    /// The text form of these rights.
    pub open spec fn text(self) -> Seq<char> {
        castling_text(self.wk(), self.wq(), self.bk(), self.bq())
    }

    pub fn new(wk: bool, wq: bool, bk: bool, bq: bool) -> (r: CastlingRights)
        ensures
            r == CastlingRights::spec_new(wk, wq, bk, bq),
            r.flags() == (wk, wq, bk, bq),
    {
        let a: u8 = if wk { 8 } else { 0 };
        let b: u8 = if wq { 4 } else { 0 };
        let c: u8 = if bk { 2 } else { 0 };
        let d: u8 = if bq { 1 } else { 0 };
        let v: u8 = a | b | c | d;
        assert(v == a + b + c + d && v < 16 && (v & 8 != 0) == (a == 8) && (v & 4 != 0) == (b == 4) && (v & 2 != 0) == (c
            == 2) && (v & 1 != 0) == (d == 1)) by (bit_vector)
            requires
                a == 0 || a == 8,
                b == 0 || b == 4,
                c == 0 || c == 2,
                d == 0 || d == 1,
                v == a | b | c | d,
        ;
        CastlingRights(v)
    }

    pub fn none() -> (r: CastlingRights)
        ensures
            r == CastlingRights::none_spec(),
            r.flags() == (false, false, false, false),
    {
        let v: u8 = 0;
        assert(v & 8 == 0 && v & 4 == 0 && v & 2 == 0 && v & 1 == 0) by (bit_vector)
            requires
                v == 0,
        ;
        CastlingRights(v)
    }

    pub fn all() -> (r: CastlingRights)
        ensures
            r == CastlingRights::spec_new(true, true, true, true),
            r.flags() == (true, true, true, true),
    {
        CastlingRights::new(true, true, true, true)
    }

    pub fn white_king(self) -> (r: bool)
        ensures
            r == self.wk(),
    {
        self.0 & 0b1000 != 0
    }

    pub fn white_queen(self) -> (r: bool)
        ensures
            r == self.wq(),
    {
        self.0 & 0b0100 != 0
    }

    pub fn black_king(self) -> (r: bool)
        ensures
            r == self.bk(),
    {
        self.0 & 0b0010 != 0
    }

    pub fn black_queen(self) -> (r: bool)
        ensures
            r == self.bq(),
    {
        self.0 & 0b0001 != 0
    }

    /// Reads the text form: `-`, or one to four of the letters `K`, `Q`, `k`, `q`.
    pub fn from_str(s: &str) -> (r: Result<CastlingRights, ()>)
        ensures
            r == (match parse_castling_text(s@) {
                Some(f) => Ok::<CastlingRights, ()>(CastlingRights::spec_new(f.0, f.1, f.2, f.3)),
                None => Err(()),
            }),
    {
        let cs = chars_of(s);
        CastlingRights::from_chars(cs.as_slice())
    }

    /// Reads the text form from its characters.
    pub fn from_chars(s: &[char]) -> (r: Result<CastlingRights, ()>)
        ensures
            r == (match parse_castling_text(s@) {
                Some(f) => Ok::<CastlingRights, ()>(CastlingRights::spec_new(f.0, f.1, f.2, f.3)),
                None => Err(()),
            }),
    {
        if s.len() == 1 && s[0] == '-' {
            assert(s@ =~= seq!['-']);
            return Ok(CastlingRights::new(false, false, false, false));
        }
        assert(s@ != seq!['-']);
        if s.len() == 0 || s.len() > 4 {
            return Err(());
        }
        let mut wk = false;
        let mut wq = false;
        let mut bk = false;
        let mut bq = false;
        let mut i: usize = 0;
        while i < s.len()
            invariant
                i <= s.len(),
                s@ != seq!['-'],
                forall|j: int| 0 <= j < i ==> is_castling_letter(#[trigger] s@[j]),
                wk == s@.take(i as int).contains('K'),
                wq == s@.take(i as int).contains('Q'),
                bk == s@.take(i as int).contains('k'),
                bq == s@.take(i as int).contains('q'),
            decreases s.len() - i,
        {
            let c = s[i];
            assert(s@.take(i + 1) =~= s@.take(i as int).push(c));
            proof {
                lemma_push_contains(s@.take(i as int), c, 'K');
                lemma_push_contains(s@.take(i as int), c, 'Q');
                lemma_push_contains(s@.take(i as int), c, 'k');
                lemma_push_contains(s@.take(i as int), c, 'q');
            }
            if c == 'K' {
                wk = true;
            } else if c == 'Q' {
                wq = true;
            } else if c == 'k' {
                bk = true;
            } else if c == 'q' {
                bq = true;
            } else {
                assert(!is_castling_letter(s@[i as int]));
                return Err(());
            }
            i = i + 1;
        }
        assert(s@.take(s.len() as int) =~= s@);
        Ok(CastlingRights::new(wk, wq, bk, bq))
    }

    /// Rights are determined by their flags.
    proof fn lemma_rebuild(c: CastlingRights)
        requires
            c.0 < 16,
        ensures
            CastlingRights::spec_new(c.wk(), c.wq(), c.bk(), c.bq()) == c,
    {
        let x = c.0;
        let a: u8 = if x & 8 != 0 { 8 } else { 0 };
        let b: u8 = if x & 4 != 0 { 4 } else { 0 };
        let d: u8 = if x & 2 != 0 { 2 } else { 0 };
        let e: u8 = if x & 1 != 0 { 1 } else { 0 };
        assert(x == a + b + d + e) by (bit_vector)
            requires
                x < 16,
                a == (if x & 8 != 0 { 8u8 } else { 0u8 }),
                b == (if x & 4 != 0 { 4u8 } else { 0u8 }),
                d == (if x & 2 != 0 { 2u8 } else { 0u8 }),
                e == (if x & 1 != 0 { 1u8 } else { 0u8 }),
        ;
    }

    /// Appends the text form of these rights to `out`; the rights are the ones their flags give.
    pub fn push_text(self, out: &mut String)
        ensures
            final(out)@ == old(out)@ + self.text(),
            CastlingRights::spec_new(self.wk(), self.wq(), self.bk(), self.bq()) == self,
    {
        proof {
            use_type_invariant(&self);
            CastlingRights::lemma_rebuild(self);
        }
        let start = Ghost(out@);
        let wk = self.white_king();
        let wq = self.white_queen();
        let bk = self.black_king();
        let bq = self.black_queen();
        if !wk && !wq && !bk && !bq {
            push_char(out, '-');
            return;
        }
        if wk {
            push_char(out, 'K');
        }
        if wq {
            push_char(out, 'Q');
        }
        if bk {
            push_char(out, 'k');
        }
        if bq {
            push_char(out, 'q');
        }
        assert(out@ =~= start@ + self.text());
    }

    /// The text form of these rights; reading it back gives these rights.
    pub fn to_string(self) -> (r: String)
        ensures
            r@ == self.text(),
            parse_castling_text(r@) == Some(self.flags()),
            CastlingRights::spec_new(self.wk(), self.wq(), self.bk(), self.bq()) == self,
    {
        proof {
            CastlingRights::lemma_text_law(Seq::empty(), self);
        }
        let mut s = String::new();
        self.push_text(&mut s);
        assert(s@ =~= self.text());
        s
    }

    /// Decoding `-` gives no rights; decoding one to four distinct letters out of `K`, `Q`,
    /// `k`, `q`, in any order, sets exactly the flags of those letters; the text of no rights
    /// is `-`; and decoding the text of any rights gives their flags back.
    pub proof fn lemma_text_law(s: Seq<char>, c: CastlingRights)
        ensures
            parse_castling_text(seq!['-']) == Some((false, false, false, false)),
            s.no_duplicates() && 1 <= s.len() && (forall|i: int|
                0 <= i < s.len() ==> is_castling_letter(#[trigger] s[i])) ==> parse_castling_text(s)
                == Some((s.contains('K'), s.contains('Q'), s.contains('k'), s.contains('q'))),
            castling_text(false, false, false, false) == seq!['-'],
            parse_castling_text(c.text()) == Some(c.flags()),
    {
        if s.no_duplicates() && 1 <= s.len() && (forall|i: int|
            0 <= i < s.len() ==> is_castling_letter(#[trigger] s[i])) {
            CastlingRights::lemma_distinct_letters(s);
        }
        let t = c.text();
        if c.wk() || c.wq() || c.bk() || c.bq() {
            assert(t.len() >= 1);
            assert(t != seq!['-']) by {
                assert(t[0] != '-');
            }
            assert(forall|i: int| 0 <= i < t.len() ==> is_castling_letter(#[trigger] t[i]));
            assert(t.contains('K') == c.wk()) by {
                if c.wk() {
                    assert(t[0] == 'K');
                }
            }
            assert(t.contains('Q') == c.wq()) by {
                if c.wq() {
                    assert(t[(if c.wk() { 1int } else { 0int })] == 'Q');
                }
            }
            assert(t.contains('k') == c.bk()) by {
                if c.bk() {
                    let k = (if c.wk() { 1int } else { 0int }) + (if c.wq() { 1int } else { 0int });
                    assert(t[k] == 'k');
                }
            }
            assert(t.contains('q') == c.bq()) by {
                if c.bq() {
                    let k = (if c.wk() { 1int } else { 0int }) + (if c.wq() { 1int } else { 0int })
                        + (if c.bk() { 1int } else { 0int });
                    assert(t[k] == 'q');
                }
            }
        }
    }

    /// The rights built from four flags have those flags.
    pub proof fn lemma_spec_new_flags(wk: bool, wq: bool, bk: bool, bq: bool)
        ensures
            CastlingRights::spec_new(wk, wq, bk, bq).flags() == (wk, wq, bk, bq),
    {
        let a: u8 = if wk { 8 } else { 0 };
        let b: u8 = if wq { 4 } else { 0 };
        let c: u8 = if bk { 2 } else { 0 };
        let d: u8 = if bq { 1 } else { 0 };
        let v: u8 = (a + b + c + d) as u8;
        assert((v & 8 != 0) == (a == 8) && (v & 4 != 0) == (b == 4) && (v & 2 != 0) == (c == 2) && (
        v & 1 != 0) == (d == 1)) by (bit_vector)
            requires
                a == 0 || a == 8,
                b == 0 || b == 4,
                c == 0 || c == 2,
                d == 0 || d == 1,
                v == a + b + c + d,
        ;
    }

    /// No more than four distinct letters are castling letters.
    proof fn lemma_distinct_letters(s: Seq<char>)
        requires
            s.no_duplicates(),
            forall|i: int| 0 <= i < s.len() ==> is_castling_letter(#[trigger] s[i]),
        ensures
            s.len() <= 4,
    {
        let letters = set!['K', 'Q', 'k', 'q'];
        assert(s.to_set().subset_of(letters));
        s.unique_seq_to_set();
        vstd::set_lib::lemma_len_subset(s.to_set(), letters);
        assert(letters.len() == 4) by {
            assert(letters =~= set!['K'].insert('Q').insert('k').insert('q'));
        }
    }
}

} // verus!
