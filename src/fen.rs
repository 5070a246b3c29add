use vstd::prelude::*;

use crate::board::{ep_row, Board, BoardView, FenError};
use crate::moves::{parse_castling_text, CastlingRights};
use crate::piece::{BoardPiece, Color, SidePiece};
use crate::position::{parse_square_text, square_text, File, Square};
use crate::text::{
    decimal_text, digit_char, digit_value, numeral_value, parse_decimal, push_char, push_decimal,
    split_at_char, split_on, split_words, to_digit_char, words,
};

verus! {

/// The cells that one character of a rank group stands for: a piece letter gives that piece,
/// a digit 1 to 8 that many empty cells.
pub open spec fn run_cells(c: char) -> Option<Seq<BoardPiece>> {
    match SidePiece::from_letter_spec(c) {
        Some(p) => Some(seq![BoardPiece::Piece(p)]),
        None => if '1' <= c <= '8' {
            Some(Seq::new(digit_value(c), |i: int| BoardPiece::Empty))
        } else {
            None
        },
    }
}

/// The cells that a rank group stands for, left to right, if every character is valid.
pub open spec fn expand_rank(g: Seq<char>) -> Option<Seq<BoardPiece>>
    decreases g.len(),
{
    if g.len() == 0 {
        Some(Seq::empty())
    } else {
        match (expand_rank(g.drop_last()), run_cells(g.last())) {
            (Some(a), Some(b)) => Some(a + b),
            _ => None,
        }
    }
}

/// Whether a rank group is valid and covers exactly eight cells.
pub open spec fn rank_ok(g: Seq<char>) -> bool {
    expand_rank(g) is Some && expand_rank(g)->0.len() == 8
}

/// The cells that the piece-placement field gives, by square index: eight groups separated by
/// `/`, the first for the eighth rank and the last for the first.
pub open spec fn placement_cells(field: Seq<char>) -> Option<Seq<BoardPiece>> {
    let gs = split_on(field, '/');
    if gs.len() == 8 && forall|r: int| 0 <= r < 8 ==> rank_ok(#[trigger] gs[r]) {
        Some(Seq::new(64, |i: int| expand_rank(gs[7 - i / 8])->0[i % 8]))
    } else {
        None
    }
}

pub open spec fn side_from_text(t: Seq<char>) -> Option<Color> {
    if t == seq!['w'] {
        Some(Color::White)
    } else if t == seq!['b'] {
        Some(Color::Black)
    } else {
        None
    }
}

pub open spec fn side_letter(side: Color) -> char {
    match side {
        Color::White => 'w',
        Color::Black => 'b',
    }
}

/// The en-passant field: `-`, or a square on the rank that fits the side to move.
pub open spec fn ep_from_text(t: Seq<char>, side: Color) -> Option<Option<File>> {
    if t == seq!['-'] {
        Some(None)
    } else {
        match parse_square_text(t) {
            Some(sq) => if sq.row() == ep_row(side) {
                Some(Some(sq.file_of()))
            } else {
                None
            },
            None => None,
        }
    }
}

/// The value of a numeral that is at most `max`.
pub open spec fn bounded_numeral(t: Seq<char>, max: nat) -> Option<nat> {
    match numeral_value(t) {
        Some(v) => if v <= max {
            Some(v)
        } else {
            None
        },
        None => None,
    }
}

/// The position that a notation text describes, if it is well formed: six fields separated by
/// white space, for placement, side to move, castling rights, en-passant target, halfmove
/// clock and fullmove count.
pub open spec fn fen_decode(s: Seq<char>) -> Option<BoardView> {
    let w = words(s);
    if w.len() != 6 {
        None
    } else {
        match (placement_cells(w[0]), side_from_text(w[1]), parse_castling_text(w[2])) {
            (Some(cells), Some(side), Some(fl)) => match (
                ep_from_text(w[3], side),
                bounded_numeral(w[4], 255),
                bounded_numeral(w[5], 65535),
            ) {
                (Some(ep), Some(h), Some(f)) => Some(
                    BoardView {
                        cells,
                        turn: side,
                        ep_file: ep,
                        castle_rights: CastlingRights::spec_new(fl.0, fl.1, fl.2, fl.3),
                        halfmove_clock: h as u8,
                        fullmove_count: f as u16,
                    },
                ),
                _ => None,
            },
            _ => None,
        }
    }
}

/// The digit for a run of `run` empty cells, if there is one.
pub open spec fn run_text(run: nat) -> Seq<char> {
    if run > 0 {
        seq![digit_char(run)]
    } else {
        Seq::empty()
    }
}

/// The text of a row of cells, left to right, with `run` empty cells pending before them.
pub open spec fn rank_text(row: Seq<BoardPiece>, run: nat) -> Seq<char>
    decreases row.len(),
{
    if row.len() == 0 {
        run_text(run)
    } else {
        match row[0] {
            BoardPiece::Empty => rank_text(row.drop_first(), run + 1),
            BoardPiece::Piece(p) => run_text(run) + seq![p.letter()] + rank_text(row.drop_first(), 0),
        }
    }
}

/// The cells of rank `r` (counted from 0), file `a` first.
pub open spec fn row_of(cells: Seq<BoardPiece>, r: int) -> Seq<BoardPiece> {
    cells.subrange(r * 8, r * 8 + 8)
}

/// The text of the top `n` ranks, the eighth first, separated by `/`.
pub open spec fn upper_ranks_text(cells: Seq<BoardPiece>, n: nat) -> Seq<char>
    decreases n,
{
    if n == 0 {
        Seq::empty()
    } else if n == 1 {
        rank_text(row_of(cells, 7), 0)
    } else {
        upper_ranks_text(cells, (n - 1) as nat) + seq!['/'] + rank_text(row_of(cells, 8 - n), 0)
    }
}

/// The en-passant field of a position.
pub open spec fn ep_text(b: BoardView) -> Seq<char> {
    match b.ep_target() {
        Some(sq) => square_text(sq),
        None => seq!['-'],
    }
}

/// The notation text of a position.
pub open spec fn fen_encode(b: BoardView) -> Seq<char> {
    upper_ranks_text(b.cells, 8) + seq![' ', side_letter(b.turn), ' '] + b.castle_rights.text()
        + seq![' '] + ep_text(b) + seq![' '] + decimal_text(b.halfmove_clock as nat) + seq![' ']
        + decimal_text(b.fullmove_count as nat)
}

/// A valid rank group has valid prefixes that cover no more cells than it does.
proof fn lemma_expand_prefix(g: Seq<char>, k: int)
    requires
        0 <= k <= g.len(),
        expand_rank(g) is Some,
    ensures
        expand_rank(g.take(k)) is Some,
        expand_rank(g.take(k))->0.len() <= expand_rank(g)->0.len(),
    decreases g.len(),
{
    if k < g.len() {
        assert(g.drop_last().take(k) =~= g.take(k));
        lemma_expand_prefix(g.drop_last(), k);
    } else {
        assert(g.take(k) =~= g);
    }
}

/// Rank `r` starts at index `r * 8`, and its cells have rank `r` and file `i - r * 8`.
proof fn lemma_row_index(r: int, i: int)
    requires
        0 <= r,
        r * 8 <= i < r * 8 + 8,
    ensures
        i / 8 == r,
        i % 8 == i - r * 8,
{
    vstd::arithmetic::div_mod::lemma_fundamental_div_mod_converse(i, 8, r, i - r * 8);
}

/// Reads one rank group into rank `r` of `board`.
fn decode_rank(g: &[char], board: &mut Board, r: usize) -> (ok: bool)
    requires
        r < 8,
    ensures
        ok == rank_ok(g@),
        ok ==> forall|k: int| 0 <= k < 8 ==> final(board).array@[r * 8 + k] == expand_rank(g@)->0[k],
        forall|i: int|
            0 <= i < 64 && !(r * 8 <= i < r * 8 + 8) ==> final(board).array@[i] == old(
                board,
            ).array@[i],
        final(board).turn == old(board).turn,
        final(board).ep_file == old(board).ep_file,
        final(board).castle_rights == old(board).castle_rights,
        final(board).halfmove_clock == old(board).halfmove_clock,
        final(board).fullmove_count == old(board).fullmove_count,
{
    let base: usize = r * 8;
    let mut f: usize = 0;
    let mut j: usize = 0;
    assert(g@.take(0) =~= Seq::<char>::empty());
    while j < g.len()
        invariant
            j <= g.len(),
            f <= 8,
            r < 8,
            base == r * 8,
            expand_rank(g@.take(j as int)) is Some,
            expand_rank(g@.take(j as int))->0.len() == f,
            forall|k: int| 0 <= k < f ==> board.array@[base + k] == expand_rank(g@.take(j as int))->0[k],
            forall|i: int|
                0 <= i < 64 && !(base <= i < base + 8) ==> board.array@[i] == old(board).array@[i],
            board.turn == old(board).turn,
            board.ep_file == old(board).ep_file,
            board.castle_rights == old(board).castle_rights,
            board.halfmove_clock == old(board).halfmove_clock,
            board.fullmove_count == old(board).fullmove_count,
        decreases g.len() - j,
    {
        let c = g[j];
        let ghost prev = expand_rank(g@.take(j as int))->0;
        assert(g@.take(j + 1).drop_last() =~= g@.take(j as int));
        assert(g@.take(j + 1).last() == c);
        match SidePiece::from_letter(c) {
            Ok(p) => {
                if f >= 8 {
                    proof {
                        if expand_rank(g@) is Some {
                            lemma_expand_prefix(g@, j + 1);
                        }
                    }
                    return false;
                }
                board.array[base + f] = BoardPiece::Piece(p);
                assert(expand_rank(g@.take(j + 1))->0 =~= prev.push(BoardPiece::Piece(p)));
                f = f + 1;
            },
            Err(_) => {
                if !(c >= '1' && c <= '8') {
                    proof {
                        if expand_rank(g@) is Some {
                            lemma_expand_prefix(g@, j + 1);
                        }
                    }
                    return false;
                }
                let n: usize = (c as u32 - '0' as u32) as usize;
                assert(n == digit_value(c));
                if f + n > 8 {
                    proof {
                        if expand_rank(g@) is Some {
                            lemma_expand_prefix(g@, j + 1);
                        }
                    }
                    return false;
                }
                let ghost run = Seq::new(digit_value(c), |i: int| BoardPiece::Empty);
                assert(expand_rank(g@.take(j + 1))->0 == prev + run);
                let mut k: usize = 0;
                while k < n
                    invariant
                        k <= n,
                        f + n <= 8,
                        base == r * 8,
                        r < 8,
                        prev.len() == f,
                        forall|q: int| 0 <= q < f ==> board.array@[base + q] == prev[q],
                        forall|i: int| base + f <= i < base + f + k ==> board.array@[i] == BoardPiece::Empty,
                        forall|i: int|
                            0 <= i < 64 && !(base <= i < base + 8) ==> board.array@[i] == old(
                                board,
                            ).array@[i],
                        board.turn == old(board).turn,
                        board.ep_file == old(board).ep_file,
                        board.castle_rights == old(board).castle_rights,
                        board.halfmove_clock == old(board).halfmove_clock,
                        board.fullmove_count == old(board).fullmove_count,
                    decreases n - k,
                {
                    board.array[base + f + k] = BoardPiece::Empty;
                    k = k + 1;
                }
                assert forall|q: int| 0 <= q < f + n implies board.array@[base + q] == (prev + run)[q] by {
                    if q >= f {
                        assert(board.array@[base + q] == BoardPiece::Empty);
                    }
                }
                f = f + n;
            },
        }
        j = j + 1;
    }
    assert(g@.take(g.len() as int) =~= g@);
    f == 8
}

/// Reads the piece-placement field into the cells of `board`.
fn decode_placement(field: &[char], board: &mut Board) -> (ok: bool)
    ensures
        ok == placement_cells(field@) is Some,
        ok ==> final(board)@.cells == placement_cells(field@)->0,
        final(board).turn == old(board).turn,
        final(board).ep_file == old(board).ep_file,
        final(board).castle_rights == old(board).castle_rights,
        final(board).halfmove_clock == old(board).halfmove_clock,
        final(board).fullmove_count == old(board).fullmove_count,
{
    let groups = split_at_char(field, '/');
    let ghost gs = split_on(field@, '/');
    if groups.len() != 8 {
        return false;
    }
    let mut r: usize = 0;
    while r < 8
        invariant
            r <= 8,
            groups.len() == 8,
            gs.len() == 8,
            gs == split_on(field@, '/'),
            forall|i: int| 0 <= i < 8 ==> #[trigger] groups[i]@ == gs[i],
            forall|q: int| 8 - r <= q < 8 ==> rank_ok(#[trigger] gs[q]),
            forall|i: int|
                0 <= i < r * 8 ==> board.array@[i] == expand_rank(gs[7 - i / 8])->0[i % 8],
            board.turn == old(board).turn,
            board.ep_file == old(board).ep_file,
            board.castle_rights == old(board).castle_rights,
            board.halfmove_clock == old(board).halfmove_clock,
            board.fullmove_count == old(board).fullmove_count,
        decreases 8 - r,
    {
        let ok = decode_rank(groups[7 - r].as_slice(), board, r);
        if !ok {
            assert(!rank_ok(gs[7 - r as int]));
            return false;
        }
        assert forall|i: int| 0 <= i < (r + 1) * 8 implies board.array@[i] == expand_rank(
            gs[7 - i / 8],
        )->0[i % 8] by {
            if i >= r * 8 {
                lemma_row_index(r as int, i);
            }
        }
        r = r + 1;
    }
    assert(board@.cells =~= placement_cells(field@)->0);
    true
}

/// Reads the en-passant field for the given side to move.
fn decode_ep(t: &[char], side: Color) -> (r: Option<Option<File>>)
    ensures
        r == ep_from_text(t@, side),
{
    if t.len() == 1 && t[0] == '-' {
        assert(t@ =~= seq!['-']);
        return Some(None);
    }
    assert(t@ != seq!['-']);
    match Square::from_chars(t) {
        Ok(sq) => {
            let row = sq.rank().index();
            let want: u8 = match side {
                Color::White => 5,
                Color::Black => 2,
            };
            if row == want {
                Some(Some(sq.file()))
            } else {
                None
            }
        },
        Err(_) => None,
    }
}

impl Board {
    /// Reads a position from its notation text. Only the structure is checked, not whether the
    /// position could arise in a game.
    pub fn from_fen(fen: &str) -> (r: Result<Board, FenError>)
        ensures
            match r {
                Ok(b) => fen_decode(fen@) == Some(b@),
                Err(_) => fen_decode(fen@) is None,
            },
    {
        let cs = crate::text::chars_of(fen);
        let fields = split_words(cs.as_slice());
        let ghost w = words(fen@);
        if fields.len() != 6 {
            return Err(FenError);
        }
        let mut board = Board::empty();
        // 1. Piece placement
        if !decode_placement(fields[0].as_slice(), &mut board) {
            return Err(FenError);
        }
        // 2. Side to move
        let f1 = fields[1].as_slice();
        assert(f1@ == w[1]);
        let turn = if f1.len() == 1 && f1[0] == 'w' {
            assert(f1@ =~= seq!['w']);
            Color::White
        } else if f1.len() == 1 && f1[0] == 'b' {
            assert(f1@ =~= seq!['b']);
            Color::Black
        } else {
            assert(f1@ != seq!['w'] && f1@ != seq!['b']);
            return Err(FenError);
        };
        board.turn = turn;
        // 3. Castling rights
        board.castle_rights = match CastlingRights::from_chars(fields[2].as_slice()) {
            Ok(c) => c,
            Err(_) => return Err(FenError),
        };
        // 4. En passant
        board.ep_file = match decode_ep(fields[3].as_slice(), turn) {
            Some(e) => e,
            None => return Err(FenError),
        };
        // 5. Halfmove clock
        board.halfmove_clock = match parse_decimal(fields[4].as_slice(), 255) {
            Some(v) => v as u8,
            None => return Err(FenError),
        };
        // 6. Fullmove counter
        board.fullmove_count = match parse_decimal(fields[5].as_slice(), 65535) {
            Some(v) => v as u16,
            None => return Err(FenError),
        };
        Ok(board)
    }

    /// Appends the text of rank `r` (counted from 0) to `out`.
    fn push_rank_text(&self, out: &mut String, r: usize)
        requires
            r < 8,
        ensures
            final(out)@ == old(out)@ + rank_text(row_of(self@.cells, r as int), 0),
    {
        let ghost row = row_of(self@.cells, r as int);
        let ghost start = out@;
        let base: usize = r * 8;
        let mut run: u16 = 0;
        let mut f: usize = 0;
        assert(row.subrange(0, 8) =~= row);
        while f < 8
            invariant
                f <= 8,
                run <= f,
                base == r * 8,
                r < 8,
                row == row_of(self@.cells, r as int),
                row.len() == 8,
                out@ + rank_text(row.subrange(f as int, 8), run as nat) == start + rank_text(row, 0),
            decreases 8 - f,
        {
            let ghost rest = row.subrange(f as int, 8);
            assert(rest[0] == row[f as int]);
            assert(rest.drop_first() =~= row.subrange(f + 1, 8));
            match self.array[base + f] {
                BoardPiece::Empty => {
                    run = run + 1;
                },
                BoardPiece::Piece(p) => {
                    let ghost before = out@;
                    if run > 0 {
                        push_char(out, to_digit_char(run));
                    }
                    push_char(out, p.to_letter());
                    assert(out@ =~= before + run_text(run as nat) + seq![p.letter()]);
                    run = 0;
                },
            }
            f = f + 1;
        }
        let ghost before = out@;
        if run > 0 {
            push_char(out, to_digit_char(run));
        }
        assert(row.subrange(8, 8) =~= Seq::<BoardPiece>::empty());
        assert(out@ =~= before + run_text(run as nat));
    }

    /// Writes the position as notation text; reading that text back gives this position.
    #[verifier::rlimit(50)]
    pub fn to_fen(&self) -> (r: String)
        ensures
            r@ == fen_encode(self@),
            fen_decode(r@) == Some(self@),
    {
        let mut fen = String::new();
        // 1. Piece placement, eighth rank first
        let mut n: usize = 0;
        while n < 8
            invariant
                n <= 8,
                fen@ == upper_ranks_text(self@.cells, n as nat),
            decreases 8 - n,
        {
            if n > 0 {
                push_char(&mut fen, '/');
            }
            self.push_rank_text(&mut fen, 7 - n);
            n = n + 1;
        }
        let ghost placement = fen@;
        // 2. Side to move
        push_char(&mut fen, ' ');
        push_char(
            &mut fen,
            match self.turn {
                Color::White => 'w',
                Color::Black => 'b',
            },
        );
        push_char(&mut fen, ' ');
        // 3. Castling rights
        self.castle_rights.push_text(&mut fen);
        // 4. En passant
        let ghost before_ep = fen@;
        push_char(&mut fen, ' ');
        match self.ep_square() {
            None => push_char(&mut fen, '-'),
            Some(sq) => {
                push_char(&mut fen, sq.file().to_char());
                push_char(&mut fen, sq.rank().to_char());
            },
        }
        assert(fen@ =~= before_ep + seq![' '] + ep_text(self@));
        // 5. Halfmove clock
        push_char(&mut fen, ' ');
        push_decimal(&mut fen, self.halfmove_clock as u16);
        // 6. Fullmove counter
        push_char(&mut fen, ' ');
        push_decimal(&mut fen, self.fullmove_count);
        assert(fen@ =~= fen_encode(self@));
        proof {
            crate::fen_laws::lemma_fen_round_trip(self@);
        }
        fen
    }
}

} // verus!
