use vstd::prelude::*;

use crate::board::{ep_row, BoardView};
use crate::fen::{
    ep_from_text, ep_text, expand_rank, fen_decode, fen_encode, placement_cells, rank_ok, rank_text,
    row_of, run_cells, run_text, side_from_text, side_letter, upper_ranks_text,
};
use crate::moves::{castling_text, parse_castling_text, CastlingRights};
use crate::piece::{BoardPiece, Color, SidePiece};
use crate::position::{lemma_square_at, lemma_square_bijection, square_text, File, Square};
use crate::text::{
    all_digits, decimal_text, digit_char, digit_value, digits_value, is_ascii_ws, is_digit,
    numeral_value, split_on, unsigned_part, words,
};

verus! {

/// Whether `t` holds no white space.
pub open spec fn no_ws(t: Seq<char>) -> bool {
    forall|i: int| 0 <= i < t.len() ==> !is_ascii_ws(#[trigger] t[i])
}

/// Whether `t` holds no `sep`.
pub open spec fn lacks(t: Seq<char>, sep: char) -> bool {
    forall|i: int| 0 <= i < t.len() ==> #[trigger] t[i] != sep
}

/// A run of characters without white space is its only word.
pub proof fn lemma_words_single(t: Seq<char>)
    requires
        t.len() > 0,
        no_ws(t),
    ensures
        words(t) == seq![t],
    decreases t.len(),
{
    reveal_with_fuel(words, 2);
    if t.len() == 1 {
        assert(t.drop_last() =~= Seq::<char>::empty());
        assert(seq![t.last()] =~= t);
    } else {
        lemma_words_single(t.drop_last());
        assert(t[t.len() - 2] == t.drop_last().last());
        assert(t.drop_last().push(t.last()) =~= t);
        assert(seq![t.drop_last()].update(0, t.drop_last().push(t.last())) =~= seq![t]);
    }
}

/// Appending a space and a run without white space adds that run as a word.
pub proof fn lemma_words_push(s: Seq<char>, t: Seq<char>)
    requires
        t.len() > 0,
        no_ws(t),
    ensures
        words(s + seq![' '] + t) == words(s).push(t),
    decreases t.len(),
{
    let u = s + seq![' '] + t;
    reveal_with_fuel(words, 2);
    if t.len() == 1 {
        assert(u.drop_last() =~= s + seq![' ']);
        assert((s + seq![' ']).drop_last() =~= s);
        assert(u[u.len() - 2] == ' ');
        assert(seq![t.last()] =~= t);
    } else {
        lemma_words_push(s, t.drop_last());
        assert(u.drop_last() =~= s + seq![' '] + t.drop_last());
        assert(u[u.len() - 2] == t[t.len() - 2]);
        let w = words(s);
        assert(t.drop_last().push(t.last()) =~= t);
        assert(w.push(t.drop_last()).update(w.len() as int, t.drop_last().push(t.last())) =~= w.push(
            t,
        ));
    }
}

/// A run without `sep` is the only piece of splitting it at `sep`.
pub proof fn lemma_split_single(t: Seq<char>, sep: char)
    requires
        lacks(t, sep),
    ensures
        split_on(t, sep) == seq![t],
    decreases t.len(),
{
    if t.len() == 0 {
        assert(Seq::<char>::empty() =~= t);
    } else {
        lemma_split_single(t.drop_last(), sep);
        assert(t.drop_last().push(t.last()) =~= t);
        assert(seq![t.drop_last()].update(0, t.drop_last().push(t.last())) =~= seq![t]);
    }
}

/// Appending `sep` and a run without `sep` adds that run as a piece.
pub proof fn lemma_split_push(s: Seq<char>, t: Seq<char>, sep: char)
    requires
        lacks(t, sep),
    ensures
        split_on(s + seq![sep] + t, sep) == split_on(s, sep).push(t),
    decreases t.len(),
{
    let u = s + seq![sep] + t;
    if t.len() == 0 {
        assert(u =~= (s + seq![sep]));
        assert(u.drop_last() =~= s);
        assert(Seq::<char>::empty() =~= t);
    } else {
        lemma_split_push(s, t.drop_last(), sep);
        assert(u.drop_last() =~= s + seq![sep] + t.drop_last());
        let w = split_on(s, sep);
        assert(t.drop_last().push(t.last()) =~= t);
        assert(w.push(t.drop_last()).update(w.len() as int, t.drop_last().push(t.last())) =~= w.push(
            t,
        ));
    }
}

/// The decimal text of a number is a run of digits whose value is that number.
pub proof fn lemma_decimal_text(n: nat)
    ensures
        decimal_text(n).len() >= 1,
        all_digits(decimal_text(n)),
        digits_value(decimal_text(n)) == n,
        numeral_value(decimal_text(n)) == Some(n),
        no_ws(decimal_text(n)),
    decreases n,
{
    let t = decimal_text(n);
    reveal_with_fuel(digits_value, 2);
    if n < 10 {
        assert(t.drop_last() =~= Seq::<char>::empty());
    } else {
        lemma_decimal_text(n / 10);
        assert(t.drop_last() =~= decimal_text(n / 10));
        vstd::arithmetic::div_mod::lemma_fundamental_div_mod(n as int, 10);
        assert(digits_value(t) == digits_value(decimal_text(n / 10)) * 10 + digit_value(
            digit_char(n % 10),
        ));
    }
    assert(all_digits(t)) by {
        if n >= 10 {
            assert(forall|i: int| 0 <= i < t.len() - 1 ==> t[i] == decimal_text(n / 10)[i]);
        }
    }
    assert(is_digit(t[0]));
    assert(unsigned_part(t) == t);
}

/// Decoding a concatenation of rank-group texts gives the concatenation of their cells.
pub proof fn lemma_expand_concat(x: Seq<char>, y: Seq<char>)
    ensures
        expand_rank(x + y) == (match (expand_rank(x), expand_rank(y)) {
            (Some(a), Some(b)) => Some(a + b),
            _ => None,
        }),
    decreases y.len(),
{
    if y.len() == 0 {
        assert(x + y =~= x);
        if expand_rank(x) is Some {
            assert(expand_rank(x)->0 + Seq::<BoardPiece>::empty() =~= expand_rank(x)->0);
        }
    } else {
        lemma_expand_concat(x, y.drop_last());
        assert((x + y).drop_last() =~= x + y.drop_last());
        assert((x + y).last() == y.last());
        if expand_rank(x) is Some && expand_rank(y.drop_last()) is Some && run_cells(y.last()) is Some {
            let a = expand_rank(x)->0;
            let b = expand_rank(y.drop_last())->0;
            let c = run_cells(y.last())->0;
            assert(a + b + c =~= a + (b + c));
        }
    }
}

/// Whether `c` can appear in the text of a rank: a piece letter or a digit 1 to 8.
pub open spec fn rank_char(c: char) -> bool {
    SidePiece::from_letter_spec(c) is Some || ('1' <= c <= '8')
}

/// The text of a rank decodes to the cells it was made from, with the pending empty cells in
/// front, and holds only piece letters and digits 1 to 8.
pub proof fn lemma_rank_text(row: Seq<BoardPiece>, run: nat)
    requires
        run + row.len() <= 8,
    ensures
        expand_rank(rank_text(row, run)) == Some(Seq::new(run, |i: int| BoardPiece::Empty) + row),
        forall|i: int| 0 <= i < rank_text(row, run).len() ==> rank_char(#[trigger] rank_text(row, run)[i]),
        run + row.len() >= 1 ==> rank_text(row, run).len() >= 1,
    decreases row.len(),
{
    let empties = Seq::new(run, |i: int| BoardPiece::Empty);
    lemma_run_text(run);
    if row.len() == 0 {
        assert(empties + row =~= empties);
    } else {
        let rest = row.drop_first();
        match row[0] {
            BoardPiece::Empty => {
                lemma_rank_text(rest, run + 1);
                assert(Seq::new(run + 1, |i: int| BoardPiece::Empty) + rest =~= empties + row);
            },
            BoardPiece::Piece(p) => {
                lemma_rank_text(rest, 0);
                SidePiece::lemma_parts(p);
                let t1 = run_text(run);
                let t2 = seq![p.letter()];
                let t3 = rank_text(rest, 0);
                lemma_expand_concat(t1, t2);
                lemma_expand_concat(t1 + t2, t3);
                assert(t2.drop_last() =~= Seq::<char>::empty());
                reveal_with_fuel(expand_rank, 2);
                assert(expand_rank(t2) == Some(seq![BoardPiece::Piece(p)]));
                assert(Seq::new(0, |i: int| BoardPiece::Empty) + rest =~= rest);
                assert(empties + seq![BoardPiece::Piece(p)] + rest =~= empties + row);
                let t = rank_text(row, run);
                assert(t == t1 + t2 + t3);
                assert forall|i: int| 0 <= i < t.len() implies rank_char(#[trigger] t[i]) by {
                    if i < t1.len() {
                        assert(t[i] == t1[i]);
                    } else if i < t1.len() + 1 {
                        assert(t[i] == p.letter());
                    } else {
                        assert(t[i] == t3[i - t1.len() - 1]);
                    }
                }
            },
        }
    }
}

/// The digit for a run of empty cells decodes to that many empty cells.
proof fn lemma_run_text(run: nat)
    requires
        run <= 8,
    ensures
        expand_rank(run_text(run)) == Some(Seq::new(run, |i: int| BoardPiece::Empty)),
        forall|i: int| 0 <= i < run_text(run).len() ==> rank_char(#[trigger] run_text(run)[i]),
{
    reveal_with_fuel(expand_rank, 2);
    if run > 0 {
        let t = run_text(run);
        assert(t.drop_last() =~= Seq::<char>::empty());
        assert(digit_value(digit_char(run)) == run);
        assert(SidePiece::from_letter_spec(digit_char(run)) is None);
        assert(Seq::<BoardPiece>::empty() + Seq::new(run, |i: int| BoardPiece::Empty) =~= Seq::new(
            run,
            |i: int| BoardPiece::Empty,
        ));
    } else {
        assert(Seq::new(0, |i: int| BoardPiece::Empty) =~= Seq::<BoardPiece>::empty());
    }
}

/// The text of the top `n` ranks splits at `/` into the texts of those ranks, eighth first,
/// and holds neither white space nor anything but rank characters and `/`.
proof fn lemma_upper_ranks(cells: Seq<BoardPiece>, n: nat)
    requires
        1 <= n <= 8,
        cells.len() == 64,
    ensures
        split_on(upper_ranks_text(cells, n), '/') == Seq::new(
            n,
            |i: int| rank_text(row_of(cells, 7 - i), 0),
        ),
        upper_ranks_text(cells, n).len() >= 1,
        no_ws(upper_ranks_text(cells, n)),
    decreases n,
{
    let r = 8 - n;
    let row = row_of(cells, r);
    assert(row.len() == 8);
    lemma_rank_text(row, 0);
    let t = rank_text(row, 0);
    assert(lacks(t, '/'));
    assert(no_ws(t));
    if n == 1 {
        lemma_split_single(t, '/');
        assert(seq![t] =~= Seq::new(n, |i: int| rank_text(row_of(cells, 7 - i), 0)));
    } else {
        lemma_upper_ranks(cells, (n - 1) as nat);
        let u = upper_ranks_text(cells, (n - 1) as nat);
        lemma_split_push(u, t, '/');
        assert(Seq::new((n - 1) as nat, |i: int| rank_text(row_of(cells, 7 - i), 0)).push(t)
            =~= Seq::new(n, |i: int| rank_text(row_of(cells, 7 - i), 0)));
        let whole = upper_ranks_text(cells, n);
        assert(whole == u + seq!['/'] + t);
        assert forall|i: int| 0 <= i < whole.len() implies !is_ascii_ws(#[trigger] whole[i]) by {
            if i < u.len() {
                assert(whole[i] == u[i]);
            } else if i > u.len() {
                assert(whole[i] == t[i - u.len() - 1]);
            }
        }
    }
}

/// The placement text of any cells decodes back to those cells.
pub proof fn lemma_placement_round_trip(cells: Seq<BoardPiece>)
    requires
        cells.len() == 64,
    ensures
        placement_cells(upper_ranks_text(cells, 8)) == Some(cells),
{
    lemma_upper_ranks(cells, 8);
    let gs = split_on(upper_ranks_text(cells, 8), '/');
    assert forall|r: int| 0 <= r < 8 implies rank_ok(#[trigger] gs[r]) && expand_rank(gs[r])->0
        == row_of(cells, 7 - r) by {
        lemma_rank_text(row_of(cells, 7 - r), 0);
        assert(Seq::new(0, |i: int| BoardPiece::Empty) + row_of(cells, 7 - r) =~= row_of(
            cells,
            7 - r,
        ));
    }
    let decoded = Seq::new(64, |i: int| expand_rank(gs[7 - i / 8])->0[i % 8]);
    assert forall|i: int| 0 <= i < 64 implies decoded[i] == cells[i] by {
        vstd::arithmetic::div_mod::lemma_fundamental_div_mod(i, 8);
        assert(0 <= i / 8 < 8);
        assert(0 <= i % 8 < 8);
        assert(expand_rank(gs[7 - i / 8])->0 == row_of(cells, i / 8));
    }
    assert(decoded =~= cells);
}

/// The castling field is a non-empty run without white space.
proof fn lemma_castling_field(c: CastlingRights)
    ensures
        c.text().len() >= 1,
        no_ws(c.text()),
{
    let t = c.text();
    if c.wk() || c.wq() || c.bk() || c.bq() {
        assert forall|i: int| 0 <= i < t.len() implies !is_ascii_ws(#[trigger] t[i]) by {
            let a = if c.wk() { seq!['K'] } else { Seq::<char>::empty() };
            let b = if c.wq() { seq!['Q'] } else { Seq::<char>::empty() };
            let d = if c.bk() { seq!['k'] } else { Seq::<char>::empty() };
            let e = if c.bq() { seq!['q'] } else { Seq::<char>::empty() };
            assert(t == a + b + d + e);
        }
    }
}

/// Six runs without white space, joined by single spaces, are the six words of the text.
proof fn lemma_six_words(
    p: Seq<char>,
    side: Seq<char>,
    c: Seq<char>,
    t: Seq<char>,
    h: Seq<char>,
    f: Seq<char>,
)
    requires
        p.len() >= 1 && no_ws(p),
        side.len() >= 1 && no_ws(side),
        c.len() >= 1 && no_ws(c),
        t.len() >= 1 && no_ws(t),
        h.len() >= 1 && no_ws(h),
        f.len() >= 1 && no_ws(f),
    ensures
        words(p + seq![' '] + side + seq![' '] + c + seq![' '] + t + seq![' '] + h + seq![' '] + f)
            == seq![p, side, c, t, h, f],
{
    lemma_words_single(p);
    lemma_words_push(p, side);
    lemma_words_push(p + seq![' '] + side, c);
    lemma_words_push(p + seq![' '] + side + seq![' '] + c, t);
    lemma_words_push(p + seq![' '] + side + seq![' '] + c + seq![' '] + t, h);
    lemma_words_push(p + seq![' '] + side + seq![' '] + c + seq![' '] + t + seq![' '] + h, f);
    assert(seq![p].push(side).push(c).push(t).push(h).push(f) =~= seq![p, side, c, t, h, f]);
}

/// The en-passant field of a position is a run without white space that reads back as its
/// en-passant file.
proof fn lemma_ep_field(b: BoardView)
    ensures
        ep_text(b).len() >= 1,
        no_ws(ep_text(b)),
        ep_from_text(ep_text(b), b.turn) == Some(b.ep_file),
{
    let t = ep_text(b);
    if b.ep_file is Some {
        let file = b.ep_file->0;
        let sq = b.ep_target()->0;
        File::lemma_index(file);
        let k = ep_row(b.turn) * 8 + file as int;
        Square::lemma_from_int(k);
        vstd::arithmetic::div_mod::lemma_fundamental_div_mod_converse(
            k,
            8,
            ep_row(b.turn),
            file as int,
        );
        lemma_square_bijection(k, sq, t);
        File::lemma_int(file as int);
        assert(t.len() == 2);
        assert(t != seq!['-']);
    } else {
        assert(t =~= seq!['-']);
    }
}

/// The side field reads back as the side to move.
proof fn lemma_side_field(side: Color)
    ensures
        side_from_text(seq![side_letter(side)]) == Some(side),
        no_ws(seq![side_letter(side)]),
{
    let t = seq![side_letter(side)];
    match side {
        Color::White => {
            assert(t =~= seq!['w']);
            assert(side_from_text(seq!['w']) == Some(Color::White));
        },
        Color::Black => {
            assert(t =~= seq!['b']);
            assert(seq!['b'] != seq!['w']) by {
                assert(seq!['b'][0] != seq!['w'][0]);
            }
        },
    }
}

/// Decoding the notation text of any position gives that position back, its castling rights
/// rebuilt from their flags, and encoding the result reproduces the same text.
pub proof fn lemma_fen_round_trip(b: BoardView)
    requires
        b.cells.len() == 64,
    ensures
        fen_decode(fen_encode(b)) == Some(
            BoardView {
                castle_rights: CastlingRights::spec_new(
                    b.castle_rights.flags().0,
                    b.castle_rights.flags().1,
                    b.castle_rights.flags().2,
                    b.castle_rights.flags().3,
                ),
                ..b
            },
        ),
        fen_encode(fen_decode(fen_encode(b))->0) == fen_encode(b),
{
    let p = upper_ranks_text(b.cells, 8);
    let side = seq![side_letter(b.turn)];
    let c = b.castle_rights.text();
    let t = ep_text(b);
    let h = decimal_text(b.halfmove_clock as nat);
    let f = decimal_text(b.fullmove_count as nat);
    let fl = b.castle_rights.flags();
    let rebuilt = CastlingRights::spec_new(fl.0, fl.1, fl.2, fl.3);
    let b2 = BoardView { castle_rights: rebuilt, ..b };
    lemma_upper_ranks(b.cells, 8);
    lemma_placement_round_trip(b.cells);
    lemma_castling_field(b.castle_rights);
    CastlingRights::lemma_text_law(Seq::empty(), b.castle_rights);
    CastlingRights::lemma_spec_new_flags(fl.0, fl.1, fl.2, fl.3);
    lemma_decimal_text(b.halfmove_clock as nat);
    lemma_decimal_text(b.fullmove_count as nat);
    lemma_side_field(b.turn);
    lemma_ep_field(b);
    let e = fen_encode(b);
    assert(e =~= p + seq![' '] + side + seq![' '] + c + seq![' '] + t + seq![' '] + h + seq![' ']
        + f);
    lemma_six_words(p, side, c, t, h, f);
    assert(fen_decode(e) == Some(b2));
    assert(b2.castle_rights.text() == c);
    assert(fen_encode(b2) =~= e);
}

} // verus!
