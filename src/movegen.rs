use vstd::prelude::*;

use crate::board::{ep_row, last_row, lemma_undo_inverts_make, pawn_row, Board, BoardView};
use crate::fen::fen_encode;
use crate::moves::{lemma_push_contains, Move, MoveType};
use crate::piece::{BoardPiece, Color, PieceType, SidePiece};
use crate::position::{forward, lemma_square_at, square_at, File, Rank, Square};

verus! {

/// `k` steps in direction `d` (one of -1, 0, 1).
pub open spec fn scaled(k: int, d: int) -> int {
    if d > 0 {
        k
    } else if d < 0 {
        -k
    } else {
        0
    }
}

/// The square `k` steps from `from` along the direction (`dr`, `df`).
pub open spec fn ray(from: Square, dr: int, df: int, k: int) -> Option<Square> {
    square_at(from.row() + scaled(k, dr), from.col() + scaled(k, df))
}

/// Whether the square `k` steps along the direction is on the board and empty.
pub open spec fn ray_empty(b: BoardView, from: Square, dr: int, df: int, k: int) -> bool {
    ray(from, dr, df, k) matches Some(s) && b.cell(s) == BoardPiece::Empty
}

/// The number of king steps between two squares.
pub open spec fn distance(a: Square, b: Square) -> int {
    let dr = if b.row() >= a.row() {
        b.row() - a.row()
    } else {
        a.row() - b.row()
    };
    let dc = if b.col() >= a.col() {
        b.col() - a.col()
    } else {
        a.col() - b.col()
    };
    if dr >= dc {
        dr
    } else {
        dc
    }
}

/// A sliding move from `from` along (`dr`, `df`): every square before the destination is empty,
/// and the destination is empty or holds an enemy piece.
#[verifier::opaque]
pub open spec fn ray_move(b: BoardView, from: Square, dr: int, df: int, mv: Move) -> bool {
    let k = distance(from, mv.to);
    &&& mv.from == from
    &&& mv.move_type == MoveType::Normal
    &&& k >= 1
    &&& ray(from, dr, df, k) == Some(mv.to)
    &&& forall|j: int| 1 <= j < k ==> #[trigger] ray_empty(b, from, dr, df, j)
    &&& !b.is_own(mv.to)
}

pub open spec fn rook_move(b: BoardView, from: Square, mv: Move) -> bool {
    ray_move(b, from, 1, 0, mv) || ray_move(b, from, -1, 0, mv) || ray_move(b, from, 0, -1, mv)
        || ray_move(b, from, 0, 1, mv)
}

pub open spec fn bishop_move(b: BoardView, from: Square, mv: Move) -> bool {
    ray_move(b, from, 1, -1, mv) || ray_move(b, from, -1, -1, mv) || ray_move(b, from, 1, 1, mv)
        || ray_move(b, from, -1, 1, mv)
}

/// A one-jump move by (`dr`, `df`) onto a square that is not the mover's own.
pub open spec fn step_move(b: BoardView, from: Square, dr: int, df: int, mv: Move) -> bool {
    &&& mv.from == from
    &&& mv.move_type == MoveType::Normal
    &&& from.offset(dr, df) == Some(mv.to)
    &&& !b.is_own(mv.to)
}

pub open spec fn knight_move(b: BoardView, from: Square, mv: Move) -> bool {
    step_move(b, from, -2, -1, mv) || step_move(b, from, -2, 1, mv) || step_move(b, from, -1, -2, mv)
        || step_move(b, from, -1, 2, mv) || step_move(b, from, 1, -2, mv) || step_move(
        b,
        from,
        1,
        2,
        mv,
    ) || step_move(b, from, 2, -1, mv) || step_move(b, from, 2, 1, mv)
}

pub open spec fn king_move(b: BoardView, from: Square, mv: Move) -> bool {
    step_move(b, from, 1, -1, mv) || step_move(b, from, 1, 0, mv) || step_move(b, from, 1, 1, mv)
        || step_move(b, from, 0, -1, mv) || step_move(b, from, 0, 1, mv) || step_move(
        b,
        from,
        -1,
        -1,
        mv,
    ) || step_move(b, from, -1, 0, mv) || step_move(b, from, -1, 1, mv)
}

/// The kinds a pawn move onto the last rank is generated with: queen and knight. Promotions
/// to rook or bishop are accepted by `make_move` but not generated.
pub open spec fn generated_promotion(t: MoveType) -> bool {
    t == MoveType::Promotion(PieceType::Queen) || t == MoveType::Promotion(PieceType::Knight)
}

/// The kind of a pawn move onto `to`: a promotion on the last rank, `Normal` elsewhere.
pub open spec fn pawn_move_kind(b: BoardView, to: Square, t: MoveType) -> bool {
    if to.row() == last_row(b.turn) {
        generated_promotion(t)
    } else {
        t == MoveType::Normal
    }
}

/// A pawn move of the side to move from `from`: one step forward onto an empty square; two
/// steps from the starting rank over two empty squares; one step diagonally forward onto an
/// enemy piece; or one step diagonally forward onto the en-passant target, when that square is
/// empty and the pawn to take stands behind it.
pub open spec fn pawn_move(b: BoardView, from: Square, mv: Move) -> bool {
    let f = forward(b.turn);
    let diagonal = from.offset(f, -1) == Some(mv.to) || from.offset(f, 1) == Some(mv.to);
    &&& mv.from == from
    &&& {
        ||| (from.offset(f, 0) == Some(mv.to) && b.cell(mv.to) == BoardPiece::Empty
            && pawn_move_kind(b, mv.to, mv.move_type))
        ||| (from.row() == pawn_row(b.turn) && from.offset(2 * f, 0) == Some(mv.to) && b.cell(mv.to)
            == BoardPiece::Empty && from.offset(f, 0) is Some && b.cell(from.offset(f, 0)->0)
            == BoardPiece::Empty && mv.move_type == MoveType::DoublePush)
        ||| (diagonal && b.is_enemy(mv.to) && pawn_move_kind(b, mv.to, mv.move_type))
        ||| (diagonal && b.ep_target() == Some(mv.to) && b.ep_capture_ok(mv.to) && mv.move_type
            == MoveType::EnPassant)
    }
}

/// The moves of a piece of kind `kind` standing on `from`.
pub open spec fn piece_move(b: BoardView, kind: PieceType, from: Square, mv: Move) -> bool {
    match kind {
        PieceType::Pawn => pawn_move(b, from, mv),
        PieceType::Knight => knight_move(b, from, mv),
        PieceType::King => king_move(b, from, mv),
        PieceType::Rook => rook_move(b, from, mv),
        PieceType::Bishop => bishop_move(b, from, mv),
        PieceType::Queen => rook_move(b, from, mv) || bishop_move(b, from, mv),
    }
}

/// The pseudo-legal moves: those of the side to move's pieces by their movement rules,
/// without regard to whether the mover's king is left attacked. Castling is not generated.
pub open spec fn pseudo_move(b: BoardView, mv: Move) -> bool {
    b.cell(mv.from) matches BoardPiece::Piece(p) && p.side() == b.turn && piece_move(
        b,
        p.kind(),
        mv.from,
        mv,
    )
}

/// The square `dr` ranks and `df` files from `sq`, for small offsets.
fn try_offset(sq: Square, dr: i8, df: i8) -> (r: Option<Square>)
    requires
        -8 < dr < 8,
        -8 < df < 8,
    ensures
        r == sq.offset(dr as int, df as int),
{
    let rank = sq.rank().index() as i8 + dr;
    let file = sq.file().index() as i8 + df;
    if rank >= 0 && file >= 0 {
        Square::from_coords(rank as u8, file as u8)
    } else {
        None
    }
}

impl Board {
    /// Adds the one-jump move by (`dr`, `df`) if it lands on the board, not on an own piece.
    fn push_step(&self, sq: Square, dr: i8, df: i8, moves: &mut Vec<Move>)
        requires
            -8 < dr < 8,
            -8 < df < 8,
            old(moves)@.no_duplicates(),
            forall|m: Move| old(moves)@.contains(m) ==> !step_move(self@, sq, dr as int, df as int, m),
        ensures
            final(moves)@.no_duplicates(),
            forall|mv: Move|
                #[trigger] final(moves)@.contains(mv) <==> (old(moves)@.contains(mv) || step_move(
                    self@,
                    sq,
                    dr as int,
                    df as int,
                    mv,
                )),
    {
        if let Some(to) = try_offset(sq, dr, df) {
            let own = match self.piece_at(to) {
                BoardPiece::Empty => false,
                BoardPiece::Piece(piece) => piece.color() == self.turn,
            };
            if !own {
                let mv = Move::normal(sq, to);
                let ghost before = moves@;
                moves.push(mv);
                proof {
                    lemma_push_no_dup(before, mv);
                    assert forall|m: Move| #[trigger] moves@.contains(m) <==> (before.contains(m)
                        || step_move(self@, sq, dr as int, df as int, m)) by {
                        lemma_push_contains(before, mv, m);
                    }
                }
            }
        }
    }

    /// Adds the pawn move from `sq` onto `to` as the side to move: a promotion to each
    /// generated kind when `last` says `to` is on the last rank, else a move of kind `Normal`.
    fn push_pawn_move(&self, sq: Square, to: Square, last: bool, moves: &mut Vec<Move>)
        requires
            last == (to.row() == last_row(self@.turn)),
            old(moves)@.no_duplicates(),
            forall|m: Move| old(moves)@.contains(m) ==> !(m.from == sq && m.to == to),
        ensures
            final(moves)@.no_duplicates(),
            forall|mv: Move|
                #[trigger] final(moves)@.contains(mv) <==> (old(moves)@.contains(mv) || (mv.from
                    == sq && mv.to == to && pawn_move_kind(self@, to, mv.move_type))),
    {
        let ghost before = moves@;
        if last {
            let q = Move::new(sq, to, MoveType::Promotion(PieceType::Queen));
            let n = Move::new(sq, to, MoveType::Promotion(PieceType::Knight));
            moves.push(q);
            moves.push(n);
            proof {
                lemma_push_no_dup(before, q);
                lemma_push_contains(before, q, n);
                lemma_push_no_dup(before.push(q), n);
                assert forall|m: Move| #[trigger] moves@.contains(m) <==> (before.contains(m) || m
                    == q || m == n) by {
                    lemma_push_contains(before, q, m);
                    lemma_push_contains(before.push(q), n, m);
                }
            }
        } else {
            let mv = Move::normal(sq, to);
            moves.push(mv);
            proof {
                lemma_push_no_dup(before, mv);
                assert forall|m: Move| #[trigger] moves@.contains(m) <==> (before.contains(m) || m
                    == mv) by {
                    lemma_push_contains(before, mv, m);
                }
            }
        }
    }

    /// Adds the diagonal pawn moves from `sq` onto `diag`, if that square is on the board: a
    /// capture of an enemy piece, and an en-passant capture onto the target square.
    fn push_pawn_diagonal(&self, sq: Square, diag: Option<Square>, last: bool, moves: &mut Vec<Move>)
        requires
            diag matches Some(d) ==> last == (d.row() == last_row(self@.turn)),
            old(moves)@.no_duplicates(),
            forall|m: Move| old(moves)@.contains(m) ==> !(m.from == sq && diag == Some(m.to)),
        ensures
            final(moves)@.no_duplicates(),
            forall|mv: Move|
                #[trigger] final(moves)@.contains(mv) <==> (old(moves)@.contains(mv) || (diag
                    == Some(mv.to) && mv.from == sq && ((self@.is_enemy(mv.to) && pawn_move_kind(
                    self@,
                    mv.to,
                    mv.move_type,
                )) || (self@.ep_target() == Some(mv.to) && self@.ep_capture_ok(mv.to)
                    && mv.move_type == MoveType::EnPassant)))),
    {
        if let Some(d) = diag {
            if let BoardPiece::Piece(capture) = self.piece_at(d) {
                if capture.color() != self.turn {
                    // A capture; onto the last rank it promotes.
                    self.push_pawn_move(sq, d, last, moves);
                }
            }
            let ghost mid = moves@;
            if self.ep_square() == Some(d) && self.piece_at(d) == BoardPiece::Empty {
                // The pawn taken en passant stands just behind the target square.
                if let Some(v) = d.down(self.turn) {
                    if self.piece_at(v) == BoardPiece::piece(PieceType::Pawn, self.turn.opposite()) {
                        let mv = Move::new(sq, d, MoveType::EnPassant);
                        moves.push(mv);
                        proof {
                            lemma_push_no_dup(mid, mv);
                            assert forall|m: Move| #[trigger] moves@.contains(m) <==> (mid.contains(
                                m,
                            ) || m == mv) by {
                                lemma_push_contains(mid, mv, m);
                            }
                        }
                    }
                }
            }
        }
    }

    /// Adds the moves of the pawn of the side to move on `sq`.
    fn gen_pawn_moves(&self, sq: Square, moves: &mut Vec<Move>)
        requires
            old(moves)@.no_duplicates(),
            forall|m: Move| old(moves)@.contains(m) ==> m.from != sq,
        ensures
            final(moves)@.no_duplicates(),
            forall|mv: Move|
                #[trigger] final(moves)@.contains(mv) <==> (old(moves)@.contains(mv) || pawn_move(
                    self@,
                    sq,
                    mv,
                )),
    {
        let ghost b = self@;
        let ghost f = forward(b.turn);
        let turn = self.turn;
        let up = match sq.up(turn) {
            Some(u) => u,
            None => {
                // A pawn on its last rank has nowhere to go.
                proof {
                    lemma_square_at(sq.row(), sq.col(), sq);
                    assert forall|m: Move| !pawn_move(b, sq, m) by {
                        lemma_square_at(sq.row() + f, sq.col() - 1, m.to);
                        lemma_square_at(sq.row() + f, sq.col() + 1, m.to);
                        lemma_square_at(sq.row() + 2 * f, sq.col(), m.to);
                    }
                }
                return ;
            },
        };
        let up_up = up.up(turn);
        let last = up_up.is_none();
        proof {
            lemma_last_row(up, turn);
            lemma_offset_compose(sq, f, 0, f, 0);
            lemma_offset_compose(sq, f, 0, 0, -f);
            lemma_offset_compose(sq, f, 0, 0, f);
            lemma_square_at(sq.row() + f, sq.col(), up);
            lemma_square_at(sq.row(), sq.col(), sq);
            if up_up is Some {
                lemma_square_at(sq.row() + 2 * f, sq.col(), up_up->0);
            }
        }
        let ghost start = moves@;
        if self.piece_at(up) == BoardPiece::Empty {
            self.push_pawn_move(sq, up, last, moves);
            let ghost mid = moves@;
            if let Some(uu) = up_up {
                let start_rank = match turn {
                    Color::White => Rank::R2,
                    Color::Black => Rank::R7,
                };
                if sq.rank() == start_rank && self.piece_at(uu) == BoardPiece::Empty {
                    let mv = Move::new(sq, uu, MoveType::DoublePush);
                    proof {
                        assert(!mid.contains(mv));
                    }
                    moves.push(mv);
                    proof {
                        lemma_push_no_dup(mid, mv);
                        assert forall|m: Move| #[trigger] moves@.contains(m) <==> (mid.contains(m)
                            || m == mv) by {
                            lemma_push_contains(mid, mv, m);
                        }
                    }
                }
            }
        }
        let ghost before_diag = moves@;
        let left = up.left(turn);
        if let Some(d) = left {
            proof {
                lemma_square_at(sq.row() + f, sq.col() - f, d);
                lemma_last_row(d, turn);
            }
        }
        self.push_pawn_diagonal(sq, left, last, moves);
        let right = up.right(turn);
        if let Some(d) = right {
            proof {
                lemma_square_at(sq.row() + f, sq.col() + f, d);
                lemma_last_row(d, turn);
                if left is Some {
                    lemma_square_at(sq.row() + f, sq.col() - f, left->0);
                }
            }
        }
        self.push_pawn_diagonal(sq, right, last, moves);
        proof {
            assert forall|m: Move| #[trigger] moves@.contains(m) <==> (start.contains(m) || pawn_move(b, sq, m)) by {
                if m.from == sq && (sq.offset(f, -1) == Some(m.to) || sq.offset(f, 1) == Some(m.to)) {
                    lemma_square_at(m.to.row(), m.to.col(), m.to);
                    lemma_last_row(m.to, turn);
                }
            }
        }
    }

    /// Adds the knight moves from `sq`.
    fn gen_knight_moves(&self, sq: Square, moves: &mut Vec<Move>)
        requires
            old(moves)@.no_duplicates(),
            forall|m: Move| old(moves)@.contains(m) ==> m.from != sq,
        ensures
            final(moves)@.no_duplicates(),
            forall|mv: Move|
                #[trigger] final(moves)@.contains(mv) <==> (old(moves)@.contains(mv)
                    || knight_move(self@, sq, mv)),
    {
        proof {
            assert forall|m: Move| moves@.contains(m) implies !step_move(self@, sq, -2, -1, m) by {
                lemma_step_to(sq, -2, -1, m);
            }
        }
        self.push_step(sq, -2, -1, moves);
        proof {
            assert forall|m: Move| moves@.contains(m) implies !step_move(self@, sq, -2, 1, m) by {
                lemma_step_to(sq, -2, -1, m);
                lemma_step_to(sq, -2, 1, m);
            }
        }
        self.push_step(sq, -2, 1, moves);
        proof {
            assert forall|m: Move| moves@.contains(m) implies !step_move(self@, sq, -1, -2, m) by {
                lemma_step_to(sq, -2, -1, m);
                lemma_step_to(sq, -2, 1, m);
                lemma_step_to(sq, -1, -2, m);
            }
        }
        self.push_step(sq, -1, -2, moves);
        proof {
            assert forall|m: Move| moves@.contains(m) implies !step_move(self@, sq, -1, 2, m) by {
                lemma_step_to(sq, -2, -1, m);
                lemma_step_to(sq, -2, 1, m);
                lemma_step_to(sq, -1, -2, m);
                lemma_step_to(sq, -1, 2, m);
            }
        }
        self.push_step(sq, -1, 2, moves);
        proof {
            assert forall|m: Move| moves@.contains(m) implies !step_move(self@, sq, 1, -2, m) by {
                lemma_step_to(sq, -2, -1, m);
                lemma_step_to(sq, -2, 1, m);
                lemma_step_to(sq, -1, -2, m);
                lemma_step_to(sq, -1, 2, m);
                lemma_step_to(sq, 1, -2, m);
            }
        }
        self.push_step(sq, 1, -2, moves);
        proof {
            assert forall|m: Move| moves@.contains(m) implies !step_move(self@, sq, 1, 2, m) by {
                lemma_step_to(sq, -2, -1, m);
                lemma_step_to(sq, -2, 1, m);
                lemma_step_to(sq, -1, -2, m);
                lemma_step_to(sq, -1, 2, m);
                lemma_step_to(sq, 1, -2, m);
                lemma_step_to(sq, 1, 2, m);
            }
        }
        self.push_step(sq, 1, 2, moves);
        proof {
            assert forall|m: Move| moves@.contains(m) implies !step_move(self@, sq, 2, -1, m) by {
                lemma_step_to(sq, -2, -1, m);
                lemma_step_to(sq, -2, 1, m);
                lemma_step_to(sq, -1, -2, m);
                lemma_step_to(sq, -1, 2, m);
                lemma_step_to(sq, 1, -2, m);
                lemma_step_to(sq, 1, 2, m);
                lemma_step_to(sq, 2, -1, m);
            }
        }
        self.push_step(sq, 2, -1, moves);
        proof {
            assert forall|m: Move| moves@.contains(m) implies !step_move(self@, sq, 2, 1, m) by {
                lemma_step_to(sq, -2, -1, m);
                lemma_step_to(sq, -2, 1, m);
                lemma_step_to(sq, -1, -2, m);
                lemma_step_to(sq, -1, 2, m);
                lemma_step_to(sq, 1, -2, m);
                lemma_step_to(sq, 1, 2, m);
                lemma_step_to(sq, 2, -1, m);
                lemma_step_to(sq, 2, 1, m);
            }
        }
        self.push_step(sq, 2, 1, moves);
    }

    /// Adds the king moves from `sq`; castling is not generated.
    fn gen_king_moves(&self, sq: Square, moves: &mut Vec<Move>)
        requires
            old(moves)@.no_duplicates(),
            forall|m: Move| old(moves)@.contains(m) ==> m.from != sq,
        ensures
            final(moves)@.no_duplicates(),
            forall|mv: Move|
                #[trigger] final(moves)@.contains(mv) <==> (old(moves)@.contains(mv) || king_move(
                    self@,
                    sq,
                    mv,
                )),
    {
        proof {
            assert forall|m: Move| moves@.contains(m) implies !step_move(self@, sq, 1, -1, m) by {
                lemma_step_to(sq, 1, -1, m);
            }
        }
        self.push_step(sq, 1, -1, moves);
        proof {
            assert forall|m: Move| moves@.contains(m) implies !step_move(self@, sq, 1, 0, m) by {
                lemma_step_to(sq, 1, -1, m);
                lemma_step_to(sq, 1, 0, m);
            }
        }
        self.push_step(sq, 1, 0, moves);
        proof {
            assert forall|m: Move| moves@.contains(m) implies !step_move(self@, sq, 1, 1, m) by {
                lemma_step_to(sq, 1, -1, m);
                lemma_step_to(sq, 1, 0, m);
                lemma_step_to(sq, 1, 1, m);
            }
        }
        self.push_step(sq, 1, 1, moves);
        proof {
            assert forall|m: Move| moves@.contains(m) implies !step_move(self@, sq, 0, -1, m) by {
                lemma_step_to(sq, 1, -1, m);
                lemma_step_to(sq, 1, 0, m);
                lemma_step_to(sq, 1, 1, m);
                lemma_step_to(sq, 0, -1, m);
            }
        }
        self.push_step(sq, 0, -1, moves);
        proof {
            assert forall|m: Move| moves@.contains(m) implies !step_move(self@, sq, 0, 1, m) by {
                lemma_step_to(sq, 1, -1, m);
                lemma_step_to(sq, 1, 0, m);
                lemma_step_to(sq, 1, 1, m);
                lemma_step_to(sq, 0, -1, m);
                lemma_step_to(sq, 0, 1, m);
            }
        }
        self.push_step(sq, 0, 1, moves);
        proof {
            assert forall|m: Move| moves@.contains(m) implies !step_move(self@, sq, -1, -1, m) by {
                lemma_step_to(sq, 1, -1, m);
                lemma_step_to(sq, 1, 0, m);
                lemma_step_to(sq, 1, 1, m);
                lemma_step_to(sq, 0, -1, m);
                lemma_step_to(sq, 0, 1, m);
                lemma_step_to(sq, -1, -1, m);
            }
        }
        self.push_step(sq, -1, -1, moves);
        proof {
            assert forall|m: Move| moves@.contains(m) implies !step_move(self@, sq, -1, 0, m) by {
                lemma_step_to(sq, 1, -1, m);
                lemma_step_to(sq, 1, 0, m);
                lemma_step_to(sq, 1, 1, m);
                lemma_step_to(sq, 0, -1, m);
                lemma_step_to(sq, 0, 1, m);
                lemma_step_to(sq, -1, -1, m);
                lemma_step_to(sq, -1, 0, m);
            }
        }
        self.push_step(sq, -1, 0, moves);
        proof {
            assert forall|m: Move| moves@.contains(m) implies !step_move(self@, sq, -1, 1, m) by {
                lemma_step_to(sq, 1, -1, m);
                lemma_step_to(sq, 1, 0, m);
                lemma_step_to(sq, 1, 1, m);
                lemma_step_to(sq, 0, -1, m);
                lemma_step_to(sq, 0, 1, m);
                lemma_step_to(sq, -1, -1, m);
                lemma_step_to(sq, -1, 0, m);
                lemma_step_to(sq, -1, 1, m);
            }
        }
        self.push_step(sq, -1, 1, moves);
    }

    /// Adds the rook moves from `sq`.
    fn gen_rook_moves(&self, sq: Square, moves: &mut Vec<Move>)
        requires
            old(moves)@.no_duplicates(),
            forall|m: Move| old(moves)@.contains(m) ==> !rook_move(self@, sq, m),
        ensures
            final(moves)@.no_duplicates(),
            forall|mv: Move|
                #[trigger] final(moves)@.contains(mv) <==> (old(moves)@.contains(mv) || rook_move(
                    self@,
                    sq,
                    mv,
                )),
    {
        proof {
            assert forall|m: Move| moves@.contains(m) implies !ray_move(self@, sq, 1, 0, m) by {
            }
        }
        self.push_ray(sq, 1, 0, moves);
        proof {
            assert forall|m: Move| moves@.contains(m) implies !ray_move(self@, sq, -1, 0, m) by {
                lemma_ray_unique(self@, sq, 1, 0, -1, 0, m);
            }
        }
        self.push_ray(sq, -1, 0, moves);
        proof {
            assert forall|m: Move| moves@.contains(m) implies !ray_move(self@, sq, 0, -1, m) by {
                lemma_ray_unique(self@, sq, 1, 0, 0, -1, m);
                lemma_ray_unique(self@, sq, -1, 0, 0, -1, m);
            }
        }
        self.push_ray(sq, 0, -1, moves);
        proof {
            assert forall|m: Move| moves@.contains(m) implies !ray_move(self@, sq, 0, 1, m) by {
                lemma_ray_unique(self@, sq, 1, 0, 0, 1, m);
                lemma_ray_unique(self@, sq, -1, 0, 0, 1, m);
                lemma_ray_unique(self@, sq, 0, -1, 0, 1, m);
            }
        }
        self.push_ray(sq, 0, 1, moves);
    }

    /// Adds the bishop moves from `sq`.
    fn gen_bishop_moves(&self, sq: Square, moves: &mut Vec<Move>)
        requires
            old(moves)@.no_duplicates(),
            forall|m: Move| old(moves)@.contains(m) ==> !bishop_move(self@, sq, m),
        ensures
            final(moves)@.no_duplicates(),
            forall|mv: Move|
                #[trigger] final(moves)@.contains(mv) <==> (old(moves)@.contains(mv) || bishop_move(
                    self@,
                    sq,
                    mv,
                )),
    {
        proof {
            assert forall|m: Move| moves@.contains(m) implies !ray_move(self@, sq, 1, -1, m) by {
            }
        }
        self.push_ray(sq, 1, -1, moves);
        proof {
            assert forall|m: Move| moves@.contains(m) implies !ray_move(self@, sq, -1, -1, m) by {
                lemma_ray_unique(self@, sq, 1, -1, -1, -1, m);
            }
        }
        self.push_ray(sq, -1, -1, moves);
        proof {
            assert forall|m: Move| moves@.contains(m) implies !ray_move(self@, sq, 1, 1, m) by {
                lemma_ray_unique(self@, sq, 1, -1, 1, 1, m);
                lemma_ray_unique(self@, sq, -1, -1, 1, 1, m);
            }
        }
        self.push_ray(sq, 1, 1, moves);
        proof {
            assert forall|m: Move| moves@.contains(m) implies !ray_move(self@, sq, -1, 1, m) by {
                lemma_ray_unique(self@, sq, 1, -1, -1, 1, m);
                lemma_ray_unique(self@, sq, -1, -1, -1, 1, m);
                lemma_ray_unique(self@, sq, 1, 1, -1, 1, m);
            }
        }
        self.push_ray(sq, -1, 1, moves);
    }

    /// Adds the queen moves from `sq`: those of a rook and those of a bishop.
    fn gen_queen_moves(&self, sq: Square, moves: &mut Vec<Move>)
        requires
            old(moves)@.no_duplicates(),
            forall|m: Move| old(moves)@.contains(m) ==> m.from != sq,
        ensures
            final(moves)@.no_duplicates(),
            forall|mv: Move|
                #[trigger] final(moves)@.contains(mv) <==> (old(moves)@.contains(mv) || rook_move(
                    self@,
                    sq,
                    mv,
                ) || bishop_move(self@, sq, mv)),
    {
        proof {
            assert forall|m: Move| moves@.contains(m) implies !rook_move(self@, sq, m) by {
                lemma_slide_from(self@, sq, m);
            }
        }
        self.gen_rook_moves(sq, moves);
        proof {
            assert forall|m: Move| moves@.contains(m) implies !bishop_move(self@, sq, m) by {
                lemma_slide_from(self@, sq, m);
                lemma_rook_not_bishop(self@, sq, m);
            }
        }
        self.gen_bishop_moves(sq, moves);
    }

    /// The pseudo-legal moves of the side to move, in no promised order.
    pub fn gen_pseudo_moves(&self) -> (moves: Vec<Move>)
        ensures
            moves@.no_duplicates(),
            forall|mv: Move| #[trigger] moves@.contains(mv) <==> pseudo_move(self@, mv),
    {
        let mut moves: Vec<Move> = Vec::new();
        let mut i: u8 = 0;
        while i < 64
            invariant
                i <= 64,
                moves@.no_duplicates(),
                forall|mv: Move|
                    #[trigger] moves@.contains(mv) <==> (pseudo_move(self@, mv) && mv.from.idx() < i),
            decreases 64 - i,
        {
            let sq = Square::from_index(i);
            let ghost before = moves@;
            proof {
                assert forall|m: Move| moves@.contains(m) implies m.from != sq && !rook_move(
                    self@,
                    sq,
                    m,
                ) && !bishop_move(self@, sq, m) by {
                    lemma_slide_from(self@, sq, m);
                    Square::lemma_index(sq);
                }
            }
            if let BoardPiece::Piece(piece) = self.piece_at(sq) {
                if piece.color() == self.turn {
                    match piece.piece_type() {
                        PieceType::Pawn => self.gen_pawn_moves(sq, &mut moves),
                        PieceType::Knight => self.gen_knight_moves(sq, &mut moves),
                        PieceType::King => self.gen_king_moves(sq, &mut moves),
                        PieceType::Rook => self.gen_rook_moves(sq, &mut moves),
                        PieceType::Bishop => self.gen_bishop_moves(sq, &mut moves),
                        PieceType::Queen => self.gen_queen_moves(sq, &mut moves),
                    }
                }
            }
            proof {
                assert forall|mv: Move| #[trigger] moves@.contains(mv) <==> (pseudo_move(self@, mv)
                    && mv.from.idx() < i + 1) by {
                    lemma_slide_from(self@, sq, mv);
                    Square::lemma_index(mv.from);
                    if mv.from.idx() == i {
                        assert(mv.from == sq) by {
                            Square::lemma_index(sq);
                        }
                    }
                }
            }
            i = i + 1;
        }
        moves
    }

    #[verifier::rlimit(30)]
    fn push_ray(&self, sq: Square, dr: i8, df: i8, moves: &mut Vec<Move>)
        requires
            -1 <= dr <= 1,
            -1 <= df <= 1,
            dr != 0 || df != 0,
            old(moves)@.no_duplicates(),
            forall|m: Move| old(moves)@.contains(m) ==> !ray_move(self@, sq, dr as int, df as int, m),
        ensures
            final(moves)@.no_duplicates(),
            forall|mv: Move|
                #[trigger] final(moves)@.contains(mv) <==> (old(moves)@.contains(mv) || ray_move(
                    self@,
                    sq,
                    dr as int,
                    df as int,
                    mv,
                )),
    {
        let ghost b = self@;
        let ghost start = moves@;
        let mut prev = sq;
        let mut k: usize = 0;
        proof {
            lemma_square_at(sq.row(), sq.col(), sq);
            assert forall|m: Move| !(ray_move(b, sq, dr as int, df as int, m) && distance(sq, m.to)
                <= 0) by {
                reveal(ray_move);
            }
        }
        loop
            invariant_except_break
                forall|mv: Move|
                    #[trigger] moves@.contains(mv) <==> (start.contains(mv) || (ray_move(
                        b,
                        sq,
                        dr as int,
                        df as int,
                        mv,
                    ) && distance(sq, mv.to) <= k)),
                -1 <= dr <= 1,
                -1 <= df <= 1,
                dr != 0 || df != 0,
                b == self@,
                k <= 7,
                ray(sq, dr as int, df as int, k as int) == Some(prev),
                forall|j: int| 1 <= j <= k ==> #[trigger] ray_empty(b, sq, dr as int, df as int, j),
                moves@.no_duplicates(),
                forall|m: Move| start.contains(m) ==> !ray_move(b, sq, dr as int, df as int, m),
            ensures
                moves@.no_duplicates(),
                forall|mv: Move|
                    #[trigger] moves@.contains(mv) <==> (start.contains(mv) || ray_move(
                        b,
                        sq,
                        dr as int,
                        df as int,
                        mv,
                    )),
            decreases 7 - k,
        {
            let next = try_offset(prev, dr, df);
            proof {
                lemma_ray_step(sq, dr as int, df as int, k as int, prev);
            }
            match next {
                None => {
                    proof {
                        assert forall|mv: Move| ray_move(b, sq, dr as int, df as int, mv) implies distance(
                            sq,
                            mv.to,
                        ) <= k by {
                            lemma_ray_stop(b, sq, dr as int, df as int, k as int, mv);
                        }
                    }
                    break;
                },
                Some(to) => {
                    let mv = Move::normal(sq, to);
                    let ghost before = moves@;
                    proof {
                        lemma_ray_distance(sq, dr as int, df as int, (k + 1) as int, to);
                        lemma_ray_next(b, sq, dr as int, df as int, k as int, to, mv);
                        if !b.is_own(to) {
                            assert(!before.contains(mv));
                        }
                    }
                    match self.piece_at(to) {
                        BoardPiece::Piece(piece) => {
                            if piece.color() != self.turn {
                                moves.push(mv);
                                proof {
                                    lemma_push_no_dup(before, mv);
                                }
                            }
                            proof {
                                assert forall|m: Move| #[trigger] moves@.contains(m) <==> (
                                start.contains(m) || ray_move(b, sq, dr as int, df as int, m)) by {
                                    if piece.side() != b.turn {
                                        lemma_push_contains(before, mv, m);
                                    }
                                    lemma_ray_next(b, sq, dr as int, df as int, k as int, to, m);
                                    lemma_ray_stop(b, sq, dr as int, df as int, k as int, m);
                                }
                            }
                            break;
                        },
                        BoardPiece::Empty => {
                            moves.push(mv);
                            proof {
                                lemma_push_no_dup(before, mv);
                                assert forall|m: Move| #[trigger] moves@.contains(m) <==> (
                                start.contains(m) || (ray_move(b, sq, dr as int, df as int, m)
                                    && distance(sq, m.to) <= k + 1)) by {
                                    lemma_push_contains(before, mv, m);
                                    lemma_ray_next(b, sq, dr as int, df as int, k as int, to, m);
                                }
                            }
                            prev = to;
                            k = k + 1;
                        },
                    }
                },
            }
        }
    }
}

/// Every generated move is one that `make_move` accepts, and taking it back with the record
/// that `make_move` returned restores the position exactly, so its notation text too. A move by
/// Black must leave room for the full-move count to grow.
pub proof fn lemma_generated_move_undo(b: BoardView, mv: Move)
    requires
        b.cells.len() == 64,
        pseudo_move(b, mv),
        b.turn == Color::Black ==> b.fullmove_count < u16::MAX,
    ensures
        b.valid_move(mv),
        b.after_move(mv).can_undo(b.change_for(mv)),
        b.after_move(mv).after_undo(b.change_for(mv)) == b,
        fen_encode(b.after_move(mv).after_undo(b.change_for(mv))) == fen_encode(b),
{
    lemma_generated_valid(b, mv);
    lemma_undo_inverts_make(b, mv);
}

/// Generated moves satisfy what `make_move` asks of a move.
proof fn lemma_generated_valid(b: BoardView, mv: Move)
    requires
        b.cells.len() == 64,
        pseudo_move(b, mv),
        b.turn == Color::Black ==> b.fullmove_count < u16::MAX,
    ensures
        b.valid_move(mv),
{
    let p = b.cell(mv.from)->Piece_0;
    let f = forward(b.turn);
    SidePiece::lemma_parts(p);
    lemma_square_at(mv.from.row(), mv.from.col(), mv.from);
    lemma_square_at(mv.to.row(), mv.to.col(), mv.to);
    reveal(ray_move);
    if p.kind() == PieceType::Pawn {
        lemma_square_at(mv.from.row() + f, mv.from.col() - 1, mv.to);
        lemma_square_at(mv.from.row() + f, mv.from.col() + 1, mv.to);
        lemma_square_at(mv.from.row() + f, mv.from.col(), mv.to);
        lemma_square_at(mv.from.row() + 2 * f, mv.from.col(), mv.to);
        if b.ep_target() == Some(mv.to) {
            let file = b.ep_file->0;
            File::lemma_index(file);
            Square::lemma_from_int(ep_row(b.turn) * 8 + file as int);
            vstd::arithmetic::div_mod::lemma_fundamental_div_mod_converse(
                ep_row(b.turn) * 8 + file as int,
                8,
                ep_row(b.turn),
                file as int,
            );
        }
    }
}

/// After a generated double push the en-passant target is the square the pawn passed over;
/// after any other generated move there is none.
pub proof fn lemma_en_passant_lifecycle(b: BoardView, mv: Move)
    requires
        b.cells.len() == 64,
        pseudo_move(b, mv),
    ensures
        mv.move_type == MoveType::DoublePush ==> b.after_move(mv).ep_target() == mv.from.offset(
            forward(b.turn),
            0,
        ),
        mv.move_type != MoveType::DoublePush ==> b.after_move(mv).ep_target() is None,
{
    reveal(ray_move);
    if mv.move_type == MoveType::DoublePush {
        let f = forward(b.turn);
        lemma_square_at(mv.from.row() + 2 * f, mv.from.col(), mv.to);
        lemma_square_at(mv.from.row(), mv.from.col(), mv.from);
        File::lemma_int(mv.to.col());
    }
}

/// A double push that `make_move` accepts, from the pawns' starting rank to the square two
/// ranks ahead, leaves as en-passant target the square the pawn passed over.
pub proof fn lemma_double_push_target(b: BoardView, mv: Move)
    requires
        b.valid_move(mv),
        mv.move_type == MoveType::DoublePush,
        mv.from.row() == pawn_row(b.turn),
        mv.from.offset(2 * forward(b.turn), 0) == Some(mv.to),
    ensures
        b.after_move(mv).ep_file == Some(mv.to.file_of()),
        b.after_move(mv).ep_target() == mv.from.offset(forward(b.turn), 0),
{
    let f = forward(b.turn);
    lemma_square_at(mv.from.row() + 2 * f, mv.from.col(), mv.to);
    lemma_square_at(mv.from.row(), mv.from.col(), mv.from);
    File::lemma_int(mv.to.col());
}

/// Sliding moves cross only empty squares and never land on the mover's own piece; along a
/// direction, the first occupied square is a destination exactly when it holds an enemy piece,
/// and nothing beyond it is; knight and king moves never land on the mover's own piece.
pub proof fn lemma_boundary_geometry(b: BoardView, from: Square, dr: int, df: int, k: int, mv: Move)
    requires
        -1 <= dr <= 1,
        -1 <= df <= 1,
        dr != 0 || df != 0,
    ensures
        ray_move(b, from, dr, df, mv) ==> !b.is_own(mv.to) && forall|j: int|
            1 <= j < distance(from, mv.to) ==> #[trigger] ray_empty(b, from, dr, df, j),
        (k >= 1 && (forall|j: int| 1 <= j < k ==> #[trigger] ray_empty(b, from, dr, df, j)) && ray(
            from,
            dr,
            df,
            k,
        ) is Some && b.cell(ray(from, dr, df, k)->0) != BoardPiece::Empty) ==> ((ray_move(
            b,
            from,
            dr,
            df,
            Move::normal_spec(from, ray(from, dr, df, k)->0),
        ) <==> b.is_enemy(ray(from, dr, df, k)->0)) && (ray_move(b, from, dr, df, mv) ==> distance(
            from,
            mv.to,
        ) <= k)),
        knight_move(b, from, mv) || king_move(b, from, mv) ==> !b.is_own(mv.to),
{
    reveal(ray_move);
    if k >= 1 && (forall|j: int| 1 <= j < k ==> #[trigger] ray_empty(b, from, dr, df, j)) && ray(
        from,
        dr,
        df,
        k,
    ) is Some && b.cell(ray(from, dr, df, k)->0) != BoardPiece::Empty {
        let t = ray(from, dr, df, k)->0;
        lemma_ray_distance(from, dr, df, k, t);
        assert(forall|j: int| 1 <= j <= k - 1 ==> #[trigger] ray_empty(b, from, dr, df, j));
        lemma_ray_stop(b, from, dr, df, k - 1, mv);
    }
}

/// Moving by one offset and then by another is moving by their sum.
proof fn lemma_offset_compose(sq: Square, a: int, b: int, c: int, d: int)
    ensures
        sq.offset(a, b) matches Some(s) ==> s.offset(c, d) == sq.offset(a + c, b + d),
{
    if sq.offset(a, b) is Some {
        let s = sq.offset(a, b)->0;
        lemma_square_at(sq.row() + a, sq.col() + b, s);
    }
}

/// A square has no square in front of it, as `side` sees it, exactly when it is on `side`'s
/// last rank.
proof fn lemma_last_row(s: Square, side: Color)
    ensures
        (s.offset(forward(side), 0) is None) == (s.row() == last_row(side)),
{
    lemma_square_at(s.row() + forward(side), s.col(), s);
    lemma_square_at(s.row(), s.col(), s);
}

/// Sliding moves start on the square they slide from.
proof fn lemma_slide_from(b: BoardView, sq: Square, mv: Move)
    ensures
        rook_move(b, sq, mv) || bishop_move(b, sq, mv) ==> mv.from == sq,
{
    reveal(ray_move);
}

/// One more step along a direction goes from the square `k` steps away to the one `k + 1`
/// steps away.
proof fn lemma_ray_step(sq: Square, dr: int, df: int, k: int, prev: Square)
    requires
        -1 <= dr <= 1,
        -1 <= df <= 1,
        ray(sq, dr, df, k) == Some(prev),
    ensures
        prev.offset(dr, df) == ray(sq, dr, df, k + 1),
{
    lemma_square_at(sq.row() + scaled(k, dr), sq.col() + scaled(k, df), prev);
}

/// The square `k` steps along a direction is `k` king steps away.
proof fn lemma_ray_distance(sq: Square, dr: int, df: int, k: int, to: Square)
    requires
        -1 <= dr <= 1,
        -1 <= df <= 1,
        dr != 0 || df != 0,
        k >= 0,
        ray(sq, dr, df, k) == Some(to),
    ensures
        distance(sq, to) == k,
        k <= 7,
{
    lemma_square_at(sq.row() + scaled(k, dr), sq.col() + scaled(k, df), to);
    lemma_square_at(sq.row(), sq.col(), sq);
}

/// A sliding move reaches no further than the first square along its direction that is not
/// empty or not on the board, and reaching that square means landing on it.
proof fn lemma_ray_stop(b: BoardView, sq: Square, dr: int, df: int, k: int, m: Move)
    requires
        k >= 0,
        forall|j: int| 1 <= j <= k ==> #[trigger] ray_empty(b, sq, dr, df, j),
        !ray_empty(b, sq, dr, df, k + 1),
    ensures
        ray_move(b, sq, dr, df, m) ==> distance(sq, m.to) <= k + 1,
        ray_move(b, sq, dr, df, m) && distance(sq, m.to) == k + 1 ==> ray(sq, dr, df, k + 1) == Some(
            m.to,
        ),
{
    reveal(ray_move);
    if ray_move(b, sq, dr, df, m) && distance(sq, m.to) > k + 1 {
        assert(ray_empty(b, sq, dr, df, k + 1));
    }
}

/// Once the first `k` squares along a direction are empty, the sliding moves that reach at
/// most `k + 1` steps are those that reach at most `k`, and the move onto the next square if
/// that square is not the mover's own.
proof fn lemma_ray_next(b: BoardView, sq: Square, dr: int, df: int, k: int, to: Square, m: Move)
    requires
        -1 <= dr <= 1,
        -1 <= df <= 1,
        dr != 0 || df != 0,
        k >= 0,
        ray(sq, dr, df, k + 1) == Some(to),
        forall|j: int| 1 <= j <= k ==> #[trigger] ray_empty(b, sq, dr, df, j),
    ensures
        (ray_move(b, sq, dr, df, m) && distance(sq, m.to) <= k + 1) <==> ((ray_move(
            b,
            sq,
            dr,
            df,
            m,
        ) && distance(sq, m.to) <= k) || (m == Move::normal_spec(sq, to) && !b.is_own(to))),
{
    reveal(ray_move);
    lemma_ray_distance(sq, dr, df, k + 1, to);
    if m == Move::normal_spec(sq, to) && !b.is_own(to) {
        assert(forall|j: int| 1 <= j < k + 1 ==> #[trigger] ray_empty(b, sq, dr, df, j));
    }
    if ray_move(b, sq, dr, df, m) && distance(sq, m.to) == k + 1 {
        assert(m.to == to);
    }
}

/// A sequence without repeats keeps none when an element it lacks is added.
proof fn lemma_push_no_dup<A>(s: Seq<A>, x: A)
    requires
        s.no_duplicates(),
        !s.contains(x),
    ensures
        s.push(x).no_duplicates(),
{
    let t = s.push(x);
    assert forall|i: int, j: int| 0 <= i < t.len() && 0 <= j < t.len() && i != j implies t[i]
        != t[j] by {
        if i == s.len() {
            assert(s[j] == t[j]);
        } else if j == s.len() {
            assert(s[i] == t[i]);
        } else {
            assert(s[i] == t[i] && s[j] == t[j]);
        }
    }
}

/// A one-jump move by (`dr`, `df`) lands exactly that many ranks and files away.
proof fn lemma_step_to(sq: Square, dr: int, df: int, m: Move)
    ensures
        sq.offset(dr, df) == Some(m.to) ==> m.to.row() == sq.row() + dr && m.to.col() == sq.col()
            + df,
{
    lemma_square_at(sq.row() + dr, sq.col() + df, m.to);
}

/// A sliding move belongs to one direction only.
proof fn lemma_ray_unique(b: BoardView, sq: Square, dr1: int, df1: int, dr2: int, df2: int, m: Move)
    requires
        -1 <= dr1 <= 1,
        -1 <= df1 <= 1,
        -1 <= dr2 <= 1,
        -1 <= df2 <= 1,
    ensures
        ray_move(b, sq, dr1, df1, m) && ray_move(b, sq, dr2, df2, m) ==> dr1 == dr2 && df1 == df2,
{
    reveal(ray_move);
    let k = distance(sq, m.to);
    lemma_square_at(sq.row() + scaled(k, dr1), sq.col() + scaled(k, df1), m.to);
    lemma_square_at(sq.row() + scaled(k, dr2), sq.col() + scaled(k, df2), m.to);
}

/// No move is both a rook move and a bishop move.
proof fn lemma_rook_not_bishop(b: BoardView, sq: Square, m: Move)
    ensures
        rook_move(b, sq, m) ==> !bishop_move(b, sq, m),
{
    let rook = seq![(1int, 0int), (-1int, 0int), (0int, -1int), (0int, 1int)];
    let bishop = seq![(1int, -1int), (-1int, -1int), (1int, 1int), (-1int, 1int)];
    assert forall|i: int, j: int| 0 <= i < 4 && 0 <= j < 4 implies !(ray_move(
        b,
        sq,
        rook[i].0,
        rook[i].1,
        m,
    ) && ray_move(b, sq, bishop[j].0, bishop[j].1, m)) by {
        lemma_ray_unique(b, sq, rook[i].0, rook[i].1, bishop[j].0, bishop[j].1, m);
    }
    assert(rook[0] == (1int, 0int) && rook[1] == (-1int, 0int) && rook[2] == (0int, -1int) && rook[3]
        == (0int, 1int));
    assert(bishop[0] == (1int, -1int) && bishop[1] == (-1int, -1int) && bishop[2] == (1int, 1int)
        && bishop[3] == (-1int, 1int));
}

} // verus!
