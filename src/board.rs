use vstd::prelude::*;

use crate::moves::{CastlingRights, Move, MoveType, StateChange};
use crate::piece::{BoardPiece, Color, PieceType, SidePiece};
use crate::position::{forward, File, Rank, Square};

verus! {

/// A position: the 64 cells, the side to move, the en-passant file, the castling rights and the
/// two clocks.
#[derive(Clone, Debug)]
pub struct Board {
    pub array: [BoardPiece; 64],
    pub turn: Color,
    pub ep_file: Option<File>,
    pub castle_rights: CastlingRights,
    pub halfmove_clock: u8,
    pub fullmove_count: u16,
}

/// The error of a notation text that does not describe a position.
#[derive(Clone, Copy, Debug, PartialEq, Eq, Structural)]
pub struct FenError;

/// The mathematical value of a position: its cells as a sequence indexed by square index.
pub struct BoardView {
    pub cells: Seq<BoardPiece>,
    pub turn: Color,
    pub ep_file: Option<File>,
    pub castle_rights: CastlingRights,
    pub halfmove_clock: u8,
    pub fullmove_count: u16,
}

impl View for Board {
    type V = BoardView;

    open spec fn view(&self) -> BoardView {
        BoardView {
            cells: self.array@,
            turn: self.turn,
            ep_file: self.ep_file,
            castle_rights: self.castle_rights,
            halfmove_clock: self.halfmove_clock,
            fullmove_count: self.fullmove_count,
        }
    }
}

/// The rank (counted from 0) of the en-passant target square when `side` is to move.
pub open spec fn ep_row(side: Color) -> int {
    match side {
        Color::White => 5,
        Color::Black => 2,
    }
}

/// The rank (counted from 0) that `side`'s pawns promote on.
pub open spec fn last_row(side: Color) -> int {
    match side {
        Color::White => 7,
        Color::Black => 0,
    }
}

/// The rank (counted from 0) that `side`'s pawns start on.
pub open spec fn pawn_row(side: Color) -> int {
    match side {
        Color::White => 1,
        Color::Black => 6,
    }
}

pub open spec fn is_promotion_kind(k: PieceType) -> bool {
    k == PieceType::Rook || k == PieceType::Bishop || k == PieceType::Knight || k == PieceType::Queen
}

/// The cells of the standard starting position, by square index.
pub open spec fn start_cell(i: int) -> BoardPiece {
    let f = i % 8;
    let row = i / 8;
    if row == 1 {
        BoardPiece::Piece(SidePiece::WPawn)
    } else if row == 6 {
        BoardPiece::Piece(SidePiece::BPawn)
    } else if row == 0 {
        BoardPiece::Piece(SidePiece::of(back_rank_kind(f), Color::White))
    } else if row == 7 {
        BoardPiece::Piece(SidePiece::of(back_rank_kind(f), Color::Black))
    } else {
        BoardPiece::Empty
    }
}

/// The kind of piece that starts on file `f` of a back rank.
pub open spec fn back_rank_kind(f: int) -> PieceType {
    if f == 0 || f == 7 {
        PieceType::Rook
    } else if f == 1 || f == 6 {
        PieceType::Knight
    } else if f == 2 || f == 5 {
        PieceType::Bishop
    } else if f == 3 {
        PieceType::Queen
    } else {
        PieceType::King
    }
}

impl BoardView {
    pub open spec fn cell(self, sq: Square) -> BoardPiece {
        self.cells[sq.idx()]
    }

    /// Whether `sq` holds a piece of the side to move.
    pub open spec fn is_own(self, sq: Square) -> bool {
        self.cell(sq) matches BoardPiece::Piece(p) && p.side() == self.turn
    }

    /// Whether `sq` holds a piece of the side not to move.
    pub open spec fn is_enemy(self, sq: Square) -> bool {
        self.cell(sq) matches BoardPiece::Piece(p) && p.side() != self.turn
    }

    /// The en-passant target square: the recorded file, on the sixth rank when White is to
    /// move and on the third when Black is.
    pub open spec fn ep_target(self) -> Option<Square> {
        match self.ep_file {
            Some(f) => Some(Square::from_int(ep_row(self.turn) * 8 + f as int)),
            None => None,
        }
    }

    /// Whether an en-passant capture onto `t` has something to take: `t` is empty and a pawn
    /// of the side not to move stands just behind it.
    pub open spec fn ep_capture_ok(self, t: Square) -> bool {
        &&& self.cell(t) == BoardPiece::Empty
        &&& BoardView::behind(t, self.turn) is Some
        &&& self.cell(BoardView::behind(t, self.turn)->0) == BoardPiece::Piece(
            SidePiece::of(PieceType::Pawn, self.turn.other()),
        )
    }

    /// The square just behind `sq`, as the side `side` sees it.
    pub open spec fn behind(sq: Square, side: Color) -> Option<Square> {
        sq.offset(-forward(side), 0)
    }

    /// The moves that `make_move` accepts: the side to move moves one of its own pieces, never
    /// onto one of its own, and the move's kind fits the position and the geometry.
    pub open spec fn valid_move(self, mv: Move) -> bool {
        &&& self.cells.len() == 64
        &&& self.is_own(mv.from)
        &&& !self.is_own(mv.to)
        &&& (self.turn == Color::Black ==> self.fullmove_count < u16::MAX)
        &&& match mv.move_type {
            MoveType::Normal => true,
            MoveType::DoublePush => mv.from.col() == mv.to.col(),
            MoveType::EnPassant => {
                &&& self.ep_file == Some(mv.to.file_of())
                &&& mv.from.row() == ep_row(self.turn) - forward(self.turn)
                &&& mv.to.row() == ep_row(self.turn)
                &&& (mv.from.col() - mv.to.col() == 1 || mv.to.col() - mv.from.col() == 1)
                &&& self.cell(mv.to) == BoardPiece::Empty
                &&& BoardView::behind(mv.to, self.turn) matches Some(v) && self.cell(v)
                    == BoardPiece::Piece(SidePiece::of(PieceType::Pawn, self.turn.other()))
            },
            MoveType::Castle => false,
            MoveType::Promotion(k) => {
                &&& mv.to.row() == last_row(self.turn)
                &&& is_promotion_kind(k)
                &&& self.cell(mv.from) == BoardPiece::Piece(SidePiece::of(PieceType::Pawn, self.turn))
            },
        }
    }

    /// The record that applying `mv` hands back.
    pub open spec fn change_for(self, mv: Move) -> StateChange {
        StateChange {
            last_move: mv,
            captured: self.cell(mv.to),
            last_ep_file: self.ep_file,
            last_castle_rights: self.castle_rights,
        }
    }

    /// The position after `mv`: the piece goes from `from` to `to`, the kind of move adds its
    /// effect, the en-passant file is set only by a double push, and the other side moves next.
    pub open spec fn after_move(self, mv: Move) -> BoardView {
        let moved = self.cells.update(mv.to.idx(), self.cell(mv.from)).update(
            mv.from.idx(),
            BoardPiece::Empty,
        );
        let cells = match mv.move_type {
            MoveType::EnPassant => match BoardView::behind(mv.to, self.turn) {
                Some(v) => moved.update(v.idx(), BoardPiece::Empty),
                None => moved,
            },
            MoveType::Promotion(k) => moved.update(
                mv.to.idx(),
                BoardPiece::Piece(SidePiece::of(k, self.turn)),
            ),
            _ => moved,
        };
        BoardView {
            cells,
            turn: self.turn.other(),
            ep_file: if mv.move_type == MoveType::DoublePush {
                Some(mv.to.file_of())
            } else {
                None
            },
            castle_rights: self.castle_rights,
            halfmove_clock: self.halfmove_clock,
            fullmove_count: if self.turn == Color::Black {
                (self.fullmove_count + 1) as u16
            } else {
                self.fullmove_count
            },
        }
    }

    /// The records that `undo_move` accepts: no castle, a full-move count that can go back, and
    /// an en-passant target with a square behind it.
    pub open spec fn can_undo(self, sc: StateChange) -> bool {
        let side = self.turn.other();
        &&& self.cells.len() == 64
        &&& sc.last_move.move_type != MoveType::Castle
        &&& (side == Color::Black ==> self.fullmove_count >= 1)
        &&& (sc.last_move.move_type == MoveType::EnPassant ==> BoardView::behind(
            sc.last_move.to,
            side,
        ) is Some)
    }

    /// The position after taking back the move that `sc` records.
    pub open spec fn after_undo(self, sc: StateChange) -> BoardView {
        let side = self.turn.other();
        let mv = sc.last_move;
        let back = self.cells.update(mv.from.idx(), self.cell(mv.to)).update(
            mv.to.idx(),
            sc.captured,
        );
        let cells = match mv.move_type {
            MoveType::EnPassant => match BoardView::behind(mv.to, side) {
                Some(v) => back.update(
                    v.idx(),
                    BoardPiece::Piece(SidePiece::of(PieceType::Pawn, side.other())),
                ),
                None => back,
            },
            MoveType::Promotion(_) => back.update(
                mv.from.idx(),
                BoardPiece::Piece(SidePiece::of(PieceType::Pawn, side)),
            ),
            _ => back,
        };
        BoardView {
            cells,
            turn: side,
            ep_file: sc.last_ep_file,
            castle_rights: sc.last_castle_rights,
            halfmove_clock: self.halfmove_clock,
            fullmove_count: if side == Color::Black {
                (self.fullmove_count - 1) as u16
            } else {
                self.fullmove_count
            },
        }
    }

    /// The standard starting position, White to move with all castling rights.
    pub open spec fn start() -> BoardView {
        BoardView {
            cells: Seq::new(64, |i: int| start_cell(i)),
            turn: Color::White,
            ep_file: None,
            castle_rights: CastlingRights::spec_new(true, true, true, true),
            halfmove_clock: 0,
            fullmove_count: 1,
        }
    }

    /// The empty board: White to move, no rights, no en-passant file, clocks at 0 and 1.
    pub open spec fn empty() -> BoardView {
        BoardView {
            cells: Seq::new(64, |i: int| BoardPiece::Empty),
            turn: Color::White,
            ep_file: None,
            castle_rights: CastlingRights::none_spec(),
            halfmove_clock: 0,
            fullmove_count: 1,
        }
    }
}

/// Taking back a move restores the position it was applied to: for every move that
/// `make_move` accepts, `undo_move` accepts the record it returned, and the two together
/// leave the position as it was.
pub proof fn lemma_undo_inverts_make(b: BoardView, mv: Move)
    requires
        b.valid_move(mv),
    ensures
        b.after_move(mv).can_undo(b.change_for(mv)),
        b.after_move(mv).after_undo(b.change_for(mv)) == b,
{
    let a = b.after_move(mv);
    let sc = b.change_for(mv);
    let u = a.after_undo(sc);
    Square::lemma_index(mv.from);
    Square::lemma_index(mv.to);
    assert(mv.from != mv.to);
    assert(mv.from.idx() != mv.to.idx());
    if mv.move_type == MoveType::EnPassant {
        let v = BoardView::behind(mv.to, b.turn)->0;
        Square::lemma_index(v);
        assert(v.idx() != mv.from.idx() && v.idx() != mv.to.idx());
    }
    assert(u.cells =~= b.cells);
}

impl Board {
    /// The board with no pieces, White to move, no rights, clocks at 0 and 1.
    pub fn empty() -> (r: Board)
        ensures
            r@ == BoardView::empty(),
    {
        let r = Board {
            array: [BoardPiece::Empty; 64],
            turn: Color::White,
            ep_file: None,
            castle_rights: CastlingRights::none(),
            halfmove_clock: 0,
            fullmove_count: 1,
        };
        assert(r.array@ =~= Seq::new(64, |i: int| BoardPiece::Empty));
        r
    }

    /// The standard starting position.
    pub fn default() -> (r: Board)
        ensures
            r@ == BoardView::start(),
    {
        let mut b = Board::empty();
        let mut f: usize = 0;
        while f < 8
            invariant
                f <= 8,
                forall|i: int|
                    0 <= i < 64 ==> #[trigger] b.array@[i] == (if i % 8 < f {
                        start_cell(i)
                    } else {
                        BoardPiece::Empty
                    }),
                b.turn == Color::White,
                b.ep_file == None::<File>,
                b.halfmove_clock == 0,
                b.fullmove_count == 1,
            decreases 8 - f,
        {
            let kind = if f == 0 || f == 7 {
                PieceType::Rook
            } else if f == 1 || f == 6 {
                PieceType::Knight
            } else if f == 2 || f == 5 {
                PieceType::Bishop
            } else if f == 3 {
                PieceType::Queen
            } else {
                PieceType::King
            };
            b.array[f] = BoardPiece::piece(kind, Color::White);
            b.array[8 + f] = BoardPiece::Piece(SidePiece::WPawn);
            b.array[48 + f] = BoardPiece::Piece(SidePiece::BPawn);
            b.array[56 + f] = BoardPiece::piece(kind, Color::Black);
            f = f + 1;
        }
        b.castle_rights = CastlingRights::all();
        assert(b.array@ =~= Seq::new(64, |i: int| start_cell(i)));
        b
    }

    /// What `sq` holds.
    pub fn piece_at(&self, sq: Square) -> (r: BoardPiece)
        ensures
            r == self@.cell(sq),
    {
        self.array[sq.index() as usize]
    }

    /// Puts `p` on `sq`.
    pub fn set_piece(&mut self, sq: Square, p: BoardPiece)
        ensures
            final(self)@ == (BoardView { cells: old(self)@.cells.update(sq.idx(), p), ..old(self)@ }),
    {
        self.array[sq.index() as usize] = p;
    }

    /// The en-passant target square, if any.
    pub fn ep_square(&self) -> (r: Option<Square>)
        ensures
            r == self@.ep_target(),
    {
        match self.ep_file {
            Some(file) => {
                let rank = match self.turn {
                    Color::White => Rank::R6,
                    Color::Black => Rank::R3,
                };
                Some(Square::from_parts(rank, file))
            },
            None => None,
        }
    }

    /// Whether `make_move` accepts `mv` in this position.
    pub fn is_valid_move(&self, mv: Move) -> (r: bool)
        ensures
            r == self@.valid_move(mv),
    {
        proof {
            Square::lemma_index(mv.from);
            Square::lemma_index(mv.to);
        }
        let turn = self.turn;
        let mover = match self.piece_at(mv.from) {
            BoardPiece::Piece(p) => p,
            BoardPiece::Empty => return false,
        };
        if mover.color() != turn {
            return false;
        }
        let target = self.piece_at(mv.to);
        if let BoardPiece::Piece(p) = target {
            if p.color() == turn {
                return false;
            }
        }
        if turn == Color::Black && self.fullmove_count == u16::MAX {
            return false;
        }
        match mv.move_type {
            MoveType::Normal => true,
            MoveType::DoublePush => mv.from.file() == mv.to.file(),
            MoveType::EnPassant => {
                let (from_rank, to_rank) = match turn {
                    Color::White => (Rank::R5, Rank::R6),
                    Color::Black => (Rank::R4, Rank::R3),
                };
                let ff = mv.from.file().index();
                let tf = mv.to.file().index();
                if self.ep_file != Some(mv.to.file()) || mv.from.rank() != from_rank || mv.to.rank()
                    != to_rank || !(ff == tf + 1 || tf == ff + 1) || target != BoardPiece::Empty {
                    return false;
                }
                match mv.to.down(turn) {
                    Some(v) => self.piece_at(v) == BoardPiece::piece(
                        PieceType::Pawn,
                        turn.opposite(),
                    ),
                    None => false,
                }
            },
            MoveType::Castle => false,
            MoveType::Promotion(promo) => {
                let last = match turn {
                    Color::White => Rank::R8,
                    Color::Black => Rank::R1,
                };
                mv.to.rank() == last && (promo == PieceType::Rook || promo == PieceType::Bishop
                    || promo == PieceType::Knight || promo == PieceType::Queen) && mover
                    == SidePiece::new(PieceType::Pawn, turn)
            },
        }
    }

    /// Applies `mv` and returns what it takes to undo it.
    pub fn make_move(&mut self, mv: Move) -> (r: StateChange)
        requires
            old(self)@.valid_move(mv),
        ensures
            final(self)@ == old(self)@.after_move(mv),
            r == old(self)@.change_for(mv),
    {
        let from_bpiece = self.piece_at(mv.from);
        let to_bpiece = self.piece_at(mv.to);
        let state = StateChange {
            last_move: mv,
            captured: to_bpiece,
            last_ep_file: self.ep_file,
            last_castle_rights: self.castle_rights,
        };
        self.set_piece(mv.to, from_bpiece);
        self.set_piece(mv.from, BoardPiece::Empty);
        self.ep_file = None;
        match mv.move_type {
            MoveType::Normal => {},
            MoveType::DoublePush => {
                // The square passed over becomes the en-passant target.
                self.ep_file = Some(mv.to.file());
            },
            MoveType::EnPassant => {
                // The pawn taken stands behind the target square.
                if let Some(v) = mv.to.down(self.turn) {
                    self.set_piece(v, BoardPiece::Empty);
                }
            },
            MoveType::Castle => {
                // Castling has no defined effect yet; the precondition keeps it out.
                proof {
                    assert(false);
                }
            },
            MoveType::Promotion(promo) => {
                self.set_piece(mv.to, BoardPiece::piece(promo, self.turn));
            },
        }
        // The halfmove clock is left as it is.
        if self.turn == Color::Black {
            self.fullmove_count = self.fullmove_count + 1;
        }
        self.turn = self.turn.opposite();
        proof {
            assert(self@.cells =~= old(self)@.after_move(mv).cells);
        }
        state
    }

    /// Takes back the move that `state` records; `state` must be the record of the last move
    /// applied to this position for the result to be the position before it.
    pub fn undo_move(&mut self, state: StateChange)
        requires
            old(self)@.can_undo(state),
        ensures
            final(self)@ == old(self)@.after_undo(state),
    {
        let mv = state.last_move;
        self.turn = self.turn.opposite();
        if self.turn == Color::Black {
            self.fullmove_count = self.fullmove_count - 1;
        }
        self.ep_file = state.last_ep_file;
        self.castle_rights = state.last_castle_rights;
        let moved = self.piece_at(mv.to);
        self.set_piece(mv.from, moved);
        self.set_piece(mv.to, state.captured);
        match mv.move_type {
            MoveType::Normal | MoveType::DoublePush => {},
            MoveType::EnPassant => {
                if let Some(v) = mv.to.down(self.turn) {
                    self.set_piece(v, BoardPiece::piece(PieceType::Pawn, self.turn.opposite()));
                }
            },
            MoveType::Castle => {
                // Castling has no defined effect yet; the precondition keeps it out.
                proof {
                    assert(false);
                }
            },
            MoveType::Promotion(_) => {
                self.set_piece(mv.from, BoardPiece::piece(PieceType::Pawn, self.turn));
            },
        }
        proof {
            assert(self@.cells =~= old(self)@.after_undo(state).cells);
        }
    }
}

} // verus!
