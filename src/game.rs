use vstd::prelude::*;

use crate::board::{lemma_undo_inverts_make, Board, BoardView, FenError};
use crate::fen::fen_decode;
use crate::moves::{Move, MoveType, StateChange};
use crate::piece::{BoardPiece, PieceType};

verus! {

/// A game in progress: the current position and the records of the moves that led to it,
/// oldest first.
#[derive(Clone, Debug)]
pub struct Game {
    pub board: Board,
    pub history: Vec<StateChange>,
}

/// Whether `h` records moves that lead to `b`: taking back the last record gives a position
/// on which that move was valid, applying it there gives `b` and that record, and so on back.
pub open spec fn history_ok(b: BoardView, h: Seq<StateChange>) -> bool
    decreases h.len(),
{
    if h.len() == 0 {
        true
    } else {
        let sc = h.last();
        let prev = b.after_undo(sc);
        &&& prev.valid_move(sc.last_move)
        &&& prev.after_move(sc.last_move) == b
        &&& prev.change_for(sc.last_move) == sc
        &&& history_ok(prev, h.drop_last())
    }
}

/// The move that a move text stands for in position `b`, whose text form cannot tell a double
/// push, an en-passant capture or a castle from a plain move: a pawn moving two ranks makes a
/// double push, a pawn changing file onto an empty square an en-passant capture, a king moving
/// more than one file a castle; any other move keeps its kind. A move from an empty square
/// stands for nothing. This is a best-effort reading of a move assumed valid, not a check.
pub open spec fn classify_move(b: BoardView, mv: Move) -> Option<Move> {
    match b.cell(mv.from) {
        BoardPiece::Empty => None,
        BoardPiece::Piece(p) => {
            let dr = mv.from.row() - mv.to.row();
            let dc = mv.from.col() - mv.to.col();
            let t = if p.kind() == PieceType::Pawn {
                if dr == 2 || dr == -2 {
                    MoveType::DoublePush
                } else if dc != 0 && b.cell(mv.to) == BoardPiece::Empty {
                    MoveType::EnPassant
                } else {
                    mv.move_type
                }
            } else if p.kind() == PieceType::King {
                if dc > 1 || dc < -1 {
                    MoveType::Castle
                } else {
                    mv.move_type
                }
            } else {
                mv.move_type
            };
            Some(Move { from: mv.from, to: mv.to, move_type: t })
        },
    }
}

/// Gives a move read from its text form the kind that the position of `game` shows it to be.
pub fn fix_move(game: &Game, mv: Move) -> (r: Result<Move, ()>)
    ensures
        r == (match classify_move(game.position(), mv) {
            Some(m) => Ok::<Move, ()>(m),
            None => Err(()),
        }),
{
    let piece = match game.board.piece_at(mv.from) {
        BoardPiece::Piece(p) => p,
        BoardPiece::Empty => return Err(()),
    };
    let to_bpiece = game.board.piece_at(mv.to);
    let from_rank = mv.from.rank().index() as i8;
    let to_rank = mv.to.rank().index() as i8;
    let from_file = mv.from.file().index() as i8;
    let to_file = mv.to.file().index() as i8;
    let mv_type = match piece.piece_type() {
        PieceType::Pawn => {
            if from_rank - to_rank == 2 || to_rank - from_rank == 2 {
                MoveType::DoublePush
            } else if from_file != to_file && to_bpiece == BoardPiece::Empty {
                MoveType::EnPassant
            } else {
                // A promotion is already in the move text.
                mv.move_type
            }
        },
        PieceType::King => {
            if from_file - to_file > 1 || to_file - from_file > 1 {
                MoveType::Castle
            } else {
                mv.move_type
            }
        },
        _ => mv.move_type,
    };
    Ok(Move::new(mv.from, mv.to, mv_type))
}

impl Game {
    /// The current position.
    pub open spec fn position(self) -> BoardView {
        self.board@
    }

    /// The records of the moves played, oldest first.
    pub open spec fn history(self) -> Seq<StateChange> {
        self.history@
    }

    /// Whether the records lead to the current position.
    pub open spec fn wf(self) -> bool {
        history_ok(self.board@, self.history@)
    }

    /// A game that starts from `board`, with no moves played.
    pub fn from_board(board: Board) -> (r: Game)
        ensures
            r.position() == board@,
            r.history().len() == 0,
            r.wf(),
    {
        Game { board, history: Vec::new() }
    }

    /// A game on the empty board.
    pub fn empty() -> (r: Game)
        ensures
            r.position() == BoardView::empty(),
            r.history().len() == 0,
            r.wf(),
    {
        Game::from_board(Board::empty())
    }

    /// A game from the standard starting position.
    pub fn default() -> (r: Game)
        ensures
            r.position() == BoardView::start(),
            r.history().len() == 0,
            r.wf(),
    {
        Game::from_board(Board::default())
    }

    /// A game from the position that a notation text describes.
    pub fn from_fen(fen: &str) -> (r: Result<Game, FenError>)
        ensures
            match r {
                Ok(g) => fen_decode(fen@) == Some(g.position()) && g.history().len() == 0 && g.wf(),
                Err(_) => fen_decode(fen@) is None,
            },
    {
        match Board::from_fen(fen) {
            Ok(b) => Ok(Game::from_board(b)),
            Err(e) => Err(e),
        }
    }

    /// Whether `make_move` accepts `mv` in the current position.
    pub fn is_valid_move(&self, mv: Move) -> (r: bool)
        ensures
            r == self.position().valid_move(mv),
    {
        self.board.is_valid_move(mv)
    }

    /// Plays `mv` and records it.
    pub fn make_move(&mut self, mv: Move)
        requires
            old(self).wf(),
            old(self).position().valid_move(mv),
        ensures
            final(self).wf(),
            final(self).position() == old(self).position().after_move(mv),
            final(self).history() == old(self).history().push(old(self).position().change_for(mv)),
    {
        let ghost b = self.board@;
        let state = self.board.make_move(mv);
        self.history.push(state);
        proof {
            lemma_undo_inverts_make(b, mv);
            assert(self.history@.drop_last() =~= old(self).history@);
        }
    }

    /// Takes back the last move played, if any, and returns its record; the position is then
    /// the one that move was played on.
    pub fn undo_move(&mut self) -> (r: Option<StateChange>)
        requires
            old(self).wf(),
        ensures
            final(self).wf(),
            old(self).history().len() == 0 ==> r is None && final(self).position() == old(self).position()
                && final(self).history() == old(self).history(),
            old(self).history().len() > 0 ==> {
                let sc = old(self).history().last();
                &&& r == Some(sc)
                &&& final(self).position() == old(self).position().after_undo(sc)
                &&& final(self).position().after_move(sc.last_move) == old(self).position()
                &&& final(self).history() == old(self).history().drop_last()
            },
    {
        let state = match self.history.pop() {
            Some(s) => s,
            None => return None,
        };
        proof {
            let prev = old(self).position().after_undo(state);
            lemma_undo_inverts_make(prev, state.last_move);
        }
        self.board.undo_move(state);
        Some(state)
    }
}

} // verus!
