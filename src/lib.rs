pub mod piece;
pub mod board;
pub mod engine;
pub mod fen;
pub mod fen_laws;
pub mod game;
pub mod movegen;
pub mod moves;
pub mod position;
pub mod text;
pub mod uci;

pub use piece::{BoardPiece, Color, PieceType, SidePiece};
pub use board::{Board, BoardView, FenError};
pub use engine::{EngineCommand, GoConfig};
pub use game::{fix_move, Game};
pub use moves::{CastlingRights, Move, MoveType, StateChange};
pub use position::{File, Rank, Square, SquareIter};
pub use uci::{gen_game_from_uci, UciError, UciInput};
