//! A chess rules engine: board state, FEN encoding and decoding, pseudo-legal
//! and legal move generation, and check/checkmate detection.
//!
//! The board holds at most one piece per square; positions travel as FEN
//! strings and squares as algebraic notation ("e4"). Legal moves are the
//! pseudo-legal moves that do not leave the mover's own king in check.
use vstd::prelude::*;

pub mod board;
pub mod fen;
pub mod laws;
pub mod movegen;
pub mod piece;
pub mod play;
pub mod rules;
pub mod square;
pub mod utils;

mod text;

pub use board::Board;
pub use board::BoardView;
pub use board::CastlingRights;
pub use piece::Color;
pub use piece::Piece;
pub use piece::Pieces;
pub use square::Coordinate;

verus! {

/// Errors reported by the engine: parsing failures and rejected moves.
#[derive(Clone, Copy, PartialEq, Eq, Structural, Debug)]
pub enum ChessError {
    /// A FEN string that does not follow the six-field format.
    InvalidFen,
    /// A square name that is not a file 'a'-'h' followed by a rank '1'-'8'.
    InvalidNotation,
    /// A linear square index greater than 63.
    OutOfRange,
    /// A move whose starting square holds no piece.
    EmptySquare,
    /// A move onto a square held by a piece of the moving color.
    FriendlyOccupied,
}

} // verus!
