pub mod board;
pub mod game;
pub mod geometry;
pub mod movegen;
pub mod notation;
pub mod piece;
pub mod render;

pub use game::{Game, GameState};
pub use piece::{Piece, PieceColor, PieceType};
