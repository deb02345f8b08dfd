//! A chess rules engine: positions, legal-move generation, move application
//! and the status of a game in progress.

pub mod board;
pub mod error;
pub mod game;
pub mod interaction;
pub mod packet;
pub mod piece;
pub mod text;

pub use board::{Board, Move, SquareSpec};
pub use error::Error;
pub use game::Game;
pub use piece::{Color, Piece, PieceType};
