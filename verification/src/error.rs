//! The errors that the engine reports.
use vstd::prelude::*;
use crate::board::Move;

verus! {

/// The general error type
#[derive(Debug)]
pub enum Error {
    /// A move that is illegal on a board: the board's notation, then the move
    IllegalMove(String, Move),
    /// A string that is not a valid square coordinate
    InvalidSquare(String),
    /// A string that is not valid position notation
    InvalidFen(String),
    /// A string that is not a valid piece designator
    InvalidPiece(String),
}

} // verus!
