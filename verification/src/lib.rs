//! Position-evaluation core for the board game Tak on N x N boards
//! (N in 3..=8): bitboard substrate, connected-component grouping,
//! road placement-threat maps, the heuristic evaluator, and the
//! feature-selection and perturbation support a learned evaluator's
//! explainer relies on.

use vstd::prelude::*;

pub mod bitmap;
pub mod bits;
pub mod eval;
pub mod features;
pub mod laws;

verus! {

/// The two players. White moves first.
#[derive(Copy, Clone, PartialEq, Eq, Structural, Debug)]
pub enum Color {
    White,
    Black,
}

/// A piece on the board. Flatstones and capstones contribute to roads;
/// standing stones do not.
#[derive(Copy, Clone, PartialEq, Eq, Structural, Debug)]
pub enum Piece {
    Flatstone(Color),
    StandingStone(Color),
    Capstone(Color),
}

/// A cardinal direction on the board.
#[derive(Copy, Clone, PartialEq, Eq, Structural, Debug)]
pub enum Direction {
    North,
    East,
    South,
    West,
}

/// The outcome of executing one turn.
#[derive(Copy, Clone, PartialEq, Eq, Structural, Debug)]
pub enum TurnResult {
    Normal,
    Win(Color),
}

/// An error raised by an attempted move.
#[derive(Copy, Clone, PartialEq, Eq, Structural, Debug)]
pub enum GameError {
    OutOfBounds,
    InvalidMove,
    IllegalMove,
}

/// The version of this library.
pub fn version() -> (r: &'static str)
    ensures
        r@ == "0.1.0"@,
{
    "0.1.0"
}

} // verus!
