use vstd::prelude::*;
use crate::color::Color;
use crate::piece::Piece;

verus! {

/// A move: skip the turn, or place a piece.
#[derive(Debug, Copy, Clone, PartialEq, Eq)]
pub enum Move {
    /// Passes the turn.
    Skip { color: Color },
    /// Places a piece that has not been placed yet.
    Place { piece: Piece },
}

/// The colour that makes the move.
pub open spec fn move_color(m: Move) -> Color {
    match m {
        Move::Skip { color } => color,
        Move::Place { piece } => piece.color,
    }
}

impl Move {
    /// The colour that makes the move.
    pub fn color(&self) -> (r: Color)
        ensures
            r == move_color(*self),
    {
        match self {
            Move::Skip { color } => *color,
            Move::Place { piece } => piece.color,
        }
    }
}

} // verus!
