use vstd::prelude::*;
use crate::color::Color;
use crate::vec2::Vec2;

verus! {

/// Why a move or a turn change was refused.
#[derive(Debug, Copy, Clone, PartialEq, Eq, Structural)]
pub enum GameError {
    /// The move's colour is not the colour to move.
    MoveColorMismatch { expected: Color, found: Color },
    /// A first move with another shape than the start shape.
    NotStartShape,
    /// The shape is no longer in the colour's inventory.
    PieceAlreadyPlaced,
    /// A cell of the piece lies off the board.
    OutOfBounds(Vec2),
    /// A cell of the piece is already taken.
    Obstructed(Vec2),
    /// A cell of the piece shares an edge with a field of its own colour.
    EdgeNeighborSameColor(Vec2),
    /// A first move that covers no corner of the board.
    MissingCornerAnchor,
    /// A later move that touches no field of its own colour diagonally.
    MissingDiagonalTouch,
    /// A skip as the first move of a colour.
    SkipInFirstMove,
    /// The turn queue is empty.
    GameOver,
    /// A name that stands for no value.
    ParseError,
}

} // verus!
