use vstd::prelude::*;
use crate::color::Color;
use crate::vec2::Vec2;

verus! {

/// A field of the board and the colour it holds.
#[derive(Debug, Copy, Clone, PartialEq, Eq, Structural)]
pub struct Field {
    pub position: Vec2,
    pub content: Color,
}

} // verus!
