use vstd::prelude::*;

verus! {

/// One of the four corners of the board.
#[derive(Debug, Copy, Clone, PartialEq, Eq, Hash, Structural)]
pub enum Corner {
    TopLeft,
    TopRight,
    BottomLeft,
    BottomRight,
}

/// The corners in the order in which move generation visits them.
pub open spec fn corner_order() -> Seq<Corner> {
    seq![Corner::TopLeft, Corner::TopRight, Corner::BottomLeft, Corner::BottomRight]
}

impl Corner {
    /// The four corners: top left, top right, bottom left, bottom right.
    pub fn all() -> (r: Vec<Corner>)
        ensures
            r@ == corner_order(),
    {
        let r = vec![Corner::TopLeft, Corner::TopRight, Corner::BottomLeft, Corner::BottomRight];
        assert(r@ =~= corner_order());
        r
    }
}

} // verus!
