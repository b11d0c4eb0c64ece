use vstd::prelude::*;
use crate::color::Color;
use crate::coordinate_set::{pts, in_window, row_major};
use crate::piece_shape::{PieceShape, transformed};
use crate::rotation::Rotation;
use crate::vec2::{Vec2, pt, sub_pt, add_pt};

verus! {

/// `t` moved by `d`.
pub open spec fn placed(t: Set<(int, int)>, d: (int, int)) -> Set<(int, int)> {
    Set::new(|p: (int, int)| t.contains(sub_pt(p, d)))
}

/// A game piece: a catalog shape, how it is turned, its colour and the top left
/// corner of its bounding box on the board.
#[derive(Debug, Copy, Clone, PartialEq, Eq)]
pub struct Piece {
    /// The untransformed shape.
    pub kind: PieceShape,
    /// How far the shape is rotated.
    pub rotation: Rotation,
    /// Whether the shape is mirrored along the y-axis after the rotation.
    pub is_flipped: bool,
    /// The piece's colour.
    pub color: Color,
    /// The top left corner of the piece's bounding box.
    pub position: Vec2,
}

impl Piece {
    /// The cells of the transformed shape, relative to its anchor.
    pub open spec fn shape_cells(self) -> Set<(int, int)> {
        transformed(self.kind@, self.rotation, self.is_flipped)
    }

    /// The board cells that the piece covers.
    pub open spec fn cells(self) -> Set<(int, int)> {
        placed(self.shape_cells(), pt(self.position))
    }

    /// The anchor is far enough from `i32::MAX` for every cell to be a `Vec2`.
    pub open spec fn fits(self) -> bool {
        self.position.x <= i32::MAX - 4 && self.position.y <= i32::MAX - 4
    }

    /// The piece's transformed shape.
    pub fn shape(&self) -> (r: PieceShape)
        ensures
            r.id() == self.kind.id(),
            r@ == self.shape_cells(),
    {
        self.kind.transform(self.rotation, self.is_flipped)
    }

    /// The board cells the piece covers, in row-major order of its shape.
    pub fn coordinates(&self) -> (r: Vec<Vec2>)
        requires
            self.fits(),
        ensures
            pts(r@) == self.cells(),
            forall|k: int| 0 <= k < r@.len() ==> in_window(#[trigger] sub_pt(pt(r@[k]), pt(self.position))),
            self.shape_cells().finite(),
            r@.len() == self.shape_cells().len(),
            forall|a: int, b: int| 0 <= a < b < r@.len() ==> pt(r@[a]) != pt(r@[b]),
    {
        let cells = self.shape().coordinates();
        let mut r: Vec<Vec2> = Vec::new();
        let mut i: usize = 0;
        while i < cells.len()
            invariant
                self.fits(),
                i <= cells@.len(),
                r@.len() == i,
                row_major(cells@),
                forall|k: int| 0 <= k < i ==> #[trigger] pt(r@[k]) == add_pt(pt(cells@[k]), pt(self.position)),
            decreases cells@.len() - i,
        {
            assert(in_window(pt(cells@[i as int])));
            r.push(cells[i].add(self.position));
            i = i + 1;
        }
        proof {
            let t = self.shape_cells();
            assert forall|p: (int, int)| #[trigger] pts(r@).contains(p) <==> self.cells().contains(p) by {
                if pts(r@).contains(p) {
                    let k = choose|k: int| 0 <= k < r@.len() && pt(r@[k]) == p;
                    assert(pt(cells@[k]) == sub_pt(p, pt(self.position)));
                    assert(pts(cells@).contains(sub_pt(p, pt(self.position))));
                }
                if self.cells().contains(p) {
                    assert(pts(cells@).contains(sub_pt(p, pt(self.position))));
                    let k = choose|k: int| 0 <= k < cells@.len() && pt(cells@[k]) == sub_pt(p, pt(self.position));
                    assert(pt(r@[k]) == p);
                }
            }
            assert(pts(r@) =~= self.cells());
            crate::coordinate_set::lemma_row_major_len(cells@);
            assert forall|a: int, b: int| 0 <= a < b < r@.len() implies pt(r@[a]) != pt(r@[b]) by {
                assert(crate::coordinate_set::cell_index(pt(cells@[a])) < crate::coordinate_set::cell_index(pt(cells@[b])));
            }
            assert forall|k: int| 0 <= k < r@.len() implies in_window(#[trigger] sub_pt(pt(r@[k]), pt(self.position))) by {
                assert(in_window(pt(cells@[k])));
            }
        }
        r
    }
}

} // verus!
