use vstd::prelude::*;
use vstd::array::ArrayAdditionalExecFns;
use crate::color::Color;
use crate::field::Field;
use crate::corner::Corner;
use crate::piece::Piece;
use crate::coordinate_set::pts;
use crate::vec2::{Vec2, pt};

verus! {

/// Side length of the board.
pub const BOARD_SIZE: usize = 20;

/// Number of fields of the board.
pub const FIELD_COUNT: usize = 400;

/// The point lies on the board.
pub open spec fn in_bounds(p: (int, int)) -> bool {
    0 <= p.0 < 20 && 0 <= p.1 < 20
}

/// The point is one of the four corners of the board.
pub open spec fn is_corner(p: (int, int)) -> bool {
    p == (0int, 0int) || p == (19int, 0int) || p == (0int, 19int) || p == (19int, 19int)
}

/// Position of a board corner.
pub open spec fn corner_pt(c: Corner) -> (int, int) {
    match c {
        Corner::TopLeft => (0, 0),
        Corner::TopRight => (19, 0),
        Corner::BottomLeft => (0, 19),
        Corner::BottomRight => (19, 19),
    }
}

/// Anchor of a box of size `area` snapped into a board corner.
pub open spec fn aligned_anchor(area: (int, int), c: Corner) -> (int, int) {
    match c {
        Corner::TopLeft => (0, 0),
        Corner::TopRight => (19 - area.0, 0),
        Corner::BottomLeft => (0, 19 - area.1),
        Corner::BottomRight => (19 - area.0, 19 - area.1),
    }
}

/// The 20x20 board: a colour for every field, `Color::Empty` where nothing lies.
#[derive(Debug, Copy, Clone)]
pub struct Board {
    fields: [Color; FIELD_COUNT],
}

/// A sequence made of `c` alone counts every entry.
pub proof fn lemma_count_all(s: Seq<Color>, c: Color)
    requires
        forall|k: int| 0 <= k < s.len() ==> s[k] == c,
    ensures
        count_color(s, c) == s.len(),
    decreases s.len(),
{
    if s.len() > 0 {
        lemma_count_all(s.drop_last(), c);
    }
}

/// Number of entries of `s` equal to `c`.
pub open spec fn count_color(s: Seq<Color>, c: Color) -> nat
    decreases s.len(),
{
    if s.len() == 0 {
        0
    } else {
        count_color(s.drop_last(), c) + if s.last() == c {
            1nat
        } else {
            0nat
        }
    }
}

impl View for Board {
    type V = Seq<Color>;

    /// The 400 fields in row-major order: field `(x, y)` at `y * 20 + x`.
    closed spec fn view(&self) -> Seq<Color> {
        self.fields@
    }
}

impl Board {
    /// The view always has 400 fields.
    pub proof fn lemma_view_len(self)
        ensures
            self@.len() == FIELD_COUNT,
    {
    }

    /// Boards that agree on every field are equal.
    pub proof fn lemma_ext(self, other: Board)
        requires
            forall|p: (int, int)| #[trigger] self.color_at(p) == other.color_at(p),
        ensures
            self == other,
    {
        assert forall|i: int| 0 <= i < FIELD_COUNT implies self.fields[i] == other.fields[i] by {
            let p = (i % 20, i / 20);
            assert(self.color_at(p) == other.color_at(p));
            assert(p.1 * 20 + p.0 == i);
        }
        assert(self.fields =~= other.fields);
    }

    /// The colour at `p`; `Color::Empty` off the board.
    pub open spec fn color_at(self, p: (int, int)) -> Color {
        if in_bounds(p) {
            self@[p.1 * 20 + p.0]
        } else {
            Color::Empty
        }
    }

    /// Number of fields holding a colour.
    pub open spec fn obstructed_count(self) -> int {
        FIELD_COUNT - count_color(self@, Color::Empty)
    }

    /// Fetches the number of occupied fields.
    pub fn count_obstructed(&self) -> (r: usize)
        ensures
            r == self.obstructed_count(),
    {
        let mut n: usize = 0;
        let mut i: usize = 0;
        while i < FIELD_COUNT
            invariant
                i <= FIELD_COUNT,
                self@.len() == FIELD_COUNT,
                n + count_color(self@.take(i as int), Color::Empty) == i,
            decreases FIELD_COUNT - i,
        {
            assert(self@.take(i as int + 1).drop_last() =~= self@.take(i as int));
            if self.fields[i] != Color::Empty {
                n = n + 1;
            }
            i = i + 1;
        }
        assert(self@.take(FIELD_COUNT as int) =~= self@);
        n
    }

    /// Some edge neighbour of `p` has colour `c`.
    pub open spec fn borders(self, p: (int, int), c: Color) -> bool {
        ||| self.color_at((p.0 + 1, p.1)) == c
        ||| self.color_at((p.0, p.1 + 1)) == c
        ||| self.color_at((p.0 - 1, p.1)) == c
        ||| self.color_at((p.0, p.1 - 1)) == c
    }

    /// Some diagonal neighbour of `p` has colour `c`.
    pub open spec fn touches(self, p: (int, int), c: Color) -> bool {
        ||| self.color_at((p.0 + 1, p.1 + 1)) == c
        ||| self.color_at((p.0 - 1, p.1 + 1)) == c
        ||| self.color_at((p.0 + 1, p.1 - 1)) == c
        ||| self.color_at((p.0 - 1, p.1 - 1)) == c
    }

    /// An empty board.
    pub fn new() -> (r: Self)
        ensures
            forall|p: (int, int)| #[trigger] r.color_at(p) == Color::Empty,
            r.obstructed_count() == 0,
    {
        let fields = [Color::Empty; FIELD_COUNT];
        let r = Board { fields };
        assert forall|p: (int, int)| #[trigger] r.color_at(p) == Color::Empty by {
            if in_bounds(p) {
                assert(fields@[p.1 * 20 + p.0] == Color::Empty);
            }
        }
        proof {
            lemma_count_all(r@, Color::Empty);
        }
        r
    }

    /// Checks whether the coordinates lie on the board.
    pub fn is_in_bounds(coordinates: Vec2) -> (r: bool)
        ensures
            r == in_bounds(pt(coordinates)),
    {
        coordinates.x >= 0 && coordinates.y >= 0 && coordinates.x < BOARD_SIZE as i32
            && coordinates.y < BOARD_SIZE as i32
    }

    /// The position of a corner of the board.
    pub fn corner_position(corner: Corner) -> (r: Vec2)
        ensures
            pt(r) == corner_pt(corner),
    {
        match corner {
            Corner::TopLeft => Vec2::new(0, 0),
            Corner::BottomLeft => Vec2::new(0, BOARD_SIZE as i32 - 1),
            Corner::TopRight => Vec2::new(BOARD_SIZE as i32 - 1, 0),
            Corner::BottomRight => Vec2::new(BOARD_SIZE as i32 - 1, BOARD_SIZE as i32 - 1),
        }
    }

    /// The positions of the four corners, in the order top left, top right,
    /// bottom left, bottom right.
    pub fn corner_positions() -> (r: Vec<Vec2>)
        ensures
            r@.len() == 4,
            forall|k: int| 0 <= k < 4 ==> #[trigger] pt(r@[k]) == corner_pt(crate::corner::corner_order()[k]),
    {
        let corners = Corner::all();
        let mut r: Vec<Vec2> = Vec::new();
        let mut i: usize = 0;
        while i < corners.len()
            invariant
                i <= corners@.len(),
                corners@ == crate::corner::corner_order(),
                r@.len() == i,
                forall|k: int| 0 <= k < i ==> #[trigger] pt(r@[k]) == corner_pt(crate::corner::corner_order()[k]),
            decreases corners@.len() - i,
        {
            r.push(Self::corner_position(corners[i]));
            i = i + 1;
        }
        r
    }

    /// The anchor at which a box of size `area` fits into the given corner.
    pub fn align(area: Vec2, corner: Corner) -> (r: Vec2)
        requires
            area.x >= 19 - i32::MAX,
            area.y >= 19 - i32::MAX,
        ensures
            pt(r) == aligned_anchor(pt(area), corner),
    {
        let position = Self::corner_position(corner);
        match corner {
            Corner::TopLeft => position,
            Corner::TopRight => Vec2::new(position.x - area.x, position.y),
            Corner::BottomLeft => Vec2::new(position.x, position.y - area.y),
            Corner::BottomRight => position.sub(area),
        }
    }

    /// Checks whether a position is one of the board's corners.
    pub fn is_on_corner(position: Vec2) -> (r: bool)
        ensures
            r == is_corner(pt(position)),
    {
        let corners = Self::corner_positions();
        let mut i: usize = 0;
        while i < corners.len()
            invariant
                i <= corners@.len(),
                corners@.len() == 4,
                forall|k: int| 0 <= k < 4 ==> #[trigger] pt(corners@[k]) == corner_pt(crate::corner::corner_order()[k]),
                forall|k: int| 0 <= k < i ==> pt(corners@[k]) != pt(position),
            decreases corners@.len() - i,
        {
            if corners[i] == position {
                return true;
            }
            i = i + 1;
        }
        assert(pt(corners@[0]) == corner_pt(crate::corner::corner_order()[0]));
        assert(pt(corners@[1]) == corner_pt(crate::corner::corner_order()[1]));
        assert(pt(corners@[2]) == corner_pt(crate::corner::corner_order()[2]));
        assert(pt(corners@[3]) == corner_pt(crate::corner::corner_order()[3]));
        false
    }

    /// The colour at the given position; `Color::Empty` off the board.
    pub fn get(&self, position: Vec2) -> (r: Color)
        ensures
            r == self.color_at(pt(position)),
    {
        if Self::is_in_bounds(position) {
            self.fields[(position.y * 20 + position.x) as usize]
        } else {
            Color::Empty
        }
    }

    /// Writes a colour at a position of the board.
    pub fn set(&mut self, position: Vec2, color: Color)
        requires
            in_bounds(pt(position)),
        ensures
            forall|p: (int, int)|
                #[trigger] final(self).color_at(p) == if p == pt(position) {
                    color
                } else {
                    old(self).color_at(p)
                },
    {
        let i = (position.y * 20 + position.x) as usize;
        self.fields.set(i, color);
        proof {
            assert forall|p: (int, int)|
                #[trigger] self.color_at(p) == if p == pt(position) {
                    color
                } else {
                    old(self).color_at(p)
                } by {
                if in_bounds(p) && p != pt(position) {
                    assert(p.1 * 20 + p.0 != i);
                }
            }
        }
    }

    /// Paints every cell of the piece in its colour, without any rule check.
    pub fn place(&mut self, piece: &Piece)
        requires
            piece.fits(),
            forall|p: (int, int)| piece.cells().contains(p) ==> in_bounds(p),
        ensures
            forall|p: (int, int)|
                #[trigger] final(self).color_at(p) == if piece.cells().contains(p) {
                    piece.color
                } else {
                    old(self).color_at(p)
                },
    {
        let cells = piece.coordinates();
        let mut i: usize = 0;
        while i < cells.len()
            invariant
                i <= cells@.len(),
                pts(cells@) == piece.cells(),
                forall|p: (int, int)| piece.cells().contains(p) ==> in_bounds(p),
                forall|p: (int, int)|
                    #[trigger] self.color_at(p) == if exists|k: int| 0 <= k < i && pt(cells@[k]) == p {
                        piece.color
                    } else {
                        old(self).color_at(p)
                    },
            decreases cells@.len() - i,
        {
            let c = cells[i];
            assert(pts(cells@).contains(pt(c)));
            self.set(c, piece.color);
            proof {
                assert forall|p: (int, int)|
                    #[trigger] self.color_at(p) == if exists|k: int| 0 <= k < i + 1 && pt(cells@[k]) == p {
                        piece.color
                    } else {
                        old(self).color_at(p)
                    } by {
                    if p == pt(c) {
                        assert(pt(cells@[i as int]) == p);
                    } else if exists|k: int| 0 <= k < i + 1 && pt(cells@[k]) == p {
                        let k = choose|k: int| 0 <= k < i + 1 && pt(cells@[k]) == p;
                        assert(k < i);
                    }
                }
            }
            i = i + 1;
        }
    }

    /// The fields that hold a colour, in row-major order.
    pub fn occupied_fields(&self) -> (r: Vec<Field>)
        ensures
            forall|k: int|
                0 <= k < r@.len() ==> in_bounds(#[trigger] pt(r@[k].position)) && r@[k].content != Color::Empty
                    && self.color_at(pt(r@[k].position)) == r@[k].content,
            forall|p: (int, int)|
                in_bounds(p) && #[trigger] self.color_at(p) != Color::Empty ==> exists|k: int|
                    0 <= k < r@.len() && pt(r@[k].position) == p,
    {
        let mut r: Vec<Field> = Vec::new();
        let mut y: i32 = 0;
        while y < BOARD_SIZE as i32
            invariant
                0 <= y <= 20,
                forall|k: int|
                    0 <= k < r@.len() ==> in_bounds(#[trigger] pt(r@[k].position)) && r@[k].content != Color::Empty
                        && self.color_at(pt(r@[k].position)) == r@[k].content,
                forall|p: (int, int)|
                    in_bounds(p) && p.1 < y && #[trigger] self.color_at(p) != Color::Empty ==> exists|k: int|
                        0 <= k < r@.len() && pt(r@[k].position) == p,
            decreases 20 - y,
        {
            let mut x: i32 = 0;
            while x < BOARD_SIZE as i32
                invariant
                    0 <= y < 20,
                    0 <= x <= 20,
                    forall|k: int|
                        0 <= k < r@.len() ==> in_bounds(#[trigger] pt(r@[k].position)) && r@[k].content != Color::Empty
                            && self.color_at(pt(r@[k].position)) == r@[k].content,
                    forall|p: (int, int)|
                        in_bounds(p) && (p.1 < y || (p.1 == y && p.0 < x)) && #[trigger] self.color_at(p) != Color::Empty
                            ==> exists|k: int| 0 <= k < r@.len() && pt(r@[k].position) == p,
                decreases 20 - x,
            {
                let position = Vec2::new(x, y);
                let content = self.get(position);
                let ghost old_r = r@;
                if content != Color::Empty {
                    r.push(Field { position, content });
                }
                proof {
                    assert forall|p: (int, int)|
                        in_bounds(p) && (p.1 < y || (p.1 == y && p.0 < x + 1)) && #[trigger] self.color_at(p) != Color::Empty
                            implies exists|k: int| 0 <= k < r@.len() && pt(r@[k].position) == p by {
                        if p == pt(position) {
                            assert(pt(r@[old_r.len() as int].position) == p);
                        } else {
                            let k = choose|k: int| 0 <= k < old_r.len() && pt(old_r[k].position) == p;
                            assert(r@[k] == old_r[k]);
                        }
                    }
                }
                x = x + 1;
            }
            y = y + 1;
        }
        r
    }

    /// Checks whether a colour lies at the position.
    pub fn is_obstructed(&self, position: Vec2) -> (r: bool)
        ensures
            r == (self.color_at(pt(position)) != Color::Empty),
    {
        self.get(position) != Color::Empty
    }

    /// Checks whether an edge neighbour of the position has the colour.
    pub fn borders_on_color(&self, position: Vec2, color: Color) -> (r: bool)
        requires
            i32::MIN < position.x < i32::MAX,
            i32::MIN < position.y < i32::MAX,
        ensures
            r == self.borders(pt(position), color),
    {
        self.get(Vec2::new(position.x + 1, position.y)) == color
            || self.get(Vec2::new(position.x, position.y + 1)) == color
            || self.get(Vec2::new(position.x - 1, position.y)) == color
            || self.get(Vec2::new(position.x, position.y - 1)) == color
    }

    /// Checks whether a diagonal neighbour of the position has the colour.
    pub fn corners_on_color(&self, position: Vec2, color: Color) -> (r: bool)
        requires
            i32::MIN < position.x < i32::MAX,
            i32::MIN < position.y < i32::MAX,
        ensures
            r == self.touches(pt(position), color),
    {
        self.get(Vec2::new(position.x + 1, position.y + 1)) == color
            || self.get(Vec2::new(position.x - 1, position.y + 1)) == color
            || self.get(Vec2::new(position.x + 1, position.y - 1)) == color
            || self.get(Vec2::new(position.x - 1, position.y - 1)) == color
    }
}

} // verus!
