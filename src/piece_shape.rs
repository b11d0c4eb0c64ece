use vstd::prelude::*;
use crate::coordinate_set::{CoordinateSet, MAX_SIDE_LENGTH, in_window, pts, row_major};
use crate::rotation::Rotation;
use crate::text::push_char;
use crate::vec2::{
    Vec2, pt, add_pt, sub_pt, turn_right_pt, turn_left_pt, flip_pt, neg_pt,
};

verus! {

/// Seed of the minimum search: no shape cell lies this far out.
pub const ALIGN_SEED: i32 = 20;

/// The smallest `x >= k` that a cell of `t` has, or 20 where there is none
/// below 20.
pub open spec fn lowest_x(t: Set<(int, int)>, k: int) -> int
    decreases 20 - k,
{
    if k >= 20 {
        20
    } else if exists|y: int| t.contains((k, y)) {
        k
    } else {
        lowest_x(t, k + 1)
    }
}

/// The smallest `y >= k` that a cell of `t` has, or 20 where there is none
/// below 20.
pub open spec fn lowest_y(t: Set<(int, int)>, k: int) -> int
    decreases 20 - k,
{
    if k >= 20 {
        20
    } else if exists|x: int| t.contains((x, k)) {
        k
    } else {
        lowest_y(t, k + 1)
    }
}

/// Component-wise minimum of the cells of `t` (seeded with `(20, 20)`).
pub open spec fn min_corner(t: Set<(int, int)>) -> (int, int) {
    (lowest_x(t, -20), lowest_y(t, -20))
}

/// `t` moved by `-d`.
pub open spec fn shifted(t: Set<(int, int)>, d: (int, int)) -> Set<(int, int)> {
    Set::new(|p: (int, int)| t.contains(add_pt(p, d)))
}

/// `t` moved so that its component-wise minimum is the origin.
pub open spec fn align_set(t: Set<(int, int)>) -> Set<(int, int)> {
    shifted(t, min_corner(t))
}

/// The four point maps that shape transformations are made of.
#[derive(Debug, Copy, Clone, PartialEq, Eq, Structural)]
pub enum PointMap {
    TurnRight,
    TurnLeft,
    Negate,
    Flip,
}

pub open spec fn apply_map(m: PointMap, p: (int, int)) -> (int, int) {
    match m {
        PointMap::TurnRight => turn_right_pt(p),
        PointMap::TurnLeft => turn_left_pt(p),
        PointMap::Negate => neg_pt(p),
        PointMap::Flip => flip_pt(p),
    }
}

pub open spec fn inverse_map(m: PointMap, p: (int, int)) -> (int, int) {
    match m {
        PointMap::TurnRight => turn_left_pt(p),
        PointMap::TurnLeft => turn_right_pt(p),
        PointMap::Negate => neg_pt(p),
        PointMap::Flip => flip_pt(p),
    }
}

/// The image of `t` under the point map `m`.
pub open spec fn image(t: Set<(int, int)>, m: PointMap) -> Set<(int, int)> {
    Set::new(|q: (int, int)| t.contains(inverse_map(m, q)))
}

/// The shape `t` mapped by `m` and moved back to the origin.
pub open spec fn reshaped(t: Set<(int, int)>, m: PointMap) -> Set<(int, int)> {
    align_set(image(t, m))
}

/// Lower corner of the box that the image of the window under `m` fills.
pub open spec fn image_low(m: PointMap) -> (int, int) {
    match m {
        PointMap::TurnRight => (-4, 0),
        PointMap::TurnLeft => (0, -4),
        PointMap::Negate => (-4, -4),
        PointMap::Flip => (-4, 0),
    }
}

pub open spec fn in_box(p: (int, int), lo: (int, int)) -> bool {
    lo.0 <= p.0 <= lo.0 + 4 && lo.1 <= p.1 <= lo.1 + 4
}

/// Where every cell of `t` has `x >= m`, and `m` is taken by a cell or is 20,
/// the search from `k` finds `m`.
pub proof fn lemma_lowest_x(t: Set<(int, int)>, k: int, m: int)
    requires
        -20 <= k <= m <= 20,
        forall|p: (int, int)| t.contains(p) ==> p.0 >= m,
        m == 20 || exists|p: (int, int)| t.contains(p) && p.0 == m,
    ensures
        lowest_x(t, k) == m,
    decreases m - k,
{
    if k == m {
        if m < 20 {
            let p = choose|p: (int, int)| t.contains(p) && p.0 == m;
            assert(t.contains((k, p.1)));
        }
    } else {
        assert(!exists|y: int| t.contains((k, y)));
        lemma_lowest_x(t, k + 1, m);
    }
}

/// Where every cell of `t` has `y >= m`, and `m` is taken by a cell or is 20,
/// the search from `k` finds `m`.
pub proof fn lemma_lowest_y(t: Set<(int, int)>, k: int, m: int)
    requires
        -20 <= k <= m <= 20,
        forall|p: (int, int)| t.contains(p) ==> p.1 >= m,
        m == 20 || exists|p: (int, int)| t.contains(p) && p.1 == m,
    ensures
        lowest_y(t, k) == m,
    decreases m - k,
{
    if k == m {
        if m < 20 {
            let p = choose|p: (int, int)| t.contains(p) && p.1 == m;
            assert(t.contains((p.0, k)));
        }
    } else {
        assert(!exists|x: int| t.contains((x, k)));
        lemma_lowest_y(t, k + 1, m);
    }
}

/// Moves the given cells so that their component-wise minimum is the origin.
fn align(cells: &Vec<Vec2>, Ghost(lo): Ghost<(int, int)>) -> (r: CoordinateSet)
    requires
        -4 <= lo.0 <= 0,
        -4 <= lo.1 <= 0,
        forall|k: int| 0 <= k < cells@.len() ==> in_box(#[trigger] pt(cells@[k]), lo),
    ensures
        r@ == align_set(pts(cells@)),
{
    let mut m = Vec2::both(ALIGN_SEED);
    let mut i: usize = 0;
    while i < cells.len()
        invariant
            i <= cells@.len(),
            forall|k: int| 0 <= k < cells@.len() ==> in_box(#[trigger] pt(cells@[k]), lo),
            lo.0 <= m.x <= 20,
            lo.1 <= m.y <= 20,
            i == 0 ==> m.x == 20 && m.y == 20,
            forall|k: int| 0 <= k < i ==> m.x <= #[trigger] cells@[k].x && m.y <= cells@[k].y,
            m.x == 20 || exists|k: int| 0 <= k < i && #[trigger] cells@[k].x == m.x,
            m.y == 20 || exists|k: int| 0 <= k < i && #[trigger] cells@[k].y == m.y,
        decreases cells@.len() - i,
    {
        assert(in_box(pt(cells@[i as int]), lo));
        m = m.min(cells[i]);
        i = i + 1;
    }
    let ghost t = pts(cells@);
    proof {
        assert forall|p: (int, int)| t.contains(p) implies p.0 >= m.x && p.1 >= m.y by {
            let k = choose|k: int| 0 <= k < cells@.len() && pt(cells@[k]) == p;
        }
        if m.x != 20 {
            let k = choose|k: int| 0 <= k < cells@.len() && #[trigger] cells@[k].x == m.x;
            assert(t.contains(pt(cells@[k])));
        }
        if m.y != 20 {
            let k = choose|k: int| 0 <= k < cells@.len() && #[trigger] cells@[k].y == m.y;
            assert(t.contains(pt(cells@[k])));
        }
        lemma_lowest_x(t, -20, m.x as int);
        lemma_lowest_y(t, -20, m.y as int);
    }
    let mut moved: Vec<Vec2> = Vec::new();
    let mut j: usize = 0;
    while j < cells.len()
        invariant
            j <= cells@.len(),
            moved@.len() == j,
            forall|k: int| 0 <= k < cells@.len() ==> in_box(#[trigger] pt(cells@[k]), lo),
            forall|k: int| 0 <= k < cells@.len() ==> m.x <= #[trigger] cells@[k].x && m.y <= cells@[k].y,
            forall|k: int| 0 <= k < j ==> #[trigger] pt(moved@[k]) == sub_pt(pt(cells@[k]), pt(m)),
            forall|k: int| 0 <= k < j ==> in_window(#[trigger] pt(moved@[k])),
            lo.0 <= m.x <= 20,
            lo.1 <= m.y <= 20,
        decreases cells@.len() - j,
    {
        assert(in_box(pt(cells@[j as int]), lo));
        moved.push(cells[j].sub(m));
        j = j + 1;
    }
    let r = CoordinateSet::from_cells(&moved);
    proof {
        assert forall|p: (int, int)| #[trigger] pts(moved@).contains(p) <==> shifted(t, pt(m)).contains(p) by {
            if pts(moved@).contains(p) {
                let k = choose|k: int| 0 <= k < moved@.len() && pt(moved@[k]) == p;
                assert(pt(cells@[k]) == add_pt(p, pt(m)));
            }
            if shifted(t, pt(m)).contains(p) {
                let k = choose|k: int| 0 <= k < cells@.len() && pt(cells@[k]) == add_pt(p, pt(m));
                assert(pt(moved@[k]) == p);
            }
        }
        assert(pts(moved@) =~= shifted(t, pt(m)));
    }
    r
}

/// Maps every cell of the window by `m`, keeping the order.
fn map_cells(cells: &Vec<Vec2>, m: PointMap) -> (r: Vec<Vec2>)
    requires
        forall|k: int| 0 <= k < cells@.len() ==> in_window(#[trigger] pt(cells@[k])),
    ensures
        r@.len() == cells@.len(),
        forall|k: int| 0 <= k < r@.len() ==> #[trigger] pt(r@[k]) == apply_map(m, pt(cells@[k])),
        forall|k: int| 0 <= k < r@.len() ==> in_box(#[trigger] pt(r@[k]), image_low(m)),
{
    let mut r: Vec<Vec2> = Vec::new();
    let mut i: usize = 0;
    while i < cells.len()
        invariant
            i <= cells@.len(),
            r@.len() == i,
            forall|k: int| 0 <= k < cells@.len() ==> in_window(#[trigger] pt(cells@[k])),
            forall|k: int| 0 <= k < i ==> #[trigger] pt(r@[k]) == apply_map(m, pt(cells@[k])),
            forall|k: int| 0 <= k < i ==> in_box(#[trigger] pt(r@[k]), image_low(m)),
        decreases cells@.len() - i,
    {
        let c = cells[i];
        assert(in_window(pt(c)));
        let d = match m {
            PointMap::TurnRight => c.turn_right(),
            PointMap::TurnLeft => c.turn_left(),
            PointMap::Negate => c.neg(),
            PointMap::Flip => c.flip(),
        };
        r.push(d);
        i = i + 1;
    }
    r
}

/// `pts` of a mapped sequence is the image of `pts` of the sequence it came from.
proof fn lemma_image_pts(cells: Seq<Vec2>, mapped: Seq<Vec2>, m: PointMap)
    requires
        mapped.len() == cells.len(),
        forall|k: int| 0 <= k < mapped.len() ==> #[trigger] pt(mapped[k]) == apply_map(m, pt(cells[k])),
    ensures
        pts(mapped) == image(pts(cells), m),
{
    assert forall|q: (int, int)| #[trigger] pts(mapped).contains(q) <==> image(pts(cells), m).contains(q) by {
        if pts(mapped).contains(q) {
            let k = choose|k: int| 0 <= k < mapped.len() && pt(mapped[k]) == q;
            assert(pt(cells[k]) == inverse_map(m, q));
        }
        if image(pts(cells), m).contains(q) {
            let k = choose|k: int| 0 <= k < cells.len() && pt(cells[k]) == inverse_map(m, q);
            assert(pt(mapped[k]) == q);
        }
    }
    assert(pts(mapped) =~= image(pts(cells), m));
}

} // verus!

verus! {

/// Number of shapes in the catalog.
pub const SHAPE_COUNT: usize = 21;

/// Total number of cells over the whole catalog.
pub const SUM_MAX_SQUARES: i32 = 89;

/// The cells of catalog shape `i`, in the order in which they are listed.
pub open spec fn catalog_seq(i: int) -> Seq<(int, int)> {
    if i == 0 {
        seq![(0, 0)]
    } else if i == 1 {
        seq![(0, 0), (1, 0)]
    } else if i == 2 {
        seq![(0, 0), (0, 1), (1, 1)]
    } else if i == 3 {
        seq![(0, 0), (0, 1), (0, 2)]
    } else if i == 4 {
        seq![(0, 0), (1, 0), (0, 1), (1, 1)]
    } else if i == 5 {
        seq![(0, 0), (1, 0), (2, 0), (1, 1)]
    } else if i == 6 {
        seq![(0, 0), (0, 1), (0, 2), (0, 3)]
    } else if i == 7 {
        seq![(0, 0), (0, 1), (0, 2), (1, 2)]
    } else if i == 8 {
        seq![(0, 0), (1, 0), (1, 1), (2, 1)]
    } else if i == 9 {
        seq![(0, 0), (0, 1), (0, 2), (0, 3), (1, 3)]
    } else if i == 10 {
        seq![(0, 0), (1, 0), (2, 0), (1, 1), (1, 2)]
    } else if i == 11 {
        seq![(0, 0), (0, 1), (0, 2), (1, 2), (2, 2)]
    } else if i == 12 {
        seq![(1, 0), (2, 0), (3, 0), (0, 1), (1, 1)]
    } else if i == 13 {
        seq![(0, 0), (1, 0), (1, 1), (1, 2), (2, 2)]
    } else if i == 14 {
        seq![(0, 0), (0, 1), (0, 2), (0, 3), (0, 4)]
    } else if i == 15 {
        seq![(0, 0), (1, 0), (0, 1), (1, 1), (0, 2)]
    } else if i == 16 {
        seq![(0, 0), (0, 1), (1, 1), (1, 2), (2, 2)]
    } else if i == 17 {
        seq![(0, 0), (0, 1), (1, 1), (2, 1), (2, 0)]
    } else if i == 18 {
        seq![(0, 1), (1, 1), (1, 2), (2, 1), (2, 0)]
    } else if i == 19 {
        seq![(1, 0), (0, 1), (1, 1), (2, 1), (1, 2)]
    } else {
        seq![(0, 1), (1, 0), (1, 1), (1, 2), (1, 3)]
    }
}

/// The name of catalog shape `i`.
pub open spec fn shape_name(i: int) -> &'static str {
    if i == 0 {
        "MONO"
    } else if i == 1 {
        "DOMINO"
    } else if i == 2 {
        "TRIO_L"
    } else if i == 3 {
        "TRIO_I"
    } else if i == 4 {
        "TETRO_O"
    } else if i == 5 {
        "TETRO_T"
    } else if i == 6 {
        "TETRO_I"
    } else if i == 7 {
        "TETRO_L"
    } else if i == 8 {
        "TETRO_Z"
    } else if i == 9 {
        "PENTO_L"
    } else if i == 10 {
        "PENTO_T"
    } else if i == 11 {
        "PENTO_V"
    } else if i == 12 {
        "PENTO_S"
    } else if i == 13 {
        "PENTO_Z"
    } else if i == 14 {
        "PENTO_I"
    } else if i == 15 {
        "PENTO_P"
    } else if i == 16 {
        "PENTO_W"
    } else if i == 17 {
        "PENTO_U"
    } else if i == 18 {
        "PENTO_R"
    } else if i == 19 {
        "PENTO_X"
    } else {
        "PENTO_Y"
    }
}

/// Catalog index of the monomino.
pub const MONO_INDEX: usize = 0;

/// The largest `x <= k` (down to 0) that a cell of `t` has, or 0.
pub open spec fn reach_x(t: Set<(int, int)>, k: int) -> int
    decreases k,
{
    if k <= 0 {
        0
    } else if exists|y: int| t.contains((k, y)) {
        k
    } else {
        reach_x(t, k - 1)
    }
}

/// The largest `y <= k` (down to 0) that a cell of `t` has, or 0.
pub open spec fn reach_y(t: Set<(int, int)>, k: int) -> int
    decreases k,
{
    if k <= 0 {
        0
    } else if exists|x: int| t.contains((x, k)) {
        k
    } else {
        reach_y(t, k - 1)
    }
}

/// Bounding box of a set of window cells: the largest coordinates, taking the
/// origin as seed.
pub open spec fn bbox(t: Set<(int, int)>) -> (int, int) {
    (reach_x(t, 4), reach_y(t, 4))
}

/// Where every cell of `t` has `x <= m`, and `m` is taken by a cell or is 0,
/// the search down from `k` finds `m`.
pub proof fn lemma_reach_x(t: Set<(int, int)>, k: int, m: int)
    requires
        0 <= m <= k,
        forall|p: (int, int)| t.contains(p) ==> p.0 <= m,
        m == 0 || exists|p: (int, int)| t.contains(p) && p.0 == m,
    ensures
        reach_x(t, k) == m,
    decreases k - m,
{
    if k == m {
        if m > 0 {
            let p = choose|p: (int, int)| t.contains(p) && p.0 == m;
            assert(t.contains((k, p.1)));
        }
    } else {
        assert(!exists|y: int| t.contains((k, y)));
        lemma_reach_x(t, k - 1, m);
    }
}

/// Where every cell of `t` has `y <= m`, and `m` is taken by a cell or is 0,
/// the search down from `k` finds `m`.
pub proof fn lemma_reach_y(t: Set<(int, int)>, k: int, m: int)
    requires
        0 <= m <= k,
        forall|p: (int, int)| t.contains(p) ==> p.1 <= m,
        m == 0 || exists|p: (int, int)| t.contains(p) && p.1 == m,
    ensures
        reach_y(t, k) == m,
    decreases k - m,
{
    if k == m {
        if m > 0 {
            let p = choose|p: (int, int)| t.contains(p) && p.1 == m;
            assert(t.contains((p.0, k)));
        }
    } else {
        assert(!exists|x: int| t.contains((x, k)));
        lemma_reach_y(t, k - 1, m);
    }
}

/// The picture of a set of window cells: five rows of five characters, `#`
/// for a cell of the set and `.` for any other, each row ended by a newline.
pub open spec fn ascii_of(t: Set<(int, int)>) -> Seq<char> {
    Seq::new(30, |k: int| if k % 6 == 5 { '\n' } else if t.contains((k % 6, k / 6)) { '#' } else { '.' })
}

/// The catalog cells of shape `i` as a set.
pub open spec fn catalog_cells(i: int) -> Set<(int, int)> {
    catalog_seq(i).to_set()
}

/// A shape of the game: a name from the catalog of 21 and a set of cells in
/// the 5x5 window. Two shapes are equal when their names are.
#[derive(Debug, Copy, Clone)]
pub struct PieceShape {
    index: usize,
    coordinates: CoordinateSet,
}

impl View for PieceShape {
    type V = Set<(int, int)>;

    closed spec fn view(&self) -> Set<(int, int)> {
        self.coordinates@
    }
}

impl PartialEq for PieceShape {
    fn eq(&self, other: &PieceShape) -> (r: bool)
        ensures
            r == (self.id() == other.id()),
    {
        self.index == other.index
    }
}

impl Eq for PieceShape {
}

impl vstd::std_specs::cmp::PartialEqSpecImpl for PieceShape {
    open spec fn obeys_eq_spec() -> bool {
        true
    }

    open spec fn eq_spec(&self, other: &PieceShape) -> bool {
        self.id() == other.id()
    }
}

impl PieceShape {
    #[verifier::type_invariant]
    closed spec fn inv(self) -> bool {
        self.index < SHAPE_COUNT
    }

    /// Catalog index of the shape's name.
    pub closed spec fn id(self) -> int {
        self.index as int
    }

    /// The shape's cells as a sequence of pairs.
    fn catalog_vec(i: usize) -> (r: Vec<Vec2>)
        requires
            i < SHAPE_COUNT,
        ensures
            r@.len() == catalog_seq(i as int).len(),
            forall|k: int| 0 <= k < r@.len() ==> #[trigger] pt(r@[k]) == catalog_seq(i as int)[k],
    {
        let r = match i {
            0 => vec![Vec2::new(0, 0)],
            1 => vec![Vec2::new(0, 0), Vec2::new(1, 0)],
            2 => vec![Vec2::new(0, 0), Vec2::new(0, 1), Vec2::new(1, 1)],
            3 => vec![Vec2::new(0, 0), Vec2::new(0, 1), Vec2::new(0, 2)],
            4 => vec![Vec2::new(0, 0), Vec2::new(1, 0), Vec2::new(0, 1), Vec2::new(1, 1)],
            5 => vec![Vec2::new(0, 0), Vec2::new(1, 0), Vec2::new(2, 0), Vec2::new(1, 1)],
            6 => vec![Vec2::new(0, 0), Vec2::new(0, 1), Vec2::new(0, 2), Vec2::new(0, 3)],
            7 => vec![Vec2::new(0, 0), Vec2::new(0, 1), Vec2::new(0, 2), Vec2::new(1, 2)],
            8 => vec![Vec2::new(0, 0), Vec2::new(1, 0), Vec2::new(1, 1), Vec2::new(2, 1)],
            9 => vec![Vec2::new(0, 0), Vec2::new(0, 1), Vec2::new(0, 2), Vec2::new(0, 3), Vec2::new(1, 3)],
            10 => vec![Vec2::new(0, 0), Vec2::new(1, 0), Vec2::new(2, 0), Vec2::new(1, 1), Vec2::new(1, 2)],
            11 => vec![Vec2::new(0, 0), Vec2::new(0, 1), Vec2::new(0, 2), Vec2::new(1, 2), Vec2::new(2, 2)],
            12 => vec![Vec2::new(1, 0), Vec2::new(2, 0), Vec2::new(3, 0), Vec2::new(0, 1), Vec2::new(1, 1)],
            13 => vec![Vec2::new(0, 0), Vec2::new(1, 0), Vec2::new(1, 1), Vec2::new(1, 2), Vec2::new(2, 2)],
            14 => vec![Vec2::new(0, 0), Vec2::new(0, 1), Vec2::new(0, 2), Vec2::new(0, 3), Vec2::new(0, 4)],
            15 => vec![Vec2::new(0, 0), Vec2::new(1, 0), Vec2::new(0, 1), Vec2::new(1, 1), Vec2::new(0, 2)],
            16 => vec![Vec2::new(0, 0), Vec2::new(0, 1), Vec2::new(1, 1), Vec2::new(1, 2), Vec2::new(2, 2)],
            17 => vec![Vec2::new(0, 0), Vec2::new(0, 1), Vec2::new(1, 1), Vec2::new(2, 1), Vec2::new(2, 0)],
            18 => vec![Vec2::new(0, 1), Vec2::new(1, 1), Vec2::new(1, 2), Vec2::new(2, 1), Vec2::new(2, 0)],
            19 => vec![Vec2::new(1, 0), Vec2::new(0, 1), Vec2::new(1, 1), Vec2::new(2, 1), Vec2::new(1, 2)],
            _ => vec![Vec2::new(0, 1), Vec2::new(1, 0), Vec2::new(1, 1), Vec2::new(1, 2), Vec2::new(1, 3)],
        };
        r
    }

    /// The catalog shape with index `i`.
    pub fn from_index(i: usize) -> (r: PieceShape)
        requires
            i < SHAPE_COUNT,
        ensures
            r.id() == i,
            r@ == catalog_cells(i as int),
    {
        let cells = Self::catalog_vec(i);
        let coordinates = CoordinateSet::from_cells(&cells);
        proof {
            let s = catalog_seq(i as int);
            assert forall|p: (int, int)| #[trigger] pts(cells@).contains(p) <==> s.to_set().contains(p) by {
                if pts(cells@).contains(p) {
                    let k = choose|k: int| 0 <= k < cells@.len() && pt(cells@[k]) == p;
                    assert(s[k] == p);
                }
                if s.to_set().contains(p) {
                    let k = choose|k: int| 0 <= k < s.len() && s[k] == p;
                    assert(pt(cells@[k]) == p);
                }
            }
            assert(pts(cells@) =~= s.to_set());
        }
        PieceShape { index: i, coordinates }
    }

    /// The catalog of all 21 shapes, in index order.
    pub fn catalog() -> (r: Vec<PieceShape>)
        ensures
            r@.len() == SHAPE_COUNT,
            forall|k: int| 0 <= k < SHAPE_COUNT ==> (#[trigger] r@[k]).id() == k && r@[k]@ == catalog_cells(k),
    {
        let mut r: Vec<PieceShape> = Vec::new();
        let mut i: usize = 0;
        while i < SHAPE_COUNT
            invariant
                i <= SHAPE_COUNT,
                r@.len() == i,
                forall|k: int| 0 <= k < i ==> (#[trigger] r@[k]).id() == k && r@[k]@ == catalog_cells(k),
            decreases SHAPE_COUNT - i,
        {
            r.push(Self::from_index(i));
            i = i + 1;
        }
        r
    }

    /// The catalog shape with the given name.
    pub fn from_name(name: &str) -> (r: Option<PieceShape>)
        ensures
            match r {
                Some(s) => 0 <= s.id() < SHAPE_COUNT && shape_name(s.id())@ == name@ && s@
                    == catalog_cells(s.id()),
                None => forall|i: int| 0 <= i < SHAPE_COUNT ==> (#[trigger] shape_name(i))@ != name@,
            },
    {
        let wanted = name.to_owned();
        let mut i: usize = 0;
        while i < SHAPE_COUNT
            invariant
                i <= SHAPE_COUNT,
                wanted@ == name@,
                forall|k: int| 0 <= k < i ==> (#[trigger] shape_name(k))@ != name@,
            decreases SHAPE_COUNT - i,
        {
            let s = Self::from_index(i);
            if wanted == s.name().to_owned() {
                return Some(s);
            }
            i = i + 1;
        }
        None
    }

    /// The shape's catalog index.
    pub fn index(&self) -> (r: usize)
        ensures
            r == self.id(),
            r < SHAPE_COUNT,
    {
        proof {
            use_type_invariant(self);
        }
        self.index
    }

    /// The shape's (internal) name.
    pub fn name(&self) -> (r: &'static str)
        ensures
            r == shape_name(self.id()),
    {
        match self.index {
            0 => "MONO",
            1 => "DOMINO",
            2 => "TRIO_L",
            3 => "TRIO_I",
            4 => "TETRO_O",
            5 => "TETRO_T",
            6 => "TETRO_I",
            7 => "TETRO_L",
            8 => "TETRO_Z",
            9 => "PENTO_L",
            10 => "PENTO_T",
            11 => "PENTO_V",
            12 => "PENTO_S",
            13 => "PENTO_Z",
            14 => "PENTO_I",
            15 => "PENTO_P",
            16 => "PENTO_W",
            17 => "PENTO_U",
            18 => "PENTO_R",
            19 => "PENTO_X",
            _ => "PENTO_Y",
        }
    }

    /// Checks whether the shape holds the given (normalised) cell.
    pub fn contains(&self, coordinates: Vec2) -> (r: bool)
        ensures
            r == self@.contains(pt(coordinates)),
    {
        self.coordinates.contains(coordinates)
    }

    /// The occupied cells in row-major order, the upper left corner of the
    /// window being the origin.
    pub fn coordinates(&self) -> (r: Vec<Vec2>)
        ensures
            pts(r@) == self@,
            row_major(r@),
    {
        self.coordinates.coordinates()
    }

    /// The number of cells of the shape.
    pub fn size(&self) -> (r: usize)
        ensures
            self@.finite(),
            r == self@.len(),
            r <= 25,
    {
        self.coordinates.len()
    }

    /// The bounding box of the shape: the largest coordinates of its cells
    /// minus the smallest, both taken together with the origin.
    pub fn bounding_box(&self) -> (r: Vec2)
        ensures
            pt(r) == bbox(self@),
            0 <= r.x < 5,
            0 <= r.y < 5,
            forall|p: (int, int)| self@.contains(p) ==> p.0 <= r.x && p.1 <= r.y,
    {
        let cells = self.coordinates.coordinates();
        let mut lo = Vec2::zero();
        let mut hi = Vec2::zero();
        let mut i: usize = 0;
        while i < cells.len()
            invariant
                i <= cells@.len(),
                row_major(cells@),
                lo.x == 0 && lo.y == 0,
                0 <= hi.x < 5 && 0 <= hi.y < 5,
                forall|k: int| 0 <= k < i ==> #[trigger] cells@[k].x <= hi.x && cells@[k].y <= hi.y,
                hi.x == 0 || exists|k: int| 0 <= k < i && #[trigger] cells@[k].x == hi.x,
                hi.y == 0 || exists|k: int| 0 <= k < i && #[trigger] cells@[k].y == hi.y,
            decreases cells@.len() - i,
        {
            assert(in_window(pt(cells@[i as int])));
            lo = lo.min(cells[i]);
            hi = hi.max(cells[i]);
            i = i + 1;
        }
        let ghost t = pts(cells@);
        proof {
            assert forall|p: (int, int)| t.contains(p) implies p.0 <= hi.x && p.1 <= hi.y by {
                let k = choose|k: int| 0 <= k < cells@.len() && pt(cells@[k]) == p;
            }
            if hi.x != 0 {
                let k = choose|k: int| 0 <= k < cells@.len() && #[trigger] cells@[k].x == hi.x;
                assert(t.contains(pt(cells@[k])));
            }
            if hi.y != 0 {
                let k = choose|k: int| 0 <= k < cells@.len() && #[trigger] cells@[k].y == hi.y;
                assert(t.contains(pt(cells@[k])));
            }
            lemma_reach_x(t, 4, hi.x as int);
            lemma_reach_y(t, 4, hi.y as int);
        }
        hi.sub(lo)
    }

    /// A picture of the shape's cells in the 5x5 window.
    pub fn ascii_art(&self) -> (r: String)
        ensures
            r@ == ascii_of(self@),
    {
        let mut r = String::new();
        let mut y: i32 = 0;
        while y < MAX_SIDE_LENGTH
            invariant
                0 <= y <= 5,
                r@ == ascii_of(self@).take(6 * y),
            decreases 5 - y,
        {
            let mut x: i32 = 0;
            while x < MAX_SIDE_LENGTH
                invariant
                    0 <= x <= 5,
                    0 <= y < 5,
                    r@ == ascii_of(self@).take(6 * y + x),
                decreases 5 - x,
            {
                let c = if self.contains(Vec2::new(x, y)) { '#' } else { '.' };
                push_char(&mut r, c);
                proof {
                    let k = 6 * y + x;
                    assert(k % 6 == x && k / 6 == y);
                    assert(r@ =~= ascii_of(self@).take(6 * y + x + 1));
                }
                x = x + 1;
            }
            push_char(&mut r, '\n');
            proof {
                let k = 6 * y + 5;
                assert(k % 6 == 5);
                assert(r@ =~= ascii_of(self@).take(6 * (y + 1)));
            }
            y = y + 1;
        }
        assert(r@ =~= ascii_of(self@));
        r
    }

    /// The shape mapped cell by cell and moved back to the origin; the name
    /// stays.
    fn reshape(&self, m: PointMap) -> (r: Self)
        ensures
            r.id() == self.id(),
            r@ == reshaped(self@, m),
    {
        proof {
            use_type_invariant(self);
        }
        let cells = self.coordinates.coordinates();
        let mapped = map_cells(&cells, m);
        proof {
            lemma_image_pts(cells@, mapped@, m);
        }
        let coordinates = align(&mapped, Ghost(image_low(m)));
        PieceShape { index: self.index, coordinates }
    }

    /// Mirrors this shape along the y-axis.
    pub fn flip(&self) -> (r: Self)
        ensures
            r.id() == self.id(),
            r@ == reshaped(self@, PointMap::Flip),
    {
        self.reshape(PointMap::Flip)
    }

    /// Performs a rotation of this shape.
    pub fn rotate(&self, rotation: Rotation) -> (r: Self)
        ensures
            r.id() == self.id(),
            r@ == rotated(self@, rotation),
    {
        match rotation {
            Rotation::Identity => *self,
            Rotation::Mirror => self.reshape(PointMap::Negate),
            Rotation::Right => self.reshape(PointMap::TurnRight),
            Rotation::Left => self.reshape(PointMap::TurnLeft),
        }
    }

    /// Applies a rotation followed, where `flip` holds, by a flip.
    pub fn transform(&self, rotation: Rotation, flip: bool) -> (r: Self)
        ensures
            r.id() == self.id(),
            r@ == transformed(self@, rotation, flip),
    {
        let p = self.rotate(rotation);
        if flip {
            p.flip()
        } else {
            p
        }
    }

    /// The eight rotation/flip combinations, rotation-major, flip before
    /// no flip.
    pub fn transformations(&self) -> (r: Vec<(Rotation, bool)>)
        ensures
            r@ == transformation_order(),
    {
        let rotations = Rotation::all();
        let mut r: Vec<(Rotation, bool)> = Vec::new();
        let mut i: usize = 0;
        while i < rotations.len()
            invariant
                i <= rotations@.len(),
                rotations@ == crate::rotation::rotation_order(),
                r@ == transformation_order().take(2 * i as int),
            decreases rotations@.len() - i,
        {
            r.push((rotations[i], true));
            r.push((rotations[i], false));
            i = i + 1;
            assert(r@ =~= transformation_order().take(2 * i as int));
        }
        assert(r@ =~= transformation_order());
        r
    }

    /// Every variant of this shape, in the order of `transformations`.
    pub fn variants(&self) -> (r: Vec<PieceShape>)
        ensures
            r@.len() == 8,
            forall|k: int|
                0 <= k < 8 ==> (#[trigger] r@[k]).id() == self.id() && r@[k]@ == transformed(
                    self@,
                    transformation_order()[k].0,
                    transformation_order()[k].1,
                ),
    {
        let ts = self.transformations();
        let mut r: Vec<PieceShape> = Vec::new();
        let mut i: usize = 0;
        while i < ts.len()
            invariant
                i <= ts@.len(),
                ts@ == transformation_order(),
                r@.len() == i,
                forall|k: int|
                    0 <= k < i ==> (#[trigger] r@[k]).id() == self.id() && r@[k]@ == transformed(
                        self@,
                        transformation_order()[k].0,
                        transformation_order()[k].1,
                    ),
            decreases ts@.len() - i,
        {
            let (rotation, flip) = ts[i];
            r.push(self.transform(rotation, flip));
            i = i + 1;
        }
        r
    }
}

/// The cells of a shape after a rotation.
pub open spec fn rotated(t: Set<(int, int)>, rotation: Rotation) -> Set<(int, int)> {
    match rotation {
        Rotation::Identity => t,
        Rotation::Mirror => reshaped(t, PointMap::Negate),
        Rotation::Right => reshaped(t, PointMap::TurnRight),
        Rotation::Left => reshaped(t, PointMap::TurnLeft),
    }
}

/// The cells of a shape after a rotation and an optional flip.
pub open spec fn transformed(t: Set<(int, int)>, rotation: Rotation, flip: bool) -> Set<(int, int)> {
    if flip {
        reshaped(rotated(t, rotation), PointMap::Flip)
    } else {
        rotated(t, rotation)
    }
}

/// The eight rotation/flip pairs in generation order.
pub open spec fn transformation_order() -> Seq<(Rotation, bool)> {
    seq![
        (Rotation::Identity, true),
        (Rotation::Identity, false),
        (Rotation::Left, true),
        (Rotation::Left, false),
        (Rotation::Right, true),
        (Rotation::Right, false),
        (Rotation::Mirror, true),
        (Rotation::Mirror, false),
    ]
}

} // verus!

verus! {

/// Every cell of `t` has coordinates of magnitude at most `b`.
pub open spec fn bounded(t: Set<(int, int)>, b: int) -> bool {
    forall|p: (int, int)| t.contains(p) ==> -b <= p.0 <= b && -b <= p.1 <= b
}

/// The search from `k` finds a lower bound of the cells of `t` from `k` on,
/// and one that a cell takes unless it is 20.
proof fn lemma_lowest_x_props(t: Set<(int, int)>, k: int)
    requires
        -20 <= k <= 20,
    ensures
        k <= lowest_x(t, k) <= 20,
        forall|p: (int, int)| t.contains(p) && k <= p.0 < 20 ==> lowest_x(t, k) <= p.0,
        lowest_x(t, k) < 20 ==> exists|y: int| t.contains((lowest_x(t, k), y)),
    decreases 20 - k,
{
    if k < 20 && !(exists|y: int| t.contains((k, y))) {
        lemma_lowest_x_props(t, k + 1);
        assert forall|p: (int, int)| t.contains(p) && k <= p.0 < 20 implies lowest_x(t, k) <= p.0 by {
            if p.0 == k {
                assert(t.contains((k, p.1)));
            }
        }
    }
}

/// The search from `k` finds a lower bound of the cells of `t` from `k` on,
/// and one that a cell takes unless it is 20.
proof fn lemma_lowest_y_props(t: Set<(int, int)>, k: int)
    requires
        -20 <= k <= 20,
    ensures
        k <= lowest_y(t, k) <= 20,
        forall|p: (int, int)| t.contains(p) && k <= p.1 < 20 ==> lowest_y(t, k) <= p.1,
        lowest_y(t, k) < 20 ==> exists|x: int| t.contains((x, lowest_y(t, k))),
    decreases 20 - k,
{
    if k < 20 && !(exists|x: int| t.contains((x, k))) {
        lemma_lowest_y_props(t, k + 1);
        assert forall|p: (int, int)| t.contains(p) && k <= p.1 < 20 implies lowest_y(t, k) <= p.1 by {
            if p.1 == k {
                assert(t.contains((p.0, k)));
            }
        }
    }
}

/// Moving a bounded set does not change where alignment takes it.
proof fn lemma_align_shifted(t: Set<(int, int)>, d: (int, int))
    requires
        bounded(t, 19),
        bounded(shifted(t, d), 19),
    ensures
        align_set(shifted(t, d)) == align_set(t),
{
    let s = shifted(t, d);
    lemma_lowest_x_props(t, -20);
    lemma_lowest_y_props(t, -20);
    let m = min_corner(t);
    if exists|p: (int, int)| t.contains(p) {
        let p = choose|p: (int, int)| t.contains(p);
        assert(m.0 < 20 && m.1 < 20);
        let y0 = choose|y: int| t.contains((m.0, y));
        let x0 = choose|x: int| t.contains((x, m.1));
        assert(s.contains(sub_pt((m.0, y0), d)));
        assert(s.contains(sub_pt((x0, m.1), d)));
        assert forall|q: (int, int)| s.contains(q) implies q.0 >= m.0 - d.0 && q.1 >= m.1 - d.1 by {
            assert(t.contains(add_pt(q, d)));
        }
        lemma_lowest_x(s, -20, m.0 - d.0);
        lemma_lowest_y(s, -20, m.1 - d.1);
        assert(align_set(s) =~= align_set(t));
    } else {
        assert(align_set(s) =~= Set::<(int, int)>::empty()) by {
            assert forall|q: (int, int)| !align_set(s).contains(q) by {
                if align_set(s).contains(q) {
                    assert(t.contains(add_pt(add_pt(q, min_corner(s)), d)));
                }
            }
        }
        assert(align_set(t) =~= Set::<(int, int)>::empty());
    }
}

/// Mapping a moved set is moving the mapped set.
proof fn lemma_image_shifted(t: Set<(int, int)>, d: (int, int), m: PointMap)
    ensures
        image(shifted(t, d), m) == shifted(image(t, m), apply_map(m, d)),
{
    assert(image(shifted(t, d), m) =~= shifted(image(t, m), apply_map(m, d)));
}

/// Reshaping an aligned set is reshaping the set before its alignment.
proof fn lemma_reshape_aligned(u: Set<(int, int)>, m: PointMap)
    requires
        bounded(u, 4),
    ensures
        reshaped(align_set(u), m) == align_set(image(u, m)),
        bounded(image(u, m), 4),
{
    let mu = min_corner(u);
    lemma_image_shifted(u, mu, m);
    let v = image(u, m);
    assert(bounded(v, 4)) by {
        assert forall|q: (int, int)| v.contains(q) implies -4 <= q.0 <= 4 && -4 <= q.1 <= 4 by {
            assert(u.contains(inverse_map(m, q)));
        }
    }
    lemma_lowest_x_props(u, -20);
    lemma_lowest_y_props(u, -20);
    let d = apply_map(m, mu);
    assert(bounded(shifted(v, d), 19)) by {
        if exists|p: (int, int)| u.contains(p) {
            let p = choose|p: (int, int)| u.contains(p);
            let y0 = choose|y: int| u.contains((mu.0, y));
            let x0 = choose|x: int| u.contains((x, mu.1));
            assert(-4 <= mu.0 <= 4 && -4 <= mu.1 <= 4);
        } else {
            assert forall|q: (int, int)| !shifted(v, d).contains(q) by {
                if shifted(v, d).contains(q) {
                    assert(u.contains(inverse_map(m, add_pt(q, d))));
                }
            }
        }
    }
    lemma_align_shifted(v, d);
}

/// Four right turns bring an aligned shape back to itself.
pub proof fn law_four_right_turns(t: Set<(int, int)>)
    requires
        bounded(t, 4),
        align_set(t) == t,
    ensures
        reshaped(reshaped(reshaped(reshaped(t, PointMap::TurnRight), PointMap::TurnRight), PointMap::TurnRight),
            PointMap::TurnRight) == t,
{
    let m = PointMap::TurnRight;
    let u1 = image(t, m);
    lemma_reshape_aligned(t, m);
    let u2 = image(u1, m);
    lemma_reshape_aligned(u1, m);
    let u3 = image(u2, m);
    lemma_reshape_aligned(u2, m);
    let u4 = image(u3, m);
    lemma_reshape_aligned(u3, m);
    assert(u4 =~= t);
}

/// Flipping an aligned shape twice brings it back to itself.
pub proof fn law_flip_twice(t: Set<(int, int)>)
    requires
        bounded(t, 4),
        align_set(t) == t,
    ensures
        reshaped(reshaped(t, PointMap::Flip), PointMap::Flip) == t,
{
    let m = PointMap::Flip;
    let u1 = image(t, m);
    lemma_reshape_aligned(t, m);
    assert(reshaped(t, m) == align_set(u1));
    lemma_reshape_aligned(u1, m);
    let u2 = image(u1, m);
    assert(reshaped(reshaped(t, m), m) == align_set(u2));
    assert(u2 =~= t) by {
        assert forall|q: (int, int)| u2.contains(q) == t.contains(q) by {
            assert(flip_pt(flip_pt(q)) == q);
        }
    }
}

/// Every catalog shape lies in the window and is aligned: moving it to the
/// origin leaves it as it is.
pub proof fn law_catalog_aligned(i: int)
    requires
        0 <= i < SHAPE_COUNT,
    ensures
        bounded(catalog_cells(i), 4),
        align_set(catalog_cells(i)) == catalog_cells(i),
{
    let s = catalog_seq(i);
    let t = catalog_cells(i);
    assert(forall|k: int| 0 <= k < s.len() ==> 0 <= #[trigger] s[k].0 < 5 && 0 <= s[k].1 < 5);
    assert forall|p: (int, int)| t.contains(p) implies 0 <= p.0 < 5 && 0 <= p.1 < 5 by {
        let k = choose|k: int| 0 <= k < s.len() && s[k] == p;
    }
    let kx: int = if i == 12 {
        3
    } else if i == 19 {
        1
    } else {
        0
    };
    let ky: int = if i == 18 {
        4
    } else if i == 20 {
        1
    } else {
        0
    };
    assert(s[kx].0 == 0 && s[ky].1 == 0);
    assert(t.contains(s[kx]) && t.contains(s[ky]));
    lemma_lowest_x(t, -20, 0);
    lemma_lowest_y(t, -20, 0);
    assert(align_set(t) =~= t);
}

/// Four right turns bring every catalog shape back to itself, and so does
/// flipping it twice (`rotate(Rotation::Right)` gives `reshaped(_, TurnRight)`).
pub proof fn law_catalog_turns(i: int)
    requires
        0 <= i < SHAPE_COUNT,
    ensures
        reshaped(reshaped(reshaped(reshaped(catalog_cells(i), PointMap::TurnRight), PointMap::TurnRight), PointMap::TurnRight),
            PointMap::TurnRight) == catalog_cells(i),
        reshaped(reshaped(catalog_cells(i), PointMap::Flip), PointMap::Flip) == catalog_cells(i),
{
    let t = catalog_cells(i);
    law_catalog_aligned(i);
    law_four_right_turns(t);
    law_flip_twice(t);
}

} // verus!
