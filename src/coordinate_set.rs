use vstd::prelude::*;
use crate::vec2::{Vec2, pt};

verus! {

/// Side length of the square window that holds every shape.
pub const MAX_SIDE_LENGTH: i32 = 5;

/// The cell lies in the 5x5 window.
pub open spec fn in_window(p: (int, int)) -> bool {
    0 <= p.0 < 5 && 0 <= p.1 < 5
}

/// Row-major index of a cell of the window.
pub open spec fn cell_index(p: (int, int)) -> int {
    p.1 * 5 + p.0
}

/// Bit `i` of `bits` is set.
pub open spec fn bit_at(bits: u32, i: int) -> bool {
    ((bits >> (i as u32)) & 1u32) == 1u32
}

/// The cells of the window whose bit is set.
pub open spec fn cells_of(bits: u32) -> Set<(int, int)> {
    Set::new(|p: (int, int)| in_window(p) && bit_at(bits, cell_index(p)))
}

/// The points that a sequence of vectors holds.
pub open spec fn pts(s: Seq<Vec2>) -> Set<(int, int)> {
    Set::new(|p: (int, int)| exists|k: int| 0 <= k < s.len() && pt(s[k]) == p)
}

/// The vectors of `s` lie in the window, in strictly increasing row-major
/// order.
pub open spec fn row_major(s: Seq<Vec2>) -> bool {
    &&& forall|k: int| 0 <= k < s.len() ==> in_window(#[trigger] pt(s[k]))
    &&& forall|a: int, b: int|
        0 <= a < b < s.len() ==> cell_index(pt(s[a])) < cell_index(pt(s[b]))
}

proof fn lemma_bit_insert(b: u32, i: u32, j: u32)
    requires
        i < 32,
        j < 32,
    ensures
        (((b | (1u32 << i)) >> j) & 1u32 == 1u32) == (i == j || (b >> j) & 1u32 == 1u32),
{
    assert((((b | (1u32 << i)) >> j) & 1u32 == 1u32) == (i == j || (b >> j) & 1u32 == 1u32))
        by (bit_vector)
        requires
            i < 32,
            j < 32,
    ;
}

proof fn lemma_no_bits(j: u32)
    requires
        j < 32,
    ensures
        (0u32 >> j) & 1u32 != 1u32,
{
    assert((0u32 >> j) & 1u32 != 1u32) by (bit_vector);
}

/// A set of cells of the 5x5 window, held as a 25-bit mask in which bit
/// `y * 5 + x` stands for the cell `(x, y)`.
#[derive(Debug, Copy, Clone, PartialEq, Eq, Hash, Structural)]
pub struct CoordinateSet {
    bits: u32,
}

impl View for CoordinateSet {
    type V = Set<(int, int)>;

    closed spec fn view(&self) -> Set<(int, int)> {
        cells_of(self.bits)
    }
}

impl CoordinateSet {
    /// The empty set.
    pub fn new() -> (r: Self)
        ensures
            r@ == Set::<(int, int)>::empty(),
    {
        let r = Self { bits: 0 };
        assert forall|p: (int, int)| !r@.contains(p) by {
            if in_window(p) {
                lemma_no_bits(cell_index(p) as u32);
            }
        }
        assert(r@ =~= Set::<(int, int)>::empty());
        r
    }

    fn index_of(coordinates: Vec2) -> (r: u32)
        requires
            in_window(pt(coordinates)),
        ensures
            r as int == cell_index(pt(coordinates)),
            r < 25,
    {
        (coordinates.y * MAX_SIDE_LENGTH + coordinates.x) as u32
    }

    /// Adds a cell of the window to the set.
    pub fn insert(&mut self, coordinates: Vec2)
        requires
            in_window(pt(coordinates)),
        ensures
            final(self)@ == old(self)@.insert(pt(coordinates)),
    {
        let i = Self::index_of(coordinates);
        let ghost b = self.bits;
        self.bits = self.bits | (1u32 << i);
        proof {
            assert forall|p: (int, int)| in_window(p) implies
                (bit_at(self.bits, cell_index(p)) == (p == pt(coordinates) || bit_at(b, cell_index(p)))) by {
                lemma_bit_insert(b, i, cell_index(p) as u32);
            }
        }
        assert(self@ =~= old(self)@.insert(pt(coordinates)));
    }

    /// Checks whether the set holds the given cell; cells outside the window
    /// are never held.
    pub fn contains(&self, coordinates: Vec2) -> (r: bool)
        ensures
            r == self@.contains(pt(coordinates)),
    {
        coordinates.x >= 0 && coordinates.y >= 0 && coordinates.x < MAX_SIDE_LENGTH
            && coordinates.y < MAX_SIDE_LENGTH && ((self.bits >> Self::index_of(coordinates)) & 1)
            == 1
    }

    /// The cells of the set in row-major order.
    pub fn coordinates(&self) -> (r: Vec<Vec2>)
        ensures
            pts(r@) == self@,
            row_major(r@),
    {
        let mut r: Vec<Vec2> = Vec::new();
        let mut i: u32 = 0;
        while i < 25
            invariant
                i <= 25,
                row_major(r@),
                forall|k: int| 0 <= k < r@.len() ==> self@.contains(#[trigger] pt(r@[k])),
                forall|k: int| 0 <= k < r@.len() ==> cell_index(#[trigger] pt(r@[k])) < i,
                forall|p: (int, int)|
                    self@.contains(p) && cell_index(p) < i ==> #[trigger] pts(r@).contains(p),
            decreases 25 - i,
        {
            if (self.bits >> i) & 1 == 1 {
                let v = Vec2::new((i % 5) as i32, (i / 5) as i32);
                assert(cell_index(pt(v)) == i);
                let ghost old_r = r@;
                r.push(v);
                proof {
                    assert forall|p: (int, int)|
                        self@.contains(p) && cell_index(p) < i + 1 implies #[trigger] pts(r@).contains(p) by {
                        if cell_index(p) < i {
                            assert(pts(old_r).contains(p));
                            let k = choose|k: int| 0 <= k < old_r.len() && pt(old_r[k]) == p;
                            assert(pt(r@[k]) == p);
                        } else {
                            assert(p.0 == i % 5 && p.1 == i / 5);
                            assert(pt(r@[old_r.len() as int]) == p);
                        }
                    }
                }
            } else {
                proof {
                    assert forall|p: (int, int)|
                        self@.contains(p) && cell_index(p) < i + 1 implies #[trigger] pts(r@).contains(p) by {
                        if cell_index(p) == i {
                            assert(p.0 == i % 5 && p.1 == i / 5);
                        }
                    }
                }
            }
            i = i + 1;
        }
        proof {
            assert forall|p: (int, int)| pts(r@).contains(p) implies self@.contains(p) by {
                let k = choose|k: int| 0 <= k < r@.len() && pt(r@[k]) == p;
                assert(self@.contains(pt(r@[k])));
            }
            assert forall|p: (int, int)| self@.contains(p) implies pts(r@).contains(p) by {
                assert(cell_index(p) < 25);
            }
        }
        assert(pts(r@) =~= self@);
        r
    }

    /// Collects the given cells of the window into a set.
    pub fn from_cells(cells: &Vec<Vec2>) -> (r: Self)
        requires
            forall|k: int| 0 <= k < cells@.len() ==> in_window(#[trigger] pt(cells@[k])),
        ensures
            r@ == pts(cells@),
    {
        let mut r = Self::new();
        let mut i: usize = 0;
        while i < cells.len()
            invariant
                i <= cells@.len(),
                forall|k: int| 0 <= k < cells@.len() ==> in_window(#[trigger] pt(cells@[k])),
                r@ == pts(cells@.take(i as int)),
            decreases cells@.len() - i,
        {
            r.insert(cells[i]);
            proof {
                let s = cells@.take(i as int + 1);
                let t = cells@.take(i as int);
                assert forall|p: (int, int)| pts(s).contains(p) <==> #[trigger] r@.contains(p) by {
                    if pts(s).contains(p) {
                        let k = choose|k: int| 0 <= k < s.len() && pt(s[k]) == p;
                        if k < i {
                            assert(pt(t[k]) == p);
                        }
                    }
                    if r@.contains(p) && p != pt(cells@[i as int]) {
                        let k = choose|k: int| 0 <= k < t.len() && pt(t[k]) == p;
                        assert(pt(s[k]) == p);
                    }
                    if p == pt(cells@[i as int]) {
                        assert(pt(s[i as int]) == p);
                    }
                }
                assert(r@ =~= pts(s));
            }
            i = i + 1;
        }
        assert(cells@.take(cells@.len() as int) =~= cells@);
        r
    }
}

} // verus!

verus! {

/// A row-major sequence holds as many distinct points as it has entries.
pub proof fn lemma_row_major_len(s: Seq<Vec2>)
    requires
        row_major(s),
    ensures
        pts(s).finite(),
        pts(s).len() == s.len(),
    decreases s.len(),
{
    if s.len() == 0 {
        assert(pts(s) =~= Set::<(int, int)>::empty());
    } else {
        let t = s.drop_last();
        assert(row_major(t)) by {
            assert forall|k: int| 0 <= k < t.len() implies in_window(#[trigger] pt(t[k])) by {
                assert(t[k] == s[k]);
            }
        }
        lemma_row_major_len(t);
        let last = pt(s[s.len() - 1]);
        assert forall|p: (int, int)| #[trigger] pts(s).contains(p) <==> pts(t).insert(last).contains(p) by {
            if pts(s).contains(p) {
                let k = choose|k: int| 0 <= k < s.len() && pt(s[k]) == p;
                if k < s.len() - 1 {
                    assert(pt(t[k]) == p);
                }
            }
            if pts(t).contains(p) {
                let k = choose|k: int| 0 <= k < t.len() && pt(t[k]) == p;
                assert(pt(s[k]) == p);
            }
            if p == last {
                assert(pt(s[s.len() - 1]) == p);
            }
        }
        assert(pts(s) =~= pts(t).insert(last));
        assert(!pts(t).contains(last)) by {
            if pts(t).contains(last) {
                let k = choose|k: int| 0 <= k < t.len() && pt(t[k]) == last;
                assert(cell_index(pt(s[k])) < cell_index(pt(s[s.len() - 1])));
            }
        }
    }
}

/// The `k`-th entry of a row-major sequence has row-major index at least `k`.
proof fn lemma_row_major_index(s: Seq<Vec2>, k: int)
    requires
        row_major(s),
        0 <= k < s.len(),
    ensures
        cell_index(pt(s[k])) >= k,
    decreases k,
{
    if k > 0 {
        lemma_row_major_index(s, k - 1);
        assert(cell_index(pt(s[k - 1])) < cell_index(pt(s[k])));
    }
}

impl CoordinateSet {
    /// The number of cells in the set.
    pub fn len(&self) -> (r: usize)
        ensures
            self@.finite(),
            r == self@.len(),
            r <= 25,
    {
        let c = self.coordinates();
        proof {
            lemma_row_major_len(c@);
            if c@.len() > 25 {
                lemma_row_major_index(c@, 25);
                assert(in_window(pt(c@[25])));
            }
        }
        c.len()
    }
}

} // verus!

verus! {

/// Two row-major sequences that agree before `k` and hold the same points
/// agree at `k` too.
proof fn lemma_row_major_step(s: Seq<Vec2>, t: Seq<Vec2>, k: int)
    requires
        row_major(s),
        row_major(t),
        pts(s) == pts(t),
        0 <= k < s.len(),
        0 <= k < t.len(),
        forall|j: int| 0 <= j < k ==> s[j] == t[j],
    ensures
        s[k] == t[k],
{
    assert(pts(t).contains(pt(s[k])));
    let j = choose|j: int| 0 <= j < t.len() && pt(t[j]) == pt(s[k]);
    assert(pts(s).contains(pt(t[k])));
    let i = choose|i: int| 0 <= i < s.len() && pt(s[i]) == pt(t[k]);
    if j < k {
        assert(s[j] == t[j]);
        assert(cell_index(pt(s[j])) < cell_index(pt(s[k])));
    } else if i < k {
        assert(s[i] == t[i]);
        assert(cell_index(pt(t[i])) < cell_index(pt(t[k])));
    } else {
        if j > k {
            assert(cell_index(pt(t[k])) < cell_index(pt(t[j])));
        }
        if i > k {
            assert(cell_index(pt(s[k])) < cell_index(pt(s[i])));
        }
    }
}

/// Two row-major sequences that agree before `k` and hold the same points
/// agree everywhere from `k` on.
proof fn lemma_row_major_from(s: Seq<Vec2>, t: Seq<Vec2>, k: int)
    requires
        row_major(s),
        row_major(t),
        pts(s) == pts(t),
        s.len() == t.len(),
        0 <= k <= s.len(),
        forall|j: int| 0 <= j < k ==> s[j] == t[j],
    ensures
        forall|j: int| 0 <= j < s.len() ==> s[j] == t[j],
    decreases s.len() - k,
{
    if k < s.len() {
        lemma_row_major_step(s, t, k);
        lemma_row_major_from(s, t, k + 1);
    }
}

/// Collecting the cells of a set and listing them again gives the same
/// sequence: a row-major listing is fixed by the points it holds.
pub proof fn law_round_trip(s: Seq<Vec2>, t: Seq<Vec2>)
    requires
        row_major(s),
        row_major(t),
        pts(s) == pts(t),
    ensures
        s == t,
{
    lemma_row_major_len(s);
    lemma_row_major_len(t);
    lemma_row_major_from(s, t, 0);
    assert(s =~= t);
}

} // verus!
