use vstd::prelude::*;

verus! {

/// A vector in 2D-space. The x-axis points to the right while the y-axis
/// points downwards.
#[derive(Debug, Copy, Clone, PartialEq, Eq, Hash, Structural)]
pub struct Vec2 {
    pub x: i32,
    pub y: i32,
}

/// The vector as a pair of mathematical integers.
pub open spec fn pt(v: Vec2) -> (int, int) {
    (v.x as int, v.y as int)
}

pub open spec fn turn_right_pt(p: (int, int)) -> (int, int) {
    (-p.1, p.0)
}

pub open spec fn turn_left_pt(p: (int, int)) -> (int, int) {
    (p.1, -p.0)
}

pub open spec fn flip_pt(p: (int, int)) -> (int, int) {
    (-p.0, p.1)
}

pub open spec fn neg_pt(p: (int, int)) -> (int, int) {
    (-p.0, -p.1)
}

pub open spec fn add_pt(a: (int, int), b: (int, int)) -> (int, int) {
    (a.0 + b.0, a.1 + b.1)
}

pub open spec fn sub_pt(a: (int, int), b: (int, int)) -> (int, int) {
    (a.0 - b.0, a.1 - b.1)
}

impl Vec2 {
    /// Creates a new vector.
    pub fn new(x: i32, y: i32) -> (r: Self)
        ensures
            r.x == x,
            r.y == y,
    {
        Self { x, y }
    }

    /// Creates a new vector with both components set to `value`.
    pub fn both(value: i32) -> (r: Self)
        ensures
            r.x == value,
            r.y == value,
    {
        Self::new(value, value)
    }

    /// The origin.
    pub fn zero() -> (r: Self)
        ensures
            r.x == 0,
            r.y == 0,
    {
        Self::new(0, 0)
    }

    /// Rotates this vector 90 degrees clockwise: `(x, y) -> (-y, x)`.
    pub fn turn_right(self) -> (r: Self)
        requires
            self.y > i32::MIN,
        ensures
            pt(r) == turn_right_pt(pt(self)),
    {
        Self::new(-self.y, self.x)
    }

    /// Rotates this vector 90 degrees counter-clockwise: `(x, y) -> (y, -x)`.
    pub fn turn_left(self) -> (r: Self)
        requires
            self.x > i32::MIN,
        ensures
            pt(r) == turn_left_pt(pt(self)),
    {
        Self::new(self.y, -self.x)
    }

    /// Mirrors the vector along the y-axis: `(x, y) -> (-x, y)`.
    pub fn flip(self) -> (r: Self)
        requires
            self.x > i32::MIN,
        ensures
            pt(r) == flip_pt(pt(self)),
    {
        Self::new(-self.x, self.y)
    }

    /// Negates both components.
    pub fn neg(self) -> (r: Self)
        requires
            self.x > i32::MIN,
            self.y > i32::MIN,
        ensures
            pt(r) == neg_pt(pt(self)),
    {
        Self::new(-self.x, -self.y)
    }

    /// Component-wise sum.
    pub fn add(self, other: Vec2) -> (r: Self)
        requires
            i32::MIN <= self.x + other.x <= i32::MAX,
            i32::MIN <= self.y + other.y <= i32::MAX,
        ensures
            pt(r) == add_pt(pt(self), pt(other)),
    {
        Self::new(self.x + other.x, self.y + other.y)
    }

    /// Component-wise difference.
    pub fn sub(self, other: Vec2) -> (r: Self)
        requires
            i32::MIN <= self.x - other.x <= i32::MAX,
            i32::MIN <= self.y - other.y <= i32::MAX,
        ensures
            pt(r) == sub_pt(pt(self), pt(other)),
    {
        Self::new(self.x - other.x, self.y - other.y)
    }

    /// Component-wise minimum with another point.
    pub fn min(self, other: Vec2) -> (r: Self)
        ensures
            r.x == if self.x <= other.x { self.x } else { other.x },
            r.y == if self.y <= other.y { self.y } else { other.y },
    {
        Self::new(
            if self.x <= other.x { self.x } else { other.x },
            if self.y <= other.y { self.y } else { other.y },
        )
    }

    /// Component-wise maximum with another point.
    pub fn max(self, other: Vec2) -> (r: Self)
        ensures
            r.x == if self.x >= other.x { self.x } else { other.x },
            r.y == if self.y >= other.y { self.y } else { other.y },
    {
        Self::new(
            if self.x >= other.x { self.x } else { other.x },
            if self.y >= other.y { self.y } else { other.y },
        )
    }

    /// Every point `(i, j)` with `0 <= i <= self.x` and `0 <= j <= self.y`, in
    /// row-major order.
    pub fn points_within(self) -> (r: Vec<Vec2>)
        requires
            0 <= self.x < i32::MAX,
            0 <= self.y < i32::MAX,
        ensures
            r@.len() == (self.x + 1) * (self.y + 1),
            forall|k: int|
                0 <= k < r@.len() ==> r@[k].x == k % (self.x + 1) as int && r@[k].y == k / (self.x + 1) as int,
    {
        let mut r: Vec<Vec2> = Vec::new();
        let w: i32 = self.x + 1;
        let mut j: i32 = 0;
        while j <= self.y
            invariant
                0 <= j <= self.y + 1,
                w == self.x + 1,
                0 <= self.x < i32::MAX,
                0 <= self.y < i32::MAX,
                r@.len() == j * w,
                forall|k: int| 0 <= k < r@.len() ==> r@[k].x == k % (w as int) && r@[k].y == k / (w as int),
            decreases self.y + 1 - j,
        {
            let mut i: i32 = 0;
            while i <= self.x
                invariant
                    0 <= i <= w,
                    0 <= j <= self.y,
                    w == self.x + 1,
                    0 <= self.x < i32::MAX,
                    0 <= self.y < i32::MAX,
                    r@.len() == j * w + i,
                    forall|k: int| 0 <= k < r@.len() ==> r@[k].x == k % (w as int) && r@[k].y == k / (w as int),
                decreases w - i,
            {
                proof {
                    let (ii, jj, ww) = (i as int, j as int, w as int);
                    let k: int = jj * ww + ii;
                    assert(k % ww == ii && k / ww == jj) by (nonlinear_arith)
                        requires k == jj * ww + ii, 0 <= ii < ww, 0 <= jj;
                }
                r.push(Vec2::new(i, j));
                i = i + 1;
            }
            proof {
                let (jj, ww) = (j as int, w as int);
                assert(jj * ww + ww == (jj + 1) * ww) by (nonlinear_arith);
            }
            j = j + 1;
        }
        proof {
            let (jj, ww) = (j as int, w as int);
            assert(jj * ww == ww * jj) by (nonlinear_arith);
        }
        r
    }
}

/// Walks the points `(i, j)` with `0 <= i <= target.x` and
/// `0 <= j <= target.y` in row-major order.
#[derive(Debug, Copy, Clone)]
pub struct Vec2Iterator {
    target: Vec2,
    x: i32,
    y: i32,
}

impl Vec2Iterator {
    /// The next point to hand out.
    pub closed spec fn cursor(self) -> (int, int) {
        (self.x as int, self.y as int)
    }

    /// The corner the walk ends at.
    pub closed spec fn end(self) -> Vec2 {
        self.target
    }

    /// The walk has handed out every point.
    pub open spec fn done(self) -> bool {
        self.cursor().0 > self.end().x || self.cursor().1 > self.end().y
    }

    /// Hands out the next point and moves on, or nothing once done.
    pub fn next(&mut self) -> (r: Option<Vec2>)
        requires
            old(self).end().x < i32::MAX,
            old(self).end().y < i32::MAX,
            0 <= old(self).cursor().0,
        ensures
            final(self).end() == old(self).end(),
            0 <= final(self).cursor().0,
            old(self).done() ==> r.is_none() && final(self).cursor() == old(self).cursor(),
            !old(self).done() ==> r == Some(Vec2 { x: old(self).cursor().0 as i32, y: old(self).cursor().1 as i32 })
                && final(self).cursor() == if old(self).cursor().0 + 1 > old(self).end().x {
                    (0, old(self).cursor().1 + 1)
                } else {
                    (old(self).cursor().0 + 1, old(self).cursor().1)
                },
    {
        if self.x > self.target.x || self.y > self.target.y {
            None
        } else {
            let (x, y) = (self.x, self.y);
            self.x = self.x + 1;
            if self.x > self.target.x {
                self.x = 0;
                self.y = self.y + 1;
            }
            Some(Vec2::new(x, y))
        }
    }
}

impl Vec2 {
    /// A walk over the points from the origin to this vector, in row-major
    /// order.
    pub fn iter_within(self) -> (r: Vec2Iterator)
        requires
            self.x >= 0,
            self.y >= 0,
        ensures
            r.end() == self,
            r.cursor() == (0int, 0int),
    {
        Vec2Iterator { target: self, x: 0, y: 0 }
    }
}

} // verus!
