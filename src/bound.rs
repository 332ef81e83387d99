use vstd::prelude::*;

use crate::body::Body;
use crate::vec_2d::Vec2D;

verus! {

/// Largest width or height of a bound, in grid units.
pub const MAX_EXTENT: i128 = 0x4_0000_0000;

/// Largest subdivision factor of a bound (see [`Bound::unit`]).
pub const MAX_UNIT: i128 = 0x8_0000_0000;

/// An axis-aligned rectangle, `(x, y)` being its top-left corner.
///
/// All four numbers are counted in steps of `1 / unit` grid units: the
/// rectangle spans `x / unit .. (x + w) / unit` horizontally and
/// `y / unit .. (y + h) / unit` vertically. Subdividing doubles `unit` and
/// keeps `w` and `h`, so the four quadrants are exact halves at every depth.
#[derive(Clone, Copy, Debug, PartialEq, Eq, Structural)]
pub struct Bound {
    pub x: i128,
    pub y: i128,
    pub w: i128,
    pub h: i128,
    pub unit: i128,
}

impl Bound {
    /// The rectangle is not empty and its corners stay within the limits.
    pub open spec fn wf(self) -> bool {
        &&& 1 <= self.unit <= MAX_UNIT
        &&& 0 < self.w <= MAX_EXTENT
        &&& 0 < self.h <= MAX_EXTENT
        &&& -MAX_EXTENT * self.unit <= self.x
        &&& self.x + self.w <= MAX_EXTENT * self.unit
        &&& -MAX_EXTENT * self.unit <= self.y
        &&& self.y + self.h <= MAX_EXTENT * self.unit
    }

    /// `p` lies strictly inside the rectangle, on both axes.
    pub open spec fn strictly_inside(self, p: Vec2D) -> bool {
        &&& self.x < p.x * self.unit < self.x + self.w
        &&& self.y < p.y * self.unit < self.y + self.h
    }

    /// `p` lies in the rectangle closed on its top and left edges and open on
    /// its bottom and right edges: the cell that a node of a tree owns.
    pub open spec fn covers(self, p: Vec2D) -> bool {
        &&& self.x <= p.x * self.unit < self.x + self.w
        &&& self.y <= p.y * self.unit < self.y + self.h
    }

    /// `p` lies on or right of the vertical midline.
    pub open spec fn east_of_mid(self, p: Vec2D) -> bool {
        p.x * (2 * self.unit) >= 2 * self.x + self.w
    }

    /// `p` lies on or below the horizontal midline.
    pub open spec fn south_of_mid(self, p: Vec2D) -> bool {
        p.y * (2 * self.unit) >= 2 * self.y + self.h
    }

    /// Quadrant `i` of the rectangle: 0 is NW (top left), 1 is NE (top right),
    /// 2 is SW (bottom left) and 3 is SE (bottom right).
    pub open spec fn child(self, i: int) -> Bound {
        let ox = if i == 1 || i == 3 { self.w } else { 0 };
        let oy = if i == 2 || i == 3 { self.h } else { 0 };
        Bound {
            x: (2 * self.x + ox) as i128,
            y: (2 * self.y + oy) as i128,
            w: self.w,
            h: self.h,
            unit: (2 * self.unit) as i128,
        }
    }

    /// The quadrant that owns `p`; a point on a midline goes to the east or
    /// south side of it.
    pub open spec fn quadrant(self, p: Vec2D) -> int {
        if self.east_of_mid(p) {
            if self.south_of_mid(p) { 3 } else { 1 }
        } else {
            if self.south_of_mid(p) { 2 } else { 0 }
        }
    }

    /// A bound at the top level, with `unit == 1`.
    pub fn new(x: i64, y: i64, w: i64, h: i64) -> (r: Bound)
        requires
            0 < w <= MAX_EXTENT,
            0 < h <= MAX_EXTENT,
            -MAX_EXTENT <= x,
            x + w <= MAX_EXTENT,
            -MAX_EXTENT <= y,
            y + h <= MAX_EXTENT,
        ensures
            r == (Bound { x: x as i128, y: y as i128, w: w as i128, h: h as i128, unit: 1 }),
            r.wf(),
    {
        Bound { x: x as i128, y: y as i128, w: w as i128, h: h as i128, unit: 1 }
    }

    /// True iff the body's position lies strictly inside the rectangle.
    pub fn contains(&self, body: &Body) -> (r: bool)
        requires
            self.wf(),
        ensures
            r == self.strictly_inside(body.position),
    {
        self.contains_point(body.position)
    }

    /// True iff `p` lies strictly inside the rectangle.
    pub fn contains_point(&self, p: Vec2D) -> (r: bool)
        requires
            self.wf(),
        ensures
            r == self.strictly_inside(p),
    {
        proof {
            lemma_scaled_coord_bounds(p.x as int, self.unit as int);
            lemma_scaled_coord_bounds(p.y as int, self.unit as int);
        }
        let px = p.x as i128 * self.unit;
        let py = p.y as i128 * self.unit;
        self.x < px && px < self.x + self.w && self.y < py && py < self.y + self.h
    }

    /// The quadrant index (as [`Bound::child`] numbers them) that owns `p`.
    pub fn quadrant_of(&self, p: Vec2D) -> (r: u8)
        requires
            self.wf(),
        ensures
            r == self.quadrant(p),
    {
        proof {
            lemma_scaled_coord_bounds(p.x as int, 2 * self.unit as int);
            lemma_scaled_coord_bounds(p.y as int, 2 * self.unit as int);
        }
        let u2 = 2 * self.unit;
        let east = p.x as i128 * u2 >= 2 * self.x + self.w;
        let south = p.y as i128 * u2 >= 2 * self.y + self.h;
        if east {
            if south { 3 } else { 1 }
        } else {
            if south { 2 } else { 0 }
        }
    }

    /// The four quadrants NW, NE, SW, SE, each half as wide and half as high.
    pub fn subdivide(&self) -> (r: (Bound, Bound, Bound, Bound))
        requires
            self.wf(),
            2 * self.unit <= MAX_UNIT,
        ensures
            r.0 == self.child(0),
            r.1 == self.child(1),
            r.2 == self.child(2),
            r.3 == self.child(3),
            r.0.wf() && r.1.wf() && r.2.wf() && r.3.wf(),
    {
        let u2 = 2 * self.unit;
        let x0 = 2 * self.x;
        let y0 = 2 * self.y;
        let x1 = x0 + self.w;
        let y1 = y0 + self.h;
        let nw = Bound { x: x0, y: y0, w: self.w, h: self.h, unit: u2 };
        let ne = Bound { x: x1, y: y0, w: self.w, h: self.h, unit: u2 };
        let sw = Bound { x: x0, y: y1, w: self.w, h: self.h, unit: u2 };
        let se = Bound { x: x1, y: y1, w: self.w, h: self.h, unit: u2 };
        (nw, ne, sw, se)
    }
}

/// A grid coordinate scaled by a unit stays far inside the range of `i128`.
pub proof fn lemma_scaled_coord_bounds(c: int, unit: int)
    requires
        i32::MIN <= c <= i32::MAX,
        1 <= unit <= 2 * MAX_UNIT,
    ensures
        -0x1_0000_0000_0000_0000_0000 <= c * unit <= 0x1_0000_0000_0000_0000_0000,
{
    assert(-0x1_0000_0000_0000_0000_0000 <= c * unit <= 0x1_0000_0000_0000_0000_0000)
        by (nonlinear_arith)
        requires
            -0x8000_0000 <= c <= 0x8000_0000,
            1 <= unit <= 0x10_0000_0000,
    ;
}

/// A point that a rectangle covers lies in the quadrant that owns it.
pub proof fn lemma_quadrant_covers(b: Bound, p: Vec2D)
    requires
        b.wf(),
        b.covers(p),
    ensures
        0 <= b.quadrant(p) < 4,
        b.child(b.quadrant(p)).covers(p),
{
    let (x, y, u) = (p.x as int, p.y as int, b.unit as int);
    assert(x * (2 * u) == 2 * (x * u)) by (nonlinear_arith);
    assert(y * (2 * u) == 2 * (y * u)) by (nonlinear_arith);
}

/// Two different points in one covered cell force the cell to span more than
/// one grid unit, so it can still be subdivided.
pub proof fn lemma_distinct_points_room(b: Bound, p: Vec2D, q: Vec2D)
    requires
        b.wf(),
        b.covers(p),
        b.covers(q),
        p != q,
    ensures
        2 * b.unit <= MAX_UNIT,
{
    if p.x != q.x {
        let (s, t, u) = (p.x as int, q.x as int, b.unit as int);
        assert(s * u - t * u >= u || s * u - t * u <= -u) by (nonlinear_arith)
            requires
                s != t,
                u >= 1,
        ;
    } else {
        assert(p.y != q.y);
        let (s, t, u) = (p.y as int, q.y as int, b.unit as int);
        assert(s * u - t * u >= u || s * u - t * u <= -u) by (nonlinear_arith)
            requires
                s != t,
                u >= 1,
        ;
    }
}

/// Every quadrant of a rectangle that can be subdivided is well formed.
pub proof fn lemma_child_wf(b: Bound, i: int)
    requires
        b.wf(),
        2 * b.unit <= MAX_UNIT,
        0 <= i < 4,
    ensures
        b.child(i).wf(),
{
}

} // verus!
