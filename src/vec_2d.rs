use vstd::prelude::*;

verus! {

/// A point or a displacement on the integer grid of the simulation plane.
#[derive(Clone, Copy, Debug, PartialEq, Eq, Structural)]
pub struct Vec2D {
    pub x: i32,
    pub y: i32,
}

/// Squared Euclidean length of the vector `(dx, dy)`.
pub open spec fn sq_len(dx: int, dy: int) -> int {
    dx * dx + dy * dy
}

impl Vec2D {
    pub fn new(x: i32, y: i32) -> (r: Vec2D)
        ensures
            r.x == x,
            r.y == y,
    {
        Vec2D { x, y }
    }

    /// The origin `(0, 0)`.
    pub fn zero() -> (r: Vec2D)
        ensures
            r.x == 0,
            r.y == 0,
    {
        Vec2D { x: 0, y: 0 }
    }

    /// Componentwise sum.
    pub fn add(self, other: Vec2D) -> (r: Vec2D)
        requires
            i32::MIN <= self.x + other.x <= i32::MAX,
            i32::MIN <= self.y + other.y <= i32::MAX,
        ensures
            r.x == self.x + other.x,
            r.y == self.y + other.y,
    {
        Vec2D { x: self.x + other.x, y: self.y + other.y }
    }

    /// Componentwise difference.
    pub fn sub(self, other: Vec2D) -> (r: Vec2D)
        requires
            i32::MIN <= self.x - other.x <= i32::MAX,
            i32::MIN <= self.y - other.y <= i32::MAX,
        ensures
            r.x == self.x - other.x,
            r.y == self.y - other.y,
    {
        Vec2D { x: self.x - other.x, y: self.y - other.y }
    }

    /// Squared 2-norm `x² + y²`, exact.
    pub fn norm_squared(&self) -> (r: u64)
        ensures
            r == sq_len(self.x as int, self.y as int),
    {
        let x = self.x as i64;
        let y = self.y as i64;
        assert(0 <= x * x <= 0x4000_0000_0000_0000) by (nonlinear_arith)
            requires
                -0x8000_0000 <= x <= 0x7fff_ffff,
        ;
        assert(0 <= y * y <= 0x4000_0000_0000_0000) by (nonlinear_arith)
            requires
                -0x8000_0000 <= y <= 0x7fff_ffff,
        ;
        ((x * x) as u64) + ((y * y) as u64)
    }

    /// The 2-norm `√(x² + y²)`, rounded down to an integer.
    pub fn norm(&self) -> (r: u64)
        ensures
            r * r <= sq_len(self.x as int, self.y as int) < (r + 1) * (r + 1),
    {
        let ghost (x, y) = (self.x as int, self.y as int);
        assert(x * x <= 0x4000_0000_0000_0000 && y * y <= 0x4000_0000_0000_0000) by (nonlinear_arith)
            requires
                -0x8000_0000 <= x <= 0x7fff_ffff,
                -0x8000_0000 <= y <= 0x7fff_ffff,
        ;
        floor_sqrt(self.norm_squared() as u128)
    }
}

impl Default for Vec2D {
    fn default() -> (r: Vec2D)
        ensures
            r.x == 0,
            r.y == 0,
    {
        Vec2D { x: 0, y: 0 }
    }
}

/// The largest `r` with `r * r <= n`.
pub fn floor_sqrt(n: u128) -> (r: u64)
    requires
        n < 0x4_0000_0000_0000_0000,
    ensures
        r * r <= n < (r + 1) * (r + 1),
{
    // Search for the largest r with r * r <= n in [lo, hi).
    let mut lo: u64 = 0;
    let mut hi: u64 = 0x2_0000_0000;
    assert(n < hi * hi) by (nonlinear_arith)
        requires
            n < 0x4_0000_0000_0000_0000,
            hi == 0x2_0000_0000,
    ;
    while lo + 1 < hi
        invariant
            lo < hi <= 0x2_0000_0000,
            lo * lo <= n,
            n < hi * hi,
        decreases hi - lo,
    {
        let mid: u64 = lo + (hi - lo) / 2;
        assert(mid * mid < 0x2_0000_0000 * 0x2_0000_0000) by (nonlinear_arith)
            requires
                mid < 0x2_0000_0000,
        ;
        let sq = (mid as u128) * (mid as u128);
        if sq <= n {
            lo = mid;
        } else {
            hi = mid;
        }
    }
    lo
}

} // verus!
