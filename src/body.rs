use vstd::prelude::*;

use crate::vec_2d::{Vec2D, floor_sqrt, sq_len};

verus! {

/// A point mass at a grid position.
#[derive(Clone, Copy, Debug, PartialEq, Eq, Structural)]
pub struct Body {
    pub position: Vec2D,
    pub mass: u64,
}

impl Body {
    pub fn new(x: i32, y: i32, mass: u64) -> (r: Body)
        ensures
            r.position.x == x,
            r.position.y == y,
            r.mass == mass,
    {
        Body { position: Vec2D { x, y }, mass }
    }

    /// Squared Euclidean distance between the two bodies' positions.
    pub open spec fn dist_sq(self, other: Body) -> int {
        sq_len(self.position.x - other.position.x, self.position.y - other.position.y)
    }

    /// Euclidean distance `‖self.position - other.position‖`, rounded down.
    pub fn dist(&self, other: &Body) -> (r: u64)
        ensures
            r * r <= self.dist_sq(*other) < (r + 1) * (r + 1),
    {
        let dx = self.position.x as i64 - other.position.x as i64;
        let dy = self.position.y as i64 - other.position.y as i64;
        let ax = if dx < 0 { -dx } else { dx } as u128;
        let ay = if dy < 0 { -dy } else { dy } as u128;
        proof {
            assert(ax * ax <= 0x1_0000_0000_0000_0000 && ay * ay <= 0x1_0000_0000_0000_0000)
                by (nonlinear_arith)
                requires
                    ax <= 0x1_0000_0000,
                    ay <= 0x1_0000_0000,
            ;
            assert(ax * ax == dx * dx && ay * ay == dy * dy) by (nonlinear_arith)
                requires
                    ax == dx || ax == -dx,
                    ay == dy || ay == -dy,
            ;
        }
        floor_sqrt(ax * ax + ay * ay)
    }
}

} // verus!
