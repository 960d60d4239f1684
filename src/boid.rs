use vstd::prelude::*;

use crate::arith::abs;
use crate::params::{POS_LIMIT, VEL_LIMIT};

verus! {

/// One agent: position and velocity in fixed-point units.
#[derive(Clone, Copy, Debug, PartialEq, Eq, Structural)]
pub struct Boid {
    pub x: i64,
    pub y: i64,
    pub vx: i64,
    pub vy: i64,
}

impl Boid {
    pub fn new(x: i64, y: i64, vx: i64, vy: i64) -> (r: Boid)
        ensures
            r == (Boid { x, y, vx, vy }),
    {
        Boid { x, y, vx, vy }
    }

    /// Coordinates and velocity small enough for an update.
    pub open spec fn in_limits(self) -> bool {
        &&& abs(self.x as int) <= POS_LIMIT
        &&& abs(self.y as int) <= POS_LIMIT
        &&& abs(self.vx as int) <= VEL_LIMIT
        &&& abs(self.vy as int) <= VEL_LIMIT
    }

    /// Squared speed.
    pub open spec fn speed_sq(self) -> int {
        self.vx * self.vx + self.vy * self.vy
    }
}

} // verus!
