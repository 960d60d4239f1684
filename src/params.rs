use vstd::prelude::*;

verus! {

// Lengths are in thousandths of a world unit (one unit is one pixel),
// velocities in thousandths of a unit per second, time in milliseconds.

/// One world unit in fixed-point length units.
pub const UNIT: i64 = 1000;

/// Beyond this distance from the origin on either axis a boid is turned back.
pub const EDGE: i64 = 250_000;

/// Distance under which another boid counts as a neighbour.
pub const VISUAL_RANGE: i64 = 40_000;

/// Distance under which a neighbour is pushed away.
pub const PROTECTED_RANGE: i64 = 8_000;

/// Velocity change applied on each axis where the boid is past the edge.
pub const TURN_FACTOR: i64 = 12_000;

/// Lower bound of the speed after an update.
pub const SPEED_MIN: i64 = 180_000;

/// Upper bound of the speed after an update; twice the lower bound.
pub const SPEED_MAX: i64 = 360_000;

/// Alignment: the velocity moves by one part in this many toward the neighbours' mean.
pub const MATCHING_DIV: i64 = 20;

/// Cohesion: this many parts per `CENTERING_DEN` of the offset to the neighbours' centre.
pub const CENTERING_NUM: i64 = 3;

pub const CENTERING_DEN: i64 = 100;

/// Separation: multiplier of the summed offsets from crowding neighbours.
pub const AVOID_MUL: i64 = 3;

/// Distance between neighbouring points of the starting grid.
pub const GRID_SPACING: i64 = 10_000;

/// Largest flock that an update accepts.
pub const MAX_BOIDS: usize = 100_000;

/// Largest coordinate magnitude that an update accepts.
pub const POS_LIMIT: i64 = 1_000_000_000_000;

/// Largest velocity component magnitude that an update accepts.
pub const VEL_LIMIT: i64 = 10_000_000;

/// Longest time step, in milliseconds, that an update accepts.
pub const DT_MAX: i64 = 10_000;

} // verus!
