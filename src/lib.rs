// Boids flocking in fixed-point arithmetic: a starting grid, and an update
// that applies separation, alignment, cohesion, edge avoidance and a speed
// clamp to every boid from one snapshot of the flock.

pub mod arith;
pub mod boid;
pub mod flock;
pub mod grid;
pub mod laws;
pub mod params;
pub mod speed;
