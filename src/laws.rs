use vstd::prelude::*;

use crate::arith::abs;
use crate::boid::Boid;
use crate::flock::{
    contribution, crowds, dist_sq, edge_turn, empty_tally, flock_in_limits, new_velocity,
    raw_velocity, sees, separation, stepped, tally,
};
use crate::params::{EDGE, TURN_FACTOR};
use crate::speed::{clamp_velocity, lemma_clamp_in_range, speed_in_range};

verus! {

/// After one update every boid whose velocity before clamping was nonzero
/// moves at a speed in `[SPEED_MIN, SPEED_MAX]`.
pub proof fn update_keeps_speed_in_range(s: Seq<Boid>, i: int, dt: int)
    requires
        flock_in_limits(s),
        0 <= i < s.len(),
        raw_velocity(s, i).0 * raw_velocity(s, i).0 + raw_velocity(s, i).1 * raw_velocity(s, i).1
            > 0,
    ensures
        speed_in_range(stepped(s, i, dt).vx as int, stepped(s, i, dt).vy as int),
{
    lemma_clamp_in_range(raw_velocity(s, i).0, raw_velocity(s, i).1);
}

proof fn lemma_no_neighbours_empty_tally(s: Seq<Boid>, i: int, k: int)
    requires
        0 <= i < s.len(),
        0 <= k <= s.len(),
        forall|j: int| 0 <= j < s.len() && j != i ==> !sees(s[i], #[trigger] s[j]),
    ensures
        tally(s, i, k) == empty_tally(),
    decreases k,
{
    if k > 0 {
        lemma_no_neighbours_empty_tally(s, i, k - 1);
        if k - 1 != i {
            assert(!sees(s[i], s[k - 1]));
        }
    }
}

/// A boid with no other boid in visual range gets no alignment, cohesion or
/// separation: its velocity changes only by edge avoidance and the clamp.
pub proof fn lone_boid_keeps_course(s: Seq<Boid>, i: int)
    requires
        0 <= i < s.len(),
        forall|j: int| 0 <= j < s.len() && j != i ==> !sees(s[i], #[trigger] s[j]),
    ensures
        raw_velocity(s, i) == (s[i].vx + edge_turn(s[i].x as int), s[i].vy + edge_turn(
            s[i].y as int,
        )),
        new_velocity(s, i) == clamp_velocity(
            s[i].vx + edge_turn(s[i].x as int),
            s[i].vy + edge_turn(s[i].y as int),
        ),
{
    lemma_no_neighbours_empty_tally(s, i, s.len() as int);
}

/// Two boids closer than the protected range, at distinct positions, push
/// each other apart: the separation term is nonzero, points from the other
/// boid toward this one, is the opposite of the other's, and is counted in
/// the tally.
pub proof fn crowding_pushes_apart(a: Boid, b: Boid)
    requires
        crowds(a, b),
        a.x != b.x || a.y != b.y,
    ensures
        separation(a, b) != (0int, 0int),
        separation(a, b).0 * (a.x - b.x) + separation(a, b).1 * (a.y - b.y) > 0,
        separation(b, a) == (-separation(a, b).0, -separation(a, b).1),
        sees(a, b),
        contribution(a, b).sx == separation(a, b).0,
        contribution(a, b).sy == separation(a, b).1,
{
    let ex = a.x - b.x;
    let ey = a.y - b.y;
    assert(ex * ex + ey * ey > 0) by (nonlinear_arith)
        requires
            ex != 0 || ey != 0,
    ;
    assert(dist_sq(b, a) == dist_sq(a, b)) by (nonlinear_arith)
        requires
            dist_sq(b, a) == (b.x - a.x) * (b.x - a.x) + (b.y - a.y) * (b.y - a.y),
            dist_sq(a, b) == (a.x - b.x) * (a.x - b.x) + (a.y - b.y) * (a.y - b.y),
    ;
}

/// Edge avoidance acts exactly when the coordinate is past the edge, and
/// then turns the boid back toward the origin by `TURN_FACTOR`.
pub proof fn edge_turn_only_outside(p: int)
    ensures
        edge_turn(p) != 0 <==> abs(p) > EDGE,
        p > EDGE ==> edge_turn(p) == -TURN_FACTOR,
        p < -EDGE ==> edge_turn(p) == TURN_FACTOR,
{
}

} // verus!
