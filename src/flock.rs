use vstd::prelude::*;

use crate::arith::{abs, div_toward_zero, lemma_trunc_div_bound, trunc_div};
use crate::boid::Boid;
use crate::params::{
    AVOID_MUL, CENTERING_DEN, CENTERING_NUM, DT_MAX, EDGE, MATCHING_DIV, MAX_BOIDS, POS_LIMIT,
    PROTECTED_RANGE, SPEED_MAX, TURN_FACTOR, UNIT, VEL_LIMIT, VISUAL_RANGE,
};
use crate::speed::{clamp_speed, clamp_velocity, lemma_clamp_in_range, speed_in_range, PRE_LIMIT};

verus! {

/// Squared distance between two boids.
pub open spec fn dist_sq(a: Boid, b: Boid) -> int {
    (a.x - b.x) * (a.x - b.x) + (a.y - b.y) * (a.y - b.y)
}

/// `b` is close enough for `a` to flock with it.
pub open spec fn sees(a: Boid, b: Boid) -> bool {
    dist_sq(a, b) < VISUAL_RANGE * VISUAL_RANGE
}

/// `b` is close enough for `a` to be pushed away from it.
pub open spec fn crowds(a: Boid, b: Boid) -> bool {
    dist_sq(a, b) < PROTECTED_RANGE * PROTECTED_RANGE
}

/// The separation term that `b` contributes to `a`: the raw offset from `b`
/// to `a` when `b` crowds `a`, else nothing.
pub open spec fn separation(a: Boid, b: Boid) -> (int, int) {
    if crowds(a, b) {
        (a.x - b.x, a.y - b.y)
    } else {
        (0, 0)
    }
}

/// What the scan of the other boids gathers for one boid.
pub struct Tally {
    /// neighbours in visual range
    pub count: int,
    /// their summed velocities
    pub vx: int,
    pub vy: int,
    /// their summed offsets from the boid
    pub dx: int,
    pub dy: int,
    /// summed separation terms
    pub sx: int,
    pub sy: int,
}

pub open spec fn empty_tally() -> Tally {
    Tally { count: 0, vx: 0, vy: 0, dx: 0, dy: 0, sx: 0, sy: 0 }
}

pub open spec fn plus(t: Tally, u: Tally) -> Tally {
    Tally {
        count: t.count + u.count,
        vx: t.vx + u.vx,
        vy: t.vy + u.vy,
        dx: t.dx + u.dx,
        dy: t.dy + u.dy,
        sx: t.sx + u.sx,
        sy: t.sy + u.sy,
    }
}

/// What `b` adds to the tally of `a`.
pub open spec fn contribution(a: Boid, b: Boid) -> Tally {
    if sees(a, b) {
        Tally {
            count: 1,
            vx: b.vx as int,
            vy: b.vy as int,
            dx: b.x - a.x,
            dy: b.y - a.y,
            sx: separation(a, b).0,
            sy: separation(a, b).1,
        }
    } else {
        empty_tally()
    }
}

/// The tally of boid `i` over the boids before index `k`, itself left out.
pub open spec fn tally(s: Seq<Boid>, i: int, k: int) -> Tally
    decreases k,
{
    if k <= 0 {
        empty_tally()
    } else if k - 1 == i {
        tally(s, i, k - 1)
    } else {
        plus(tally(s, i, k - 1), contribution(s[i], s[k - 1]))
    }
}

/// The velocity change that keeps a boid inside the edge on one axis.
pub open spec fn edge_turn(p: int) -> int {
    if p < -EDGE {
        TURN_FACTOR as int
    } else if p > EDGE {
        -TURN_FACTOR
    } else {
        0
    }
}

/// Alignment and cohesion on one axis, given the boid's own velocity `v`,
/// the summed neighbour velocities `sv` and offsets `sd` over `count` neighbours.
pub open spec fn steer(v: int, sv: int, sd: int, count: int) -> int {
    if count > 0 {
        trunc_div(trunc_div(sv, count) - v, MATCHING_DIV as int) + trunc_div(
            trunc_div(sd, count) * CENTERING_NUM,
            CENTERING_DEN as int,
        )
    } else {
        0
    }
}

/// One axis of the velocity before clamping: own velocity `v` at coordinate
/// `p`, plus alignment and cohesion, separation and edge avoidance.
pub open spec fn raw_axis(v: int, p: int, sv: int, sd: int, sep: int, count: int) -> int {
    v + steer(v, sv, sd, count) + sep * AVOID_MUL + edge_turn(p)
}

/// Velocity of boid `i` after the flocking rules and edge avoidance, before
/// its speed is clamped.
pub open spec fn raw_velocity(s: Seq<Boid>, i: int) -> (int, int) {
    let b = s[i];
    let t = tally(s, i, s.len() as int);
    (
        raw_axis(b.vx as int, b.x as int, t.vx, t.dx, t.sx, t.count),
        raw_axis(b.vy as int, b.y as int, t.vy, t.dy, t.sy, t.count),
    )
}

/// Velocity of boid `i` after one update.
pub open spec fn new_velocity(s: Seq<Boid>, i: int) -> (int, int) {
    clamp_velocity(raw_velocity(s, i).0, raw_velocity(s, i).1)
}

/// Boid `i` after one update of `dt` milliseconds.
pub open spec fn stepped(s: Seq<Boid>, i: int, dt: int) -> Boid {
    let v = new_velocity(s, i);
    Boid {
        x: (s[i].x + trunc_div(v.0 * dt, UNIT as int)) as i64,
        y: (s[i].y + trunc_div(v.1 * dt, UNIT as int)) as i64,
        vx: v.0 as i64,
        vy: v.1 as i64,
    }
}

/// A flock that an update accepts.
pub open spec fn flock_in_limits(s: Seq<Boid>) -> bool {
    &&& s.len() <= MAX_BOIDS
    &&& forall|i: int| 0 <= i < s.len() ==> #[trigger] s[i].in_limits()
}

/// Whether an update accepts this flock.
pub fn flock_within_limits(boids: &Vec<Boid>) -> (r: bool)
    ensures
        r == flock_in_limits(boids@),
{
    if boids.len() > MAX_BOIDS {
        return false;
    }
    let mut i: usize = 0;
    while i < boids.len()
        invariant
            i <= boids@.len() <= MAX_BOIDS,
            forall|k: int| 0 <= k < i ==> #[trigger] boids@[k].in_limits(),
        decreases boids@.len() - i,
    {
        let b = boids[i];
        if b.x < -POS_LIMIT || b.x > POS_LIMIT || b.y < -POS_LIMIT || b.y > POS_LIMIT || b.vx
            < -VEL_LIMIT || b.vx > VEL_LIMIT || b.vy < -VEL_LIMIT || b.vy > VEL_LIMIT {
            assert(!boids@[i as int].in_limits());
            return false;
        }
        i = i + 1;
    }
    true
}

/// The edge-avoidance velocity change on one axis.
pub fn edge_avoidance(p: i64) -> (r: i64)
    ensures
        r == edge_turn(p as int),
        r != 0 <==> abs(p as int) > EDGE,
{
    if p < -EDGE {
        TURN_FACTOR
    } else if p > EDGE {
        -TURN_FACTOR
    } else {
        0
    }
}

/// The scan of the other boids, as executable sums.
pub struct Sums {
    pub count: i128,
    pub vx: i128,
    pub vy: i128,
    pub dx: i128,
    pub dy: i128,
    pub sx: i128,
    pub sy: i128,
}

impl Sums {
    pub open spec fn as_tally(self) -> Tally {
        Tally {
            count: self.count as int,
            vx: self.vx as int,
            vy: self.vy as int,
            dx: self.dx as int,
            dy: self.dy as int,
            sx: self.sx as int,
            sy: self.sy as int,
        }
    }

    pub open spec fn bounded(self, k: int) -> bool {
        &&& 0 <= self.count <= k
        &&& abs(self.vx as int) <= k * VEL_LIMIT
        &&& abs(self.vy as int) <= k * VEL_LIMIT
        &&& abs(self.dx as int) <= k * (2 * POS_LIMIT)
        &&& abs(self.dy as int) <= k * (2 * POS_LIMIT)
        &&& abs(self.sx as int) <= k * (2 * POS_LIMIT)
        &&& abs(self.sy as int) <= k * (2 * POS_LIMIT)
    }
}

/// Scans every other boid once and sums what boid `i` flocks with.
pub fn scan_neighbours(boids: &Vec<Boid>, i: usize) -> (r: Sums)
    requires
        flock_in_limits(boids@),
        i < boids@.len(),
    ensures
        r.as_tally() == tally(boids@, i as int, boids@.len() as int),
        r.bounded(boids@.len() as int),
{
    let me = boids[i];
    assert(me.in_limits());
    let mut acc = Sums { count: 0, vx: 0, vy: 0, dx: 0, dy: 0, sx: 0, sy: 0 };
    let vr: i128 = VISUAL_RANGE as i128;
    let pr: i128 = PROTECTED_RANGE as i128;
    let mut j: usize = 0;
    while j < boids.len()
        invariant
            flock_in_limits(boids@),
            i < boids@.len(),
            me == boids@[i as int],
            me.in_limits(),
            vr == VISUAL_RANGE,
            pr == PROTECTED_RANGE,
            j <= boids@.len(),
            tally(boids@, i as int, j as int) == acc.as_tally(),
            acc.bounded(j as int),
        decreases boids@.len() - j,
    {
        let other = boids[j];
        assert(other.in_limits());
        proof {
            assert(j * (2 * POS_LIMIT) <= 200_000_000_000_000_000) by (nonlinear_arith)
                requires
                    j <= 100_000,
            ;
            assert(j * VEL_LIMIT <= 1_000_000_000_000) by (nonlinear_arith)
                requires
                    j <= 100_000,
            ;
            assert((j + 1) * (2 * POS_LIMIT) == j * (2 * POS_LIMIT) + 2 * POS_LIMIT)
                by (nonlinear_arith);
            assert((j + 1) * VEL_LIMIT == j * VEL_LIMIT + VEL_LIMIT) by (nonlinear_arith);
        }
        if j != i {
            // offset from the other boid to this one
            let ex: i128 = me.x as i128 - other.x as i128;
            let ey: i128 = me.y as i128 - other.y as i128;
            proof {
                assert(0 <= ex * ex <= 4_000_000_000_000_000_000_000_000 && 0 <= ey * ey
                    <= 4_000_000_000_000_000_000_000_000) by (nonlinear_arith)
                    requires
                        -2_000_000_000_000 <= ex <= 2_000_000_000_000,
                        -2_000_000_000_000 <= ey <= 2_000_000_000_000,
                ;
            }
            let d2: i128 = ex * ex + ey * ey;
            assert(d2 == dist_sq(me, other));
            if d2 < vr * vr {
                acc.count = acc.count + 1;
                acc.vx = acc.vx + other.vx as i128;
                acc.vy = acc.vy + other.vy as i128;
                acc.dx = acc.dx - ex;
                acc.dy = acc.dy - ey;
                if d2 < pr * pr {
                    acc.sx = acc.sx + ex;
                    acc.sy = acc.sy + ey;
                }
            }
        }
        j = j + 1;
    }
    acc
}

/// Velocity of boid `i` after alignment, cohesion, separation and edge
/// avoidance, before its speed is clamped.
pub fn flock_velocity(boids: &Vec<Boid>, i: usize) -> (r: (i128, i128))
    requires
        flock_in_limits(boids@),
        i < boids@.len(),
    ensures
        r.0 == raw_velocity(boids@, i as int).0,
        r.1 == raw_velocity(boids@, i as int).1,
        abs(r.0 as int) <= PRE_LIMIT,
        abs(r.1 as int) <= PRE_LIMIT,
{
    let me = boids[i];
    assert(me.in_limits());
    let t = scan_neighbours(boids, i);
    proof {
        let n = boids@.len() as int;
        assert(n * (2 * POS_LIMIT) <= 200_000_000_000_000_000) by (nonlinear_arith)
            requires
                n <= 100_000,
        ;
        assert(n * VEL_LIMIT <= 1_000_000_000_000) by (nonlinear_arith)
            requires
                n <= 100_000,
        ;
    }
    let rx = axis_velocity(me.vx, me.x, t.vx, t.dx, t.sx, t.count);
    let ry = axis_velocity(me.vy, me.y, t.vy, t.dy, t.sy, t.count);
    (rx, ry)
}

/// Boid `i` after one update of `dt_ms` milliseconds.
pub fn step_boid(boids: &Vec<Boid>, i: usize, dt_ms: i64) -> (r: Boid)
    requires
        flock_in_limits(boids@),
        i < boids@.len(),
        0 <= dt_ms <= DT_MAX,
    ensures
        r == stepped(boids@, i as int, dt_ms as int),
        r.vx == new_velocity(boids@, i as int).0,
        r.vy == new_velocity(boids@, i as int).1,
        r.x == boids@[i as int].x + trunc_div(r.vx * dt_ms, UNIT as int),
        r.y == boids@[i as int].y + trunc_div(r.vy * dt_ms, UNIT as int),
        abs(r.vx as int) <= SPEED_MAX,
        abs(r.vy as int) <= SPEED_MAX,
{
    let me = boids[i];
    assert(me.in_limits());
    let (rx, ry) = flock_velocity(boids, i);
    let (vx, vy) = clamp_speed(rx, ry);
    proof {
        assert(-3_600_000_000 <= vx * dt_ms <= 3_600_000_000 && -3_600_000_000 <= vy * dt_ms
            <= 3_600_000_000) by (nonlinear_arith)
            requires
                -360_000 <= vx <= 360_000,
                -360_000 <= vy <= 360_000,
                0 <= dt_ms <= 10_000,
        ;
    }
    let mx = div_toward_zero(vx as i128 * dt_ms as i128, UNIT as i128);
    let my = div_toward_zero(vy as i128 * dt_ms as i128, UNIT as i128);
    proof {
        lemma_trunc_div_bound(vx * dt_ms, UNIT as int);
        lemma_trunc_div_bound(vy * dt_ms, UNIT as int);
    }
    Boid { x: (me.x as i128 + mx) as i64, y: (me.y as i128 + my) as i64, vx, vy }
}

/// The whole flock after one update of `dt_ms` milliseconds; every boid is
/// moved from the same snapshot of the others.
pub fn step_boids(boids: &Vec<Boid>, dt_ms: i64) -> (r: Vec<Boid>)
    requires
        flock_in_limits(boids@),
        0 <= dt_ms <= DT_MAX,
    ensures
        r@.len() == boids@.len(),
        forall|i: int| 0 <= i < r@.len() ==> #[trigger] r@[i] == stepped(boids@, i, dt_ms as int),
        forall|i: int|
            0 <= i < r@.len() && raw_velocity(boids@, i).0 * raw_velocity(boids@, i).0
                + raw_velocity(boids@, i).1 * raw_velocity(boids@, i).1 > 0 ==> speed_in_range(
                #[trigger] r@[i].vx as int,
                r@[i].vy as int,
            ),
{
    let mut r: Vec<Boid> = Vec::with_capacity(boids.len());
    let mut i: usize = 0;
    while i < boids.len()
        invariant
            flock_in_limits(boids@),
            0 <= dt_ms <= DT_MAX,
            i <= boids@.len(),
            r@.len() == i,
            forall|k: int| 0 <= k < i ==> #[trigger] r@[k] == stepped(boids@, k, dt_ms as int),
            forall|k: int|
                0 <= k < i && raw_velocity(boids@, k).0 * raw_velocity(boids@, k).0
                    + raw_velocity(boids@, k).1 * raw_velocity(boids@, k).1 > 0 ==> speed_in_range(
                    #[trigger] r@[k].vx as int,
                    r@[k].vy as int,
                ),
        decreases boids@.len() - i,
    {
        let b = step_boid(boids, i, dt_ms);
        proof {
            let (px, py) = raw_velocity(boids@, i as int);
            if px * px + py * py > 0 {
                lemma_clamp_in_range(px, py);
            }
        }
        r.push(b);
        i = i + 1;
    }
    r
}

/// Advances the flock by one update of `dt_ms` milliseconds.
pub fn update_boids(boids: &mut Vec<Boid>, dt_ms: i64)
    requires
        flock_in_limits(old(boids)@),
        0 <= dt_ms <= DT_MAX,
    ensures
        final(boids)@.len() == old(boids)@.len(),
        forall|i: int|
            0 <= i < final(boids)@.len() ==> #[trigger] final(boids)@[i] == stepped(
                old(boids)@,
                i,
                dt_ms as int,
            ),
        forall|i: int|
            0 <= i < final(boids)@.len() && raw_velocity(old(boids)@, i).0 * raw_velocity(
                old(boids)@,
                i,
            ).0 + raw_velocity(old(boids)@, i).1 * raw_velocity(old(boids)@, i).1 > 0
                ==> speed_in_range(
                #[trigger] final(boids)@[i].vx as int,
                final(boids)@[i].vy as int,
            ),
{
    let next = step_boids(boids, dt_ms);
    *boids = next;
}

/// One axis of the velocity before clamping.
fn axis_velocity(v: i64, p: i64, sv: i128, sd: i128, sep: i128, count: i128) -> (r: i128)
    requires
        abs(v as int) <= VEL_LIMIT,
        0 <= count <= MAX_BOIDS,
        abs(sv as int) <= 1_000_000_000_000,
        abs(sd as int) <= 200_000_000_000_000_000,
        abs(sep as int) <= 200_000_000_000_000_000,
    ensures
        r == raw_axis(v as int, p as int, sv as int, sd as int, sep as int, count as int),
        abs(r as int) <= PRE_LIMIT,
{
    let (align, cohere) = steer_axis(v as i128, sv, sd, count);
    let avoid: i128 = AVOID_MUL as i128;
    assert(avoid == 3);
    let push: i128 = sep * avoid;
    v as i128 + align + cohere + push + edge_avoidance(p) as i128
}

/// Alignment and cohesion terms on one axis.
fn steer_axis(v: i128, sv: i128, sd: i128, count: i128) -> (r: (i128, i128))
    requires
        abs(v as int) <= VEL_LIMIT,
        0 <= count <= MAX_BOIDS,
        abs(sv as int) <= 1_000_000_000_000,
        abs(sd as int) <= 200_000_000_000_000_000,
    ensures
        r.0 + r.1 == steer(v as int, sv as int, sd as int, count as int),
        abs(r.0 as int) <= 1_000_010_000_000,
        abs(r.1 as int) <= 600_000_000_000_000_000,
{
    if count == 0 {
        return (0, 0);
    }
    let mean_v = div_toward_zero(sv, count);
    let mean_d = div_toward_zero(sd, count);
    proof {
        lemma_trunc_div_bound(sv as int, count as int);
        lemma_trunc_div_bound(sd as int, count as int);
    }
    let align = div_toward_zero(mean_v - v, MATCHING_DIV as i128);
    let cohere = div_toward_zero(mean_d * (CENTERING_NUM as i128), CENTERING_DEN as i128);
    proof {
        lemma_trunc_div_bound(mean_v - v, MATCHING_DIV as int);
        lemma_trunc_div_bound(mean_d * CENTERING_NUM, CENTERING_DEN as int);
        assert(abs(mean_d as int) <= 200_000_000_000_000_000);
        assert(abs(mean_d * CENTERING_NUM) <= 600_000_000_000_000_000);
    }
    (align, cohere)
}

} // verus!
