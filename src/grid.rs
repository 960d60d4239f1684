use vstd::prelude::*;

use crate::arith::{ceil_sqrt, isqrt};
use crate::boid::Boid;
use crate::flock::flock_in_limits;
use crate::params::{GRID_SPACING, MAX_BOIDS};

verus! {

/// Number of points along each side of the starting grid for `n` boids:
/// the smallest `side` with `side * side >= n`.
pub open spec fn grid_side(n: int) -> int {
    ceil_sqrt(n)
}

/// Point `k` of a square grid with `side` points a side, centred on the
/// origin, resting; points run along the y axis first.
pub open spec fn grid_point(side: int, k: int) -> Boid {
    Boid {
        x: ((k / side) * GRID_SPACING - side * (GRID_SPACING / 2)) as i64,
        y: ((k % side) * GRID_SPACING - side * (GRID_SPACING / 2)) as i64,
        vx: 0,
        vy: 0,
    }
}

/// `s` is the starting grid of `n` boids: the first `n` points of the grid.
pub open spec fn is_grid(n: int, s: Seq<Boid>) -> bool {
    &&& s.len() == n
    &&& forall|k: int| 0 <= k < n ==> #[trigger] s[k] == grid_point(grid_side(n), k)
}

/// Lays out `num_boids` resting boids on a square grid centred on the origin.
pub fn generate_boids_grid(num_boids: usize) -> (r: Vec<Boid>)
    requires
        num_boids <= MAX_BOIDS,
    ensures
        is_grid(num_boids as int, r@),
        flock_in_limits(r@),
{
    let f = isqrt(num_boids as u128);
    let side: u128 = if f * f == num_boids as u128 {
        f
    } else {
        f + 1
    };
    assert(side == grid_side(num_boids as int));
    proof {
        assert(side <= 100_000) by (nonlinear_arith)
            requires
                side == f || side == f + 1,
                f * f <= num_boids,
                num_boids <= 100_000,
                f >= 0,
        ;
        if num_boids > 0 && side == 0 {
            assert(f == 0);
            assert(false);
        }
    }
    let half: i64 = GRID_SPACING / 2;
    let offset: i64 = side as i64 * half;
    let mut r: Vec<Boid> = Vec::with_capacity(num_boids);
    let mut k: usize = 0;
    while k < num_boids
        invariant
            k <= num_boids <= MAX_BOIDS,
            side == grid_side(num_boids as int),
            side <= 100_000,
            num_boids > 0 ==> side >= 1,
            half == GRID_SPACING / 2,
            offset == side * half,
            r@.len() == k,
            forall|q: int| 0 <= q < k ==> #[trigger] r@[q] == grid_point(side as int, q),
            flock_in_limits(r@),
        decreases num_boids - k,
    {
        let i: i64 = (k as u128 / side) as i64;
        let j: i64 = (k as u128 % side) as i64;
        proof {
            assert(k as u128 / side <= k) by (nonlinear_arith)
                requires
                    side >= 1,
            ;
        }
        assert(GRID_SPACING == 10_000 && 0 <= i <= 100_000 && 0 <= j <= 100_000);
        assert(0 <= offset <= 500_000_000) by (nonlinear_arith)
            requires
                offset == side * half,
                half == 5_000,
                0 <= side <= 100_000,
        ;
        let b = Boid { x: i * GRID_SPACING - offset, y: j * GRID_SPACING - offset, vx: 0, vy: 0 };
        assert(b.in_limits());
        r.push(b);
        k = k + 1;
    }
    r
}

/// Grid generation is deterministic: two results for the same `n` are the
/// same boids in the same order.
pub proof fn grid_is_deterministic(n: int, a: Seq<Boid>, b: Seq<Boid>)
    requires
        is_grid(n, a),
        is_grid(n, b),
    ensures
        a == b,
{
    assert(a =~= b);
}

} // verus!
