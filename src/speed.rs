use vstd::prelude::*;

use vstd::arithmetic::div_mod::{lemma_fundamental_div_mod, lemma_mod_pos_bound};

use crate::arith::{
    abs, ceil_sqrt, floor_sqrt, is_floor_sqrt, isqrt, lemma_floor_sqrt_exists, lemma_square_monotonic, sign,
};
use crate::params::{SPEED_MAX, SPEED_MIN};

verus! {

/// A velocity component scaled down by `SPEED_MAX / s`, rounding toward zero.
pub open spec fn shrink(c: int, s: int) -> int {
    sign(c) * ((abs(c) * SPEED_MAX) / s)
}

/// A velocity component scaled up by `SPEED_MIN / s`, rounding away from zero.
pub open spec fn grow(c: int, s: int) -> int {
    sign(c) * ((abs(c) * SPEED_MIN + s - 1) / s)
}

/// The velocity rescaled so that its speed lies in `[SPEED_MIN, SPEED_MAX]`.
/// A zero velocity has no direction and stays zero.
pub open spec fn clamp_velocity(vx: int, vy: int) -> (int, int) {
    let n = vx * vx + vy * vy;
    if n == 0 {
        (0, 0)
    } else if n > SPEED_MAX * SPEED_MAX {
        let s = ceil_sqrt(n);
        (shrink(vx, s), shrink(vy, s))
    } else if n < SPEED_MIN * SPEED_MIN {
        let s = floor_sqrt(n);
        (grow(vx, s), grow(vy, s))
    } else {
        (vx, vy)
    }
}

pub open spec fn speed_in_range(vx: int, vy: int) -> bool {
    SPEED_MIN * SPEED_MIN <= vx * vx + vy * vy <= SPEED_MAX * SPEED_MAX
}

proof fn lemma_square_strict(a: int, b: int)
    requires
        0 <= a < b,
    ensures
        a * a < b * b,
{
    assert(a * a < b * b) by (nonlinear_arith)
        requires
            0 <= a < b,
    ;
}

/// `0 <= a` and `a * a <= b * b` with `0 <= b` give `a <= b`.
proof fn lemma_root_monotonic(a: int, b: int)
    requires
        0 <= a,
        0 <= b,
        a * a <= b * b,
    ensures
        a <= b,
{
    if a > b {
        lemma_square_strict(b, a);
    }
}

proof fn lemma_mul_mono(k: int, x: int, y: int)
    requires
        k >= 0,
        x <= y,
    ensures
        k * x <= k * y,
{
    assert(k * x <= k * y) by (nonlinear_arith)
        requires
            k >= 0,
            x <= y,
    ;
}

proof fn lemma_mul_cancel_le(k: int, x: int, y: int)
    requires
        k > 0,
        k * x <= k * y,
    ensures
        x <= y,
{
    assert(x <= y) by (nonlinear_arith)
        requires
            k > 0,
            k * x <= k * y,
    ;
}

proof fn lemma_mul_cancel_lt(k: int, x: int, y: int)
    requires
        k > 0,
        k * x < k * y,
    ensures
        x < y,
{
    assert(x < y) by (nonlinear_arith)
        requires
            k > 0,
            k * x < k * y,
    ;
}

proof fn lemma_square_of_product(p: int, q: int)
    ensures
        (p * q) * (p * q) == (p * p) * (q * q),
{
    assert((p * q) * (p * q) == (p * p) * (q * q)) by (nonlinear_arith);
}

proof fn lemma_distribute(k: int, x: int, y: int)
    ensures
        k * (x + y) == k * x + k * y,
        (x + y) * k == x * k + y * k,
        k * x == x * k,
{
    assert(k * (x + y) == k * x + k * y) by (nonlinear_arith);
    assert((x + y) * k == x * k + y * k) by (nonlinear_arith);
    assert(k * x == x * k) by (nonlinear_arith);
}

proof fn lemma_div_bounds(x: int, d: int)
    requires
        x >= 0,
        d >= 1,
    ensures
        0 <= x / d,
        d * (x / d) <= x < d * (x / d) + d,
{
    lemma_fundamental_div_mod(x, d);
    lemma_mod_pos_bound(x, d);
    if x / d < 0 {
        lemma_mul_mono(d, x / d, -1);
        assert(d * -1 == -d);
    }
}

proof fn lemma_nonneg_product(a: int, b: int)
    requires
        a >= 0,
        b >= 0,
    ensures
        a * b >= 0,
{
    assert(a * b >= 0) by (nonlinear_arith)
        requires
            a >= 0,
            b >= 0,
    ;
}

/// From `s*qa <= u`, `s*qb <= v` (all nonnegative) and `u^2 + v^2 <= (s*t)^2`:
/// `qa^2 + qb^2 <= t^2`.
proof fn lemma_scaled_norm_le(s: int, qa: int, qb: int, u: int, v: int, t: int)
    requires
        s >= 1,
        0 <= s * qa <= u,
        0 <= s * qb <= v,
        u * u + v * v <= (s * s) * (t * t),
    ensures
        qa * qa + qb * qb <= t * t,
{
    lemma_square_monotonic(s * qa, u);
    lemma_square_monotonic(s * qb, v);
    lemma_square_of_product(s, qa);
    lemma_square_of_product(s, qb);
    lemma_distribute(s * s, qa * qa, qb * qb);
    lemma_nonneg_product(s, s);
    lemma_mul_cancel_le(s * s, qa * qa + qb * qb, t * t);
}

/// From `u <= s*qa`, `v <= s*qb` (all nonnegative) and `(s*t)^2 <= u^2 + v^2`:
/// `t^2 <= qa^2 + qb^2`.
proof fn lemma_scaled_norm_ge(s: int, qa: int, qb: int, u: int, v: int, t: int)
    requires
        s >= 1,
        0 <= u <= s * qa,
        0 <= v <= s * qb,
        (s * s) * (t * t) <= u * u + v * v,
    ensures
        t * t <= qa * qa + qb * qb,
{
    lemma_square_monotonic(u, s * qa);
    lemma_square_monotonic(v, s * qb);
    lemma_square_of_product(s, qa);
    lemma_square_of_product(s, qb);
    lemma_distribute(s * s, qa * qa, qb * qb);
    lemma_nonneg_product(s, s);
    lemma_mul_cancel_le(s * s, t * t, qa * qa + qb * qb);
}

/// Scaling down a velocity whose squared speed `n` exceeds `(2m)^2` by
/// `2m / s`, with `s` the ceiling of the square root of `n`, lands in `[m, 2m]`.
proof fn lemma_shrink_in_range(a: int, b: int, s: int, m: int)
    requires
        0 <= b <= a,
        m >= 1,
        a * a + b * b > (2 * m) * (2 * m),
        a * a + b * b <= s * s,
        (s - 1) * (s - 1) < a * a + b * b,
        s >= 1,
    ensures
        ({
            let qa = (a * (2 * m)) / s;
            let qb = (b * (2 * m)) / s;
            &&& m * m <= qa * qa + qb * qb <= (2 * m) * (2 * m)
            &&& 0 <= qa <= 2 * m
            &&& 0 <= qb <= 2 * m
        }),
{
    let big = 2 * m;
    let n = a * a + b * b;
    lemma_nonneg_product(a, big);
    lemma_nonneg_product(b, big);
    let qa = (a * big) / s;
    let qb = (b * big) / s;
    lemma_div_bounds(a * big, s);
    lemma_div_bounds(b * big, s);
    lemma_nonneg_product(s, qa);
    lemma_nonneg_product(s, qb);
    // upper bound
    lemma_square_of_product(a, big);
    lemma_square_of_product(b, big);
    lemma_distribute(big * big, a * a, b * b);
    lemma_nonneg_product(big, big);
    lemma_mul_mono(big * big, n, s * s);
    lemma_distribute(s * s, big * big, 0);
    lemma_scaled_norm_le(s, qa, qb, a * big, b * big, big);
    lemma_nonneg_product(qa, qa);
    lemma_nonneg_product(qb, qb);
    lemma_root_monotonic(qa, big);
    lemma_root_monotonic(qb, big);
    // lower bound: the larger component alone reaches m
    assert(s * s <= 2 * n) by (nonlinear_arith)
        requires
            (s - 1) * (s - 1) < n,
            s >= 1,
    ;
    let t = qa + 1;
    lemma_distribute(s, qa, 1);
    lemma_square_strict(a * big, s * t);
    lemma_square_of_product(s, t);
    assert(b * b <= a * a) by (nonlinear_arith)
        requires
            0 <= b <= a,
    ;
    lemma_mul_mono(big * big, n, 2 * (a * a));
    assert((big * big) * (2 * (a * a)) == 2 * ((a * a) * (big * big))) by (nonlinear_arith);
    lemma_nonneg_product(t, t);
    lemma_mul_mono(t * t, s * s, 2 * n);
    assert((t * t) * (2 * n) == 2 * (n * (t * t))) by (nonlinear_arith);
    assert((s * s) * (t * t) == (t * t) * (s * s)) by (nonlinear_arith);
    // (big*big) * n < 4 * n * (t*t)
    assert(n * (big * big) < n * (4 * (t * t))) by (nonlinear_arith)
        requires
            (big * big) * n <= 2 * ((a * a) * (big * big)),
            (a * big) * (a * big) == (a * a) * (big * big),
            (a * big) * (a * big) < (s * t) * (s * t),
            (s * t) * (s * t) == (s * s) * (t * t),
            (s * s) * (t * t) == (t * t) * (s * s),
            (t * t) * (s * s) <= (t * t) * (2 * n),
            (t * t) * (2 * n) == 2 * (n * (t * t)),
    ;
    lemma_mul_cancel_lt(n, big * big, 4 * (t * t));
    assert(big * big == 4 * (m * m)) by (nonlinear_arith)
        requires
            big == 2 * m,
    ;
    lemma_root_monotonic(m, t);
    if t == m {
        assert(false);
    }
    lemma_square_monotonic(m, qa);
    lemma_nonneg_product(qb, qb);
}

/// Scaling up a nonzero velocity whose squared speed `n` is under `m^2` by
/// `m / s`, rounding away from zero, with `s` the floor of the square root
/// of `n`, lands in `[m, 2m]`.
proof fn lemma_grow_in_range(a: int, b: int, s: int, m: int)
    requires
        0 <= a,
        0 <= b,
        m >= 1,
        0 < a * a + b * b,
        is_floor_sqrt(a * a + b * b, s),
    ensures
        ({
            let qa = (a * m + s - 1) / s;
            let qb = (b * m + s - 1) / s;
            &&& m * m <= qa * qa + qb * qb <= (2 * m) * (2 * m)
            &&& 0 <= qa <= m
            &&& 0 <= qb <= m
        }),
{
    let n = a * a + b * b;
    if s == 0 {
        assert(n < (0 + 1) * (0 + 1));
        assert((0 + 1) * (0 + 1) == 1) by (nonlinear_arith);
        assert(false);
    }
    lemma_nonneg_product(a, m);
    lemma_nonneg_product(b, m);
    let qa = (a * m + s - 1) / s;
    let qb = (b * m + s - 1) / s;
    lemma_div_bounds(a * m + s - 1, s);
    lemma_div_bounds(b * m + s - 1, s);
    // each component is at most m
    lemma_nonneg_product(a, a);
    lemma_nonneg_product(b, b);
    lemma_root_monotonic(a, s + 1);
    lemma_root_monotonic(b, s + 1);
    if a == s + 1 {
        assert(false);
    }
    if b == s + 1 {
        assert(false);
    }
    lemma_mul_mono(m, a, s);
    lemma_mul_mono(m, b, s);
    lemma_distribute(s, m, 1);
    lemma_distribute(m, a, 0);
    lemma_distribute(m, b, 0);
    if qa > m {
        lemma_mul_mono(s, m + 1, qa);
    }
    if qb > m {
        lemma_mul_mono(s, m + 1, qb);
    }
    lemma_square_monotonic(qa, m);
    lemma_square_monotonic(qb, m);
    assert((2 * m) * (2 * m) == 4 * (m * m)) by (nonlinear_arith);
    lemma_nonneg_product(m, m);
    // lower bound
    lemma_square_of_product(a, m);
    lemma_square_of_product(b, m);
    lemma_distribute(m * m, a * a, b * b);
    lemma_mul_mono(m * m, s * s, n);
    assert((s * s) * (m * m) == (m * m) * (s * s)) by (nonlinear_arith);
    lemma_scaled_norm_ge(s, qa, qb, a * m, b * m, m);
}

/// Whatever nonzero velocity goes in, the clamped one has a speed in range.
pub proof fn lemma_clamp_in_range(vx: int, vy: int)
    requires
        vx * vx + vy * vy > 0,
    ensures
        speed_in_range(clamp_velocity(vx, vy).0, clamp_velocity(vx, vy).1),
        abs(clamp_velocity(vx, vy).0) <= SPEED_MAX,
        abs(clamp_velocity(vx, vy).1) <= SPEED_MAX,
{
    let n = vx * vx + vy * vy;
    let a = abs(vx);
    let b = abs(vy);
    assert(a * a == vx * vx) by (nonlinear_arith)
        requires
            a == vx || a == -vx,
    ;
    assert(b * b == vy * vy) by (nonlinear_arith)
        requires
            b == vy || b == -vy,
    ;
    let f = floor_sqrt(n);
    lemma_floor_sqrt_exists(n);
    let (rx, ry) = clamp_velocity(vx, vy);
    if n > SPEED_MAX * SPEED_MAX {
        let s = ceil_sqrt(n);
        assert(n <= s * s && (s - 1) * (s - 1) < n && s >= 1) by (nonlinear_arith)
            requires
                f >= 0,
                f * f <= n,
                n < (f + 1) * (f + 1),
                s == if f * f == n { f } else { f + 1 },
                n > 0,
        ;
        if b <= a {
            lemma_shrink_in_range(a, b, s, SPEED_MIN as int);
        } else {
            lemma_shrink_in_range(b, a, s, SPEED_MIN as int);
        }
        let qa = (a * SPEED_MAX) / s;
        let qb = (b * SPEED_MAX) / s;
        assert(rx * rx == qa * qa && ry * ry == qb * qb) by (nonlinear_arith)
            requires
                rx == sign(vx) * qa,
                ry == sign(vy) * qb,
                sign(vx) == 1 || sign(vx) == -1,
                sign(vy) == 1 || sign(vy) == -1,
        ;
    } else if n < SPEED_MIN * SPEED_MIN {
        lemma_grow_in_range(a, b, f, SPEED_MIN as int);
        let qa = (a * SPEED_MIN + f - 1) / f;
        let qb = (b * SPEED_MIN + f - 1) / f;
        assert(rx * rx == qa * qa && ry * ry == qb * qb) by (nonlinear_arith)
            requires
                rx == sign(vx) * qa,
                ry == sign(vy) * qb,
                sign(vx) == 1 || sign(vx) == -1,
                sign(vy) == 1 || sign(vy) == -1,
        ;
    }
    lemma_components_bounded(vx, vy);
}

/// Each component of a clamped velocity is at most `SPEED_MAX` in magnitude.
proof fn lemma_components_bounded(vx: int, vy: int)
    requires
        vx * vx + vy * vy > 0,
        speed_in_range(clamp_velocity(vx, vy).0, clamp_velocity(vx, vy).1),
    ensures
        abs(clamp_velocity(vx, vy).0) <= SPEED_MAX,
        abs(clamp_velocity(vx, vy).1) <= SPEED_MAX,
{
    let (rx, ry) = clamp_velocity(vx, vy);
    assert(abs(rx) * abs(rx) == rx * rx && rx * rx >= 0) by (nonlinear_arith)
        requires
            abs(rx) == rx || abs(rx) == -rx,
    ;
    assert(abs(ry) * abs(ry) == ry * ry && ry * ry >= 0) by (nonlinear_arith)
        requires
            abs(ry) == ry || abs(ry) == -ry,
    ;
    lemma_root_monotonic(abs(rx), SPEED_MAX as int);
    lemma_root_monotonic(abs(ry), SPEED_MAX as int);
}

/// Largest velocity component magnitude that `clamp_speed` accepts.
pub const PRE_LIMIT: i128 = 0x2000_0000_0000_0000;

fn with_sign(c: i128, q: u128) -> (r: i64)
    requires
        q <= SPEED_MAX,
    ensures
        r == sign(c as int) * q,
{
    if c < 0 {
        -(q as i64)
    } else {
        q as i64
    }
}

/// Rescales a velocity so that its speed lies in `[SPEED_MIN, SPEED_MAX]`;
/// a zero velocity stays zero.
pub fn clamp_speed(vx: i128, vy: i128) -> (r: (i64, i64))
    requires
        abs(vx as int) <= PRE_LIMIT,
        abs(vy as int) <= PRE_LIMIT,
    ensures
        r.0 == clamp_velocity(vx as int, vy as int).0,
        r.1 == clamp_velocity(vx as int, vy as int).1,
        vx * vx + vy * vy > 0 ==> speed_in_range(r.0 as int, r.1 as int),
        abs(r.0 as int) <= SPEED_MAX,
        abs(r.1 as int) <= SPEED_MAX,
{
    let ax: u128 = if vx < 0 {
        (-vx) as u128
    } else {
        vx as u128
    };
    let ay: u128 = if vy < 0 {
        (-vy) as u128
    } else {
        vy as u128
    };
    proof {
        lemma_square_monotonic(ax as int, PRE_LIMIT as int);
        lemma_square_monotonic(ay as int, PRE_LIMIT as int);
        assert(ax * ax == vx * vx) by (nonlinear_arith)
            requires
                ax == vx || ax == -vx,
        ;
        assert(ay * ay == vy * vy) by (nonlinear_arith)
            requires
                ay == vy || ay == -vy,
        ;
    }
    let n: u128 = ax * ax + ay * ay;
    if n == 0 {
        return (0, 0);
    }
    proof {
        lemma_clamp_in_range(vx as int, vy as int);
    }
    let top: u128 = SPEED_MAX as u128;
    let bottom: u128 = SPEED_MIN as u128;
    if n > top * top {
        let f = isqrt(n);
        let s: u128 = if f * f == n {
            f
        } else {
            f + 1
        };
        proof {
            assert(s >= 1) by (nonlinear_arith)
                requires
                    s == f || s == f + 1,
                    s == f ==> f * f == n,
                    f * f <= n,
                    n > 0,
            ;
            lemma_mul_mono(ax as int, 0, top as int);
            lemma_mul_mono(ax as int, top as int, 0x1000_0000int);
            lemma_mul_mono(ay as int, top as int, 0x1000_0000int);
            lemma_div_bounds(ax * top, s as int);
            lemma_div_bounds(ay * top, s as int);
        }
        let qa: u128 = ax * top / s;
        let qb: u128 = ay * top / s;
        proof {
            assert(s == ceil_sqrt(n as int));
            assert(abs(sign(vx as int) * qa) == qa && abs(sign(vy as int) * qb) == qb)
                by (nonlinear_arith)
                requires
                    sign(vx as int) == 1 || sign(vx as int) == -1,
                    sign(vy as int) == 1 || sign(vy as int) == -1,
                    qa >= 0,
                    qb >= 0,
            ;
        }
        (with_sign(vx, qa), with_sign(vy, qb))
    } else if n < bottom * bottom {
        let s = isqrt(n);
        proof {
            if s == 0 {
                assert((0 + 1) * (0 + 1) == 1) by (nonlinear_arith);
            }
            lemma_mul_mono(ax as int, bottom as int, 0x1000_0000int);
            lemma_mul_mono(ay as int, bottom as int, 0x1000_0000int);
            assert(s <= n) by (nonlinear_arith)
                requires
                    s * s <= n,
                    s >= 1,
            ;
            lemma_nonneg_product(ax as int, bottom as int);
            lemma_nonneg_product(ay as int, bottom as int);
            lemma_div_bounds(ax * bottom + s - 1, s as int);
            lemma_div_bounds(ay * bottom + s - 1, s as int);
        }
        let qa: u128 = (ax * bottom + s - 1) / s;
        let qb: u128 = (ay * bottom + s - 1) / s;
        proof {
            assert(abs(sign(vx as int) * qa) == qa && abs(sign(vy as int) * qb) == qb)
                by (nonlinear_arith)
                requires
                    sign(vx as int) == 1 || sign(vx as int) == -1,
                    sign(vy as int) == 1 || sign(vy as int) == -1,
                    qa >= 0,
                    qb >= 0,
            ;
        }
        (with_sign(vx, qa), with_sign(vy, qb))
    } else {
        (vx as i64, vy as i64)
    }
}

} // verus!
