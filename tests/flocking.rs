use boids::boid::Boid;
use boids::flock::{edge_avoidance, flock_within_limits, step_boids, update_boids};
use boids::grid::generate_boids_grid;
use boids::params::{EDGE, POS_LIMIT, SPEED_MAX, SPEED_MIN, TURN_FACTOR, VEL_LIMIT};
use boids::speed::clamp_speed;

fn speed_sq(b: &Boid) -> i128 {
    (b.vx as i128) * (b.vx as i128) + (b.vy as i128) * (b.vy as i128)
}

#[test]
fn grid_of_four_is_centred() {
    let g = generate_boids_grid(4);
    assert_eq!(
        g,
        vec![
            Boid::new(-10_000, -10_000, 0, 0),
            Boid::new(-10_000, 0, 0, 0),
            Boid::new(0, -10_000, 0, 0),
            Boid::new(0, 0, 0, 0),
        ]
    );
}

#[test]
fn grid_is_truncated_to_the_count() {
    let g = generate_boids_grid(5);
    assert_eq!(
        g,
        vec![
            Boid::new(-15_000, -15_000, 0, 0),
            Boid::new(-15_000, -5_000, 0, 0),
            Boid::new(-15_000, 5_000, 0, 0),
            Boid::new(-5_000, -15_000, 0, 0),
            Boid::new(-5_000, -5_000, 0, 0),
        ]
    );
}

#[test]
fn grid_of_none_is_empty() {
    assert!(generate_boids_grid(0).is_empty());
}

#[test]
fn grid_of_one_sits_half_a_cell_off_centre() {
    assert_eq!(generate_boids_grid(1), vec![Boid::new(-5_000, -5_000, 0, 0)]);
}

#[test]
fn grid_generation_is_deterministic() {
    let a = generate_boids_grid(1000);
    let b = generate_boids_grid(1000);
    assert_eq!(a.len(), 1000);
    assert_eq!(a, b);
    // 32 points a side, spaced 10 units, centred on the origin
    assert_eq!(a[0], Boid::new(-160_000, -160_000, 0, 0));
    assert_eq!(a[999], Boid::new(150_000, -90_000, 0, 0));
}

#[test]
fn zero_velocity_stays_zero() {
    assert_eq!(clamp_speed(0, 0), (0, 0));
}

#[test]
fn slow_velocity_is_raised_to_the_minimum() {
    assert_eq!(clamp_speed(3, 4), (108_000, 144_000));
    assert_eq!(clamp_speed(-3, 4), (-108_000, 144_000));
}

#[test]
fn fast_velocity_is_lowered_to_the_maximum() {
    assert_eq!(clamp_speed(600_000, -800_000), (216_000, -288_000));
}

#[test]
fn velocity_in_range_is_kept() {
    assert_eq!(clamp_speed(200_000, 0), (200_000, 0));
    assert_eq!(clamp_speed(0, -SPEED_MAX as i128), (0, -SPEED_MAX));
    assert_eq!(clamp_speed(SPEED_MIN as i128, 0), (SPEED_MIN, 0));
}

#[test]
fn edge_avoidance_only_past_the_edge() {
    assert_eq!(edge_avoidance(0), 0);
    assert_eq!(edge_avoidance(EDGE), 0);
    assert_eq!(edge_avoidance(-EDGE), 0);
    assert_eq!(edge_avoidance(EDGE + 1), -TURN_FACTOR);
    assert_eq!(edge_avoidance(-EDGE - 1), TURN_FACTOR);
    assert_eq!(edge_avoidance(1_000_000), -12_000);
}

#[test]
fn lone_boid_keeps_its_velocity() {
    let mut f = vec![Boid::new(0, 0, 200_000, 0)];
    update_boids(&mut f, 1000);
    assert_eq!(f, vec![Boid::new(200_000, 0, 200_000, 0)]);
}

#[test]
fn lone_boid_past_the_edge_turns_back() {
    let mut f = vec![Boid::new(300_000, -300_000, 200_000, 0)];
    update_boids(&mut f, 500);
    assert_eq!(f, vec![Boid::new(394_000, -294_000, 188_000, 12_000)]);
}

#[test]
fn lone_fast_boid_is_slowed() {
    let mut f = vec![Boid::new(0, 0, 1_000_000, 0)];
    update_boids(&mut f, 0);
    assert_eq!(f, vec![Boid::new(0, 0, 360_000, 0)]);
}

#[test]
fn far_apart_boids_do_not_flock() {
    let f = vec![Boid::new(0, 0, 200_000, 0), Boid::new(100_000, 0, 0, 200_000)];
    let g = step_boids(&f, 0);
    assert_eq!(g, f);
}

#[test]
fn crowding_boids_push_apart() {
    let f = vec![Boid::new(0, 0, 0, 0), Boid::new(4_000, 0, 0, 0)];
    let g = step_boids(&f, 0);
    assert_eq!(g, vec![Boid::new(0, 0, -180_000, 0), Boid::new(4_000, 0, 180_000, 0)]);
}

#[test]
fn neighbours_align_and_cohere() {
    // 20 units apart: in visual range, outside the protected range
    let f = vec![Boid::new(0, 0, 200_000, 0), Boid::new(20_000, 0, 200_000, 100_000)];
    let g = step_boids(&f, 0);
    // first: +5000 alignment on y, +600 cohesion on x
    assert_eq!(g[0], Boid::new(0, 0, 200_600, 5_000));
    // second: -5000 alignment on y, -600 cohesion on x
    assert_eq!(g[1], Boid::new(20_000, 0, 199_400, 95_000));
}

#[test]
fn speeds_stay_in_range_over_many_updates() {
    let mut f = generate_boids_grid(100);
    for (k, b) in f.iter_mut().enumerate() {
        b.vx = (k as i64 % 7 - 3) * 50_000;
        b.vy = (k as i64 % 5 - 2) * 70_000;
    }
    for _ in 0..20 {
        update_boids(&mut f, 16);
        assert_eq!(f.len(), 100);
        for b in &f {
            let s = speed_sq(b);
            let lo = (SPEED_MIN as i128) * (SPEED_MIN as i128);
            let hi = (SPEED_MAX as i128) * (SPEED_MAX as i128);
            assert!(s == 0 || (lo <= s && s <= hi), "speed out of range: {:?}", b);
        }
    }
}

#[test]
fn limits_are_checked() {
    assert!(flock_within_limits(&generate_boids_grid(1000)));
    assert!(flock_within_limits(&vec![]));
    assert!(!flock_within_limits(&vec![Boid::new(POS_LIMIT + 1, 0, 0, 0)]));
    assert!(!flock_within_limits(&vec![Boid::new(0, 0, 0, -VEL_LIMIT - 1)]));
    assert!(flock_within_limits(&vec![Boid::new(-POS_LIMIT, POS_LIMIT, VEL_LIMIT, -VEL_LIMIT)]));
}
