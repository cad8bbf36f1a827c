use nbody::scalar::{DT_RAW, LIMIT, SCALE};
use nbody::simulation::{calculate_force, step, Body, Vector};

fn body(id: i32, px: i64, py: i64, vx: i64, vy: i64, mass: i64) -> Body {
    Body {
        id,
        position: Vector { x: px, y: py },
        velocity: Vector { x: vx, y: vy },
        mass,
    }
}

/// Raw units for a whole-unit value.
fn units(v: i64) -> i64 {
    v * SCALE
}

#[test]
fn step_preserves_shape_order_and_mass() {
    let state = vec![
        body(7, units(1), units(2), units(3), units(4), units(5)),
        body(-3, units(-1), 0, 0, 0, 1),
        body(0, 12345, -9876, 55, -55, units(2)),
    ];
    let next = step(&state);
    assert_eq!(next.len(), state.len());
    for i in 0..state.len() {
        assert_eq!(next[i].id, state[i].id);
        assert_eq!(next[i].mass, state[i].mass);
    }
}

#[test]
fn two_body_forces_equal_and_opposite() {
    let a = body(0, units(1), units(2), 0, 0, units(30));
    let b = body(1, units(-4), units(7), 0, 0, units(2));
    let f_ab = calculate_force(&a, &b);
    let f_ba = calculate_force(&b, &a);
    assert_eq!(f_ab.x, -f_ba.x);
    assert_eq!(f_ab.y, -f_ba.y);
    // and the pull is real, not zero
    assert!(f_ab.x != 0 || f_ab.y != 0);
}

#[test]
fn circular_orbit_stays_near_radius() {
    // central mass 1000 at the origin; satellite at r = 5 with the
    // circular-orbit speed sqrt(G * M / r) = sqrt(200)
    let sun = body(0, 0, 0, 0, 0, units(1000));
    let v_orbit: i64 = (200.0_f64.sqrt() * SCALE as f64) as i64;
    let sat = body(1, units(5), 0, 0, v_orbit, units(1));
    let mut state = vec![sun, sat];
    for _ in 0..10_000 {
        state = step(&state);
        let dx = (state[1].position.x - state[0].position.x) as f64 / SCALE as f64;
        let dy = (state[1].position.y - state[0].position.y) as f64 / SCALE as f64;
        let dist = (dx * dx + dy * dy).sqrt();
        assert!((dist - 5.0).abs() <= 0.25, "distance {} left the 5% band", dist);
    }
}

#[test]
fn zero_net_force_at_symmetric_center() {
    let center = body(0, 0, 0, 0, 0, units(10));
    let left = body(1, units(-3), units(-2), 0, 0, units(4));
    let right = body(2, units(3), units(2), 0, 0, units(4));
    let f1 = calculate_force(&center, &left);
    let f2 = calculate_force(&center, &right);
    assert_eq!(f1.x + f2.x, 0);
    assert_eq!(f1.y + f2.y, 0);
    // the center body therefore does not move in a step
    let next = step(&vec![center, left, right]);
    assert_eq!(next[0].velocity, Vector { x: 0, y: 0 });
    assert_eq!(next[0].position, Vector { x: 0, y: 0 });
}

#[test]
fn coincident_bodies_exert_no_force() {
    let a = body(0, units(2), units(-1), 0, 0, units(50));
    let b = body(1, units(2), units(-1), 0, 0, units(3));
    let f = calculate_force(&a, &b);
    assert_eq!(f.x, 0);
    assert_eq!(f.y, 0);
    // a step on a coincident pair returns finite values and does not panic
    let next = step(&vec![a, b]);
    assert_eq!(next[0].position, a.position);
    assert_eq!(next[1].position, b.position);
}

#[test]
fn epsilon_floor_bounds_the_force() {
    // masses of one raw unit, one raw unit apart: the distance floor
    // makes the force exactly G * m1 * m2 / EPS^2, which is one whole
    // unit in raw terms
    let a = body(0, 0, 0, 0, 0, 1);
    let b = body(1, 1, 0, 0, 0, 1);
    let f = calculate_force(&a, &b);
    assert_eq!(f.x, units(1));
    assert_eq!(f.y, 0);
    // for unit masses the same floored distance implies a force of 1e20
    // whole units, far past the representable range: it saturates at
    // LIMIT instead of overflowing or trapping
    let big_a = body(0, 0, 0, 0, 0, units(1));
    let big_b = body(1, 1, 0, 0, 0, units(1));
    let big_f = calculate_force(&big_a, &big_b);
    assert_eq!(big_f.x, LIMIT);
    assert_eq!(big_f.y, 0);
}

#[test]
fn zero_mass_body_is_a_defined_case() {
    // gravity scales with the body's own mass, so a massless body feels
    // no pull, and the 0 / 0 acceleration is defined as zero: the body
    // coasts in a straight line instead of trapping
    let massless = body(0, 0, 0, units(1), 0, 0);
    let heavy = body(1, units(3), 0, 0, 0, units(1000));
    let next = step(&vec![massless, heavy]);
    assert_eq!(next[0].velocity, Vector { x: units(1), y: 0 });
    assert_eq!(next[0].position, Vector { x: units(1) / 100, y: 0 });
    // the massless body still attracts nothing
    let f = calculate_force(&heavy, &massless);
    assert_eq!(f, Vector { x: 0, y: 0 });
}

#[test]
fn empty_state_steps_to_empty_state() {
    let state: Vec<Body> = vec![];
    let next = step(&state);
    assert!(next.is_empty());
}

#[test]
fn step_is_deterministic() {
    let state = vec![
        body(0, 0, 0, 0, 0, units(1000)),
        body(1, units(5), 0, 0, 141_421_356_237, units(1)),
        body(2, 0, units(8), -111_803_398_874, 0, 8_000_000_000),
    ];
    let once = step(&state);
    let again = step(&state);
    assert_eq!(once, again);
    // and the input itself is untouched
    assert_eq!(state[1].position, Vector { x: units(5), y: 0 });
}

#[test]
fn concrete_scenario_semi_implicit_euler() {
    // central body: id 0, mass 1000, at rest at the origin;
    // satellite: id 1, mass 1, at (5, 0), velocity (0, sqrt(200))
    let sun = body(0, 0, 0, 0, 0, units(1000));
    let sat = body(1, units(5), 0, 0, 141_421_356_237, units(1));
    let next = step(&vec![sun, sat]);

    // satellite: acceleration is -40 along x, so after dt = 0.01 the
    // velocity gains -0.4 and the position advances by the new velocity
    assert_eq!(next[1].velocity, Vector { x: -4_000_000_000, y: 141_421_356_237 });
    assert_eq!(next[1].position, Vector { x: 49_960_000_000, y: 1_414_213_562 });
    // central body: acceleration 0.04 along x
    assert_eq!(next[0].velocity, Vector { x: 4_000_000, y: 0 });
    assert_eq!(next[0].position, Vector { x: 40_000, y: 0 });

    // the position update used the *new* velocity (semi-implicit Euler),
    // not the old one: p' = p + v' * dt, componentwise
    for i in 0..2 {
        let old = if i == 0 { sun } else { sat };
        let scaled_x = (next[i].velocity.x as i128 * DT_RAW as i128 / SCALE as i128) as i64;
        let scaled_y = (next[i].velocity.y as i128 * DT_RAW as i128 / SCALE as i128) as i64;
        assert_eq!(next[i].position.x, old.position.x + scaled_x);
        assert_eq!(next[i].position.y, old.position.y + scaled_y);
    }
}
