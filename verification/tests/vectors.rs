use nbody::scalar::{LIMIT, SCALE};
use nbody::simulation::{
    calculate_distance, calculate_length, vector_add, vector_div, vector_mult, Vector,
};

#[test]
fn vector_add_is_componentwise_and_saturates() {
    let a = Vector { x: 3, y: -4 };
    let b = Vector { x: 10, y: 14 };
    let sum = vector_add(&a, &b);
    assert_eq!(sum, Vector { x: 13, y: 10 });

    let hot = Vector { x: i64::MAX, y: -i64::MAX };
    let push = Vector { x: 1, y: -5 };
    let clamped = vector_add(&hot, &push);
    assert_eq!(clamped, Vector { x: LIMIT, y: -LIMIT });
}

#[test]
fn vector_mult_scales_by_a_fixed_point_factor() {
    let v = Vector { x: 3 * SCALE, y: -2 * SCALE };
    // times 2.0
    let doubled = vector_mult(&v, 2 * SCALE);
    assert_eq!(doubled, Vector { x: 6 * SCALE, y: -4 * SCALE });
    // times 0.5
    let halved = vector_mult(&v, SCALE / 2);
    assert_eq!(halved, Vector { x: 3 * SCALE / 2, y: -SCALE });
    // times 0 and truncation toward zero
    assert_eq!(vector_mult(&v, 0), Vector { x: 0, y: 0 });
    let tiny = Vector { x: 1, y: -1 };
    assert_eq!(vector_mult(&tiny, SCALE / 10), Vector { x: 0, y: 0 });
}

#[test]
fn vector_div_handles_every_divisor() {
    let v = Vector { x: 10 * SCALE, y: -10 * SCALE };
    // by 4.0
    let quarters = vector_div(&v, 4 * SCALE);
    assert_eq!(quarters, Vector { x: 25_000_000_000, y: -25_000_000_000 });
    // by -2.0
    let negated = vector_div(&v, -2 * SCALE);
    assert_eq!(negated, Vector { x: -5 * SCALE, y: 5 * SCALE });
    // a zero divisor saturates instead of trapping, and 0 / 0 is 0
    let div_zero = vector_div(&v, 0);
    assert_eq!(div_zero, Vector { x: LIMIT, y: -LIMIT });
    let zero = Vector { x: 0, y: 0 };
    assert_eq!(vector_div(&zero, 0), Vector { x: 0, y: 0 });
}

#[test]
fn calculate_distance_is_a_clamped_difference() {
    let from = Vector { x: 2 * SCALE, y: -SCALE };
    let to = Vector { x: 5 * SCALE, y: SCALE };
    assert_eq!(calculate_distance(&from, &to), Vector { x: 3 * SCALE, y: 2 * SCALE });
    // the difference saturates instead of overflowing
    let low = Vector { x: i64::MIN, y: 0 };
    let high = Vector { x: i64::MAX, y: 0 };
    assert_eq!(calculate_distance(&low, &high), Vector { x: LIMIT, y: 0 });
    assert_eq!(calculate_distance(&high, &low), Vector { x: -LIMIT, y: 0 });
}

#[test]
fn calculate_length_is_the_floored_euclidean_norm() {
    assert_eq!(calculate_length(&Vector { x: 0, y: 0 }), 0);
    assert_eq!(calculate_length(&Vector { x: 3 * SCALE, y: 4 * SCALE }), 5 * SCALE as u64);
    // floor of sqrt(2)
    assert_eq!(calculate_length(&Vector { x: 1, y: 1 }), 1);
    assert_eq!(calculate_length(&Vector { x: -5, y: 0 }), 5);
    // the extreme corner still fits: |i64::MIN| squared is 2^126
    assert_eq!(calculate_length(&Vector { x: i64::MIN, y: 0 }), 9_223_372_036_854_775_808);
}
