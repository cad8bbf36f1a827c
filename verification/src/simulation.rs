//! The N-body integrator: bodies, pairwise gravity, and the step function.

use vstd::prelude::*;

verus! {

use crate::scalar::clamp;
use crate::scalar::iabs;
use crate::scalar::sgn;
use crate::scalar::sat_mul;
use crate::scalar::sat_add;
use crate::scalar::scale_mul;
use crate::scalar::scale_div;
use crate::scalar::scale_div_pos;
use crate::scalar::sqrt_floor;
use crate::scalar::SCALE;
use crate::scalar::LIMIT;
use crate::scalar::G_RAW;
use crate::scalar::DT_RAW;
use crate::scalar::EPS_RAW;

/// A two-dimensional displacement, velocity or force, in raw fixed-point
/// units of 1 / SCALE.
#[derive(Clone, Copy, PartialEq, Eq, Structural, Debug)]
pub struct Vector {
    pub x: i64,
    pub y: i64,
}

/// A point mass: a stable identifier, a position, a velocity and a mass,
/// all in raw fixed-point units.
#[derive(Clone, Copy, PartialEq, Eq, Structural, Debug)]
pub struct Body {
    pub id: i32,
    pub position: Vector,
    pub velocity: Vector,
    pub mass: i64,
}

/// Componentwise clamped difference: the displacement from `v1` to `v2`.
pub fn calculate_distance(v1: &Vector, v2: &Vector) -> (r: Vector)
    ensures
        r.x as int == clamp(v2.x - v1.x),
        r.y as int == clamp(v2.y - v1.y),
{
    Vector {
        x: crate::scalar::clamp_wide(v2.x as i128 - v1.x as i128),
        y: crate::scalar::clamp_wide(v2.y as i128 - v1.y as i128),
    }
}

/// Length of a vector in raw units: the floor of the Euclidean norm.
pub open spec fn spec_length(v: Vector) -> int {
    sqrt_floor(v.x * v.x + v.y * v.y)
}

/// Componentwise clamped sum.
pub fn vector_add(v1: &Vector, v2: &Vector) -> (r: Vector)
    ensures
        r.x as int == sat_add(v1.x as int, v2.x as int),
        r.y as int == sat_add(v1.y as int, v2.y as int),
{
    Vector { x: crate::scalar::fix_add(v1.x, v2.x), y: crate::scalar::fix_add(v1.y, v2.y) }
}

/// Componentwise fixed-point product with a scalar.
pub fn vector_mult(v: &Vector, s: i64) -> (r: Vector)
    ensures
        r.x as int == scale_mul(v.x as int, s as int),
        r.y as int == scale_mul(v.y as int, s as int),
{
    Vector { x: crate::scalar::fix_mul(v.x, s), y: crate::scalar::fix_mul(v.y, s) }
}

/// Componentwise fixed-point quotient by a scalar.
pub fn vector_div(v: &Vector, s: i64) -> (r: Vector)
    ensures
        r.x as int == scale_div(v.x as int, s as int),
        r.y as int == scale_div(v.y as int, s as int),
{
    Vector { x: crate::scalar::fix_div(v.x, s), y: crate::scalar::fix_div(v.y, s) }
}

/// Length of a vector in raw units.
pub fn calculate_length(v: &Vector) -> (d: u64)
    ensures
        d as int == spec_length(*v),
{
    proof {
        assert(0 <= v.x as int * v.x as int <= 0x4000_0000_0000_0000_0000_0000_0000_0000int)
            by (nonlinear_arith)
            requires
                -0x8000_0000_0000_0000int <= v.x as int <= 0x7fff_ffff_ffff_ffffint,
        ;
        assert(0 <= v.y as int * v.y as int <= 0x4000_0000_0000_0000_0000_0000_0000_0000int)
            by (nonlinear_arith)
            requires
                -0x8000_0000_0000_0000int <= v.y as int <= 0x7fff_ffff_ffff_ffffint,
        ;
    }
    let xx: i128 = v.x as i128 * v.x as i128;
    let yy: i128 = v.y as i128 * v.y as i128;
    let n: u128 = xx as u128 + yy as u128;
    let r = crate::scalar::isqrt(n);
    proof {
        assert(r as int <= 0xffff_ffff_ffff_ffffint) by (nonlinear_arith)
            requires
                0 <= r as int,
                r as int * r as int <= 0x8000_0000_0000_0000_0000_0000_0000_0000int,
        ;
    }
    r as u64
}

/// Magnitude (with sign from the two masses) of the gravitational pull
/// G * m1 * m2 / sd^2, where sd is the floored distance, in raw units.
pub open spec fn force_magnitude(m1: int, m2: int, sd: int) -> int
    recommends
        sd >= 1,
{
    clamp(sgn(m1) * sgn(m2) * (sat_mul(G_RAW as int, sat_mul(iabs(m1), iabs(m2))) / sd / sd))
}

/// The distance between two bodies, floored at EPS_RAW.
pub open spec fn floored_distance(b1: Body, b2: Body) -> int {
    let dx = clamp(b2.position.x - b1.position.x);
    let dy = clamp(b2.position.y - b1.position.y);
    let d = sqrt_floor(dx * dx + dy * dy);
    if d < EPS_RAW {
        EPS_RAW as int
    } else {
        d
    }
}

/// The gravitational force that `b2` exerts on `b1`: the unit vector from
/// `b1` toward `b2` scaled by the force magnitude, each step truncated
/// exactly as the implementation truncates it.
pub open spec fn force_on(b1: Body, b2: Body) -> (int, int) {
    let dx = clamp(b2.position.x - b1.position.x);
    let dy = clamp(b2.position.y - b1.position.y);
    let sd = floored_distance(b1, b2);
    let mag = force_magnitude(b1.mass as int, b2.mass as int, sd);
    (scale_mul(scale_div_pos(dx, sd), mag), scale_mul(scale_div_pos(dy, sd), mag))
}

/// The gravitational force that `body2` exerts on `body1`.
pub fn calculate_force(body1: &Body, body2: &Body) -> (f: Vector)
    ensures
        f.x as int == force_on(*body1, *body2).0,
        f.y as int == force_on(*body1, *body2).1,
{
    let r12 = calculate_distance(&body1.position, &body2.position);
    let d = calculate_length(&r12);
    let safe_d: u64 = if d < 1 {
        1
    } else {
        d
    };
    let direction = Vector {
        x: crate::scalar::fix_div_by(r12.x, safe_d),
        y: crate::scalar::fix_div_by(r12.y, safe_d),
    };
    let neg = (body1.mass < 0) != (body2.mass < 0);
    let mm = crate::scalar::sat_mul_wide(
        crate::scalar::abs_mag(body1.mass),
        crate::scalar::abs_mag(body2.mass),
    );
    let gm = crate::scalar::sat_mul_wide(G_RAW as u128, mm);
    let q = gm / (safe_d as u128) / (safe_d as u128);
    proof {
        let m1 = body1.mass as int;
        let m2 = body2.mass as int;
        if body1.mass == 0 || body2.mass == 0 {
            assert(sat_mul(iabs(m1), iabs(m2)) == 0) by (nonlinear_arith)
                requires
                    iabs(m1) == 0 || iabs(m2) == 0,
            ;
            assert(sat_mul(G_RAW as int, 0) == 0) by (nonlinear_arith);
            vstd::arithmetic::div_mod::lemma_div_of0(safe_d as int);
            assert(q == 0);
            assert(sgn(m1) * sgn(m2) * (q as int) == 0) by (nonlinear_arith)
                requires
                    q as int == 0,
            ;
        } else {
            assert(sgn(m1) * sgn(m2) * (q as int) == if neg {
                -(q as int)
            } else {
                q as int
            }) by (nonlinear_arith)
                requires
                    sgn(m1) == if m1 > 0 { 1int } else { -1int },
                    sgn(m2) == if m2 > 0 { 1int } else { -1int },
                    neg == ((m1 < 0) != (m2 < 0)),
            ;
        }
    }
    let mag = crate::scalar::signed_clamp(neg, q);
    vector_mult(&direction, mag)
}

/// Net force on body `i` accumulated over sources `0 .. n` (skipping `i`),
/// in the order the summation loop visits them.
pub open spec fn net_force_prefix(s: Seq<Body>, i: int, n: int) -> (int, int)
    decreases n,
{
    if n <= 0 {
        (0int, 0int)
    } else {
        let acc = net_force_prefix(s, i, n - 1);
        if n - 1 == i {
            acc
        } else {
            let f = force_on(s[i], s[n - 1]);
            (sat_add(acc.0, f.0), sat_add(acc.1, f.1))
        }
    }
}

/// Net force on body `i` from every other body of the state.
pub open spec fn net_force(s: Seq<Body>, i: int) -> (int, int) {
    net_force_prefix(s, i, s.len() as int)
}

/// Velocity of body `i` after one step: v + (F / m) * dt, each operation
/// truncated and clamped exactly as the implementation performs it.
pub open spec fn stepped_velocity(s: Seq<Body>, i: int) -> (int, int) {
    let f = net_force(s, i);
    let ax = scale_div(f.0, s[i].mass as int);
    let ay = scale_div(f.1, s[i].mass as int);
    (
        sat_add(s[i].velocity.x as int, scale_mul(ax, DT_RAW as int)),
        sat_add(s[i].velocity.y as int, scale_mul(ay, DT_RAW as int)),
    )
}

/// Position of body `i` after one step: p + v' * dt, with v' the already
/// updated velocity (semi-implicit Euler).
pub open spec fn stepped_position(s: Seq<Body>, i: int) -> (int, int) {
    let v = stepped_velocity(s, i);
    (
        sat_add(s[i].position.x as int, scale_mul(v.0, DT_RAW as int)),
        sat_add(s[i].position.y as int, scale_mul(v.1, DT_RAW as int)),
    )
}

/// `b` is the successor of body `i` of state `s`: identifier and mass are
/// copied unchanged, velocity and position are advanced by one step.
pub open spec fn steps_body(s: Seq<Body>, i: int, b: Body) -> bool {
    &&& b.id == s[i].id
    &&& b.mass == s[i].mass
    &&& b.velocity.x as int == stepped_velocity(s, i).0
    &&& b.velocity.y as int == stepped_velocity(s, i).1
    &&& b.position.x as int == stepped_position(s, i).0
    &&& b.position.y as int == stepped_position(s, i).1
}

/// Advance the whole system by one time step of DT_RAW.
///
/// Every force is computed from the frozen input snapshot; the output has
/// the same length and order, identifiers and masses pass through
/// unchanged, and each velocity and position is the exact value of the
/// spec functions above, so two calls on equal input return equal output.
pub fn step(bodies: &Vec<Body>) -> (out: Vec<Body>)
    ensures
        out@.len() == bodies@.len(),
        forall|i: int| 0 <= i < bodies@.len() ==> steps_body(bodies@, i, #[trigger] out@[i]),
        // shape preservation, spelled out: order, identifiers and masses
        forall|i: int|
            0 <= i < bodies@.len() ==> (#[trigger] out@[i]).id == bodies@[i].id && out@[i].mass
                == bodies@[i].mass,
        // semi-implicit Euler: the new position advances the old one by
        // the *new* velocity times dt
        forall|i: int|
            0 <= i < bodies@.len() ==> (#[trigger] out@[i]).position.x as int == sat_add(
                bodies@[i].position.x as int,
                scale_mul(out@[i].velocity.x as int, DT_RAW as int),
            ) && out@[i].position.y as int == sat_add(
                bodies@[i].position.y as int,
                scale_mul(out@[i].velocity.y as int, DT_RAW as int),
            ),
{
    let ghost s = bodies@;
    let mut new_bodies: Vec<Body> = Vec::new();
    let mut i: usize = 0;
    while i < bodies.len()
        invariant
            s == bodies@,
            i <= bodies@.len(),
            new_bodies@.len() == i as int,
            forall|k: int| 0 <= k < i as int ==> steps_body(s, k, #[trigger] new_bodies@[k]),
        decreases bodies@.len() - i,
    {
        let mut body = bodies[i];
        let mut total_force = Vector { x: 0, y: 0 };
        let mut j: usize = 0;
        while j < bodies.len()
            invariant
                s == bodies@,
                i < bodies@.len(),
                j <= bodies@.len(),
                body == s[i as int],
                total_force.x as int == net_force_prefix(s, i as int, j as int).0,
                total_force.y as int == net_force_prefix(s, i as int, j as int).1,
            decreases bodies@.len() - j,
        {
            if i != j {
                let force = calculate_force(&bodies[i], &bodies[j]);
                total_force = vector_add(&total_force, &force);
            }
            j = j + 1;
        }
        let acceleration = vector_div(&total_force, body.mass);
        body.velocity = vector_add(&body.velocity, &vector_mult(&acceleration, DT_RAW));
        body.position = vector_add(&body.position, &vector_mult(&body.velocity, DT_RAW));
        new_bodies.push(body);
        i = i + 1;
    }
    new_bodies
}

/// A force vector always stays within the scalar range.
pub proof fn lemma_force_in_range(b1: Body, b2: Body)
    ensures
        iabs(force_on(b1, b2).0) <= LIMIT as int,
        iabs(force_on(b1, b2).1) <= LIMIT as int,
{
}

/// Newton's third law, exactly: the force on `b1` from `b2` is the
/// componentwise negation of the force on `b2` from `b1`.
pub proof fn lemma_force_antisymmetric(b1: Body, b2: Body)
    ensures
        force_on(b1, b2).0 == -force_on(b2, b1).0,
        force_on(b1, b2).1 == -force_on(b2, b1).1,
{
    let dx = clamp(b2.position.x - b1.position.x);
    let dy = clamp(b2.position.y - b1.position.y);
    crate::scalar::lemma_clamp_neg(b2.position.x - b1.position.x);
    crate::scalar::lemma_clamp_neg(b2.position.y - b1.position.y);
    let rx = clamp(b1.position.x - b2.position.x);
    let ry = clamp(b1.position.y - b2.position.y);
    assert(rx == -dx && ry == -dy);
    assert(rx * rx == dx * dx && ry * ry == dy * dy) by (nonlinear_arith)
        requires
            rx == -dx,
            ry == -dy,
    ;
    let sd = floored_distance(b1, b2);
    assert(floored_distance(b2, b1) == sd);
    let m1 = b1.mass as int;
    let m2 = b2.mass as int;
    crate::scalar::lemma_sat_mul_comm(iabs(m2), iabs(m1));
    vstd::arithmetic::mul::lemma_mul_is_commutative(sgn(m2), sgn(m1));
    assert(force_magnitude(m2, m1, sd) == force_magnitude(m1, m2, sd));
    let mag = force_magnitude(m1, m2, sd);
    crate::scalar::lemma_scale_div_pos_neg(dx, sd);
    crate::scalar::lemma_scale_div_pos_neg(dy, sd);
    crate::scalar::lemma_scale_mul_neg_left(scale_div_pos(dx, sd), mag);
    crate::scalar::lemma_scale_mul_neg_left(scale_div_pos(dy, sd), mag);
}

/// The singularity guard: two bodies at the same position exert no force
/// on each other at all (the direction vector degenerates to zero), so a
/// coincident pair cannot produce an unbounded value.
pub proof fn lemma_coincident_force_zero(b1: Body, b2: Body)
    requires
        b1.position == b2.position,
    ensures
        force_on(b1, b2) == (0int, 0int),
{
    assert(clamp(0) == 0);
    assert(sqrt_floor(0) == 0);
    let mag = force_magnitude(b1.mass as int, b2.mass as int, 1);
    assert(scale_div_pos(0, 1) == 0) by {
        assert(sat_mul(0, SCALE as int) == 0) by (nonlinear_arith);
        vstd::arithmetic::div_mod::lemma_div_of0(1);
    }
    assert(scale_mul(0, mag) == 0) by {
        assert(sat_mul(0, iabs(mag)) == 0) by (nonlinear_arith);
        vstd::arithmetic::div_mod::lemma_div_of0(SCALE as int);
    }
}

/// The closed-form bound implied by the distance floor: each component of
/// the force between two bodies is bounded in magnitude by
/// G * |m1| * |m2| / EPS_RAW^2 (saturated), the value the floored distance
/// of EPS_RAW yields.
pub proof fn lemma_force_bounded(b1: Body, b2: Body)
    ensures
        iabs(force_on(b1, b2).0) <= sat_mul(
            G_RAW as int,
            sat_mul(iabs(b1.mass as int), iabs(b2.mass as int)),
        ),
        iabs(force_on(b1, b2).1) <= sat_mul(
            G_RAW as int,
            sat_mul(iabs(b1.mass as int), iabs(b2.mass as int)),
        ),
{
    let dx = clamp(b2.position.x - b1.position.x);
    let dy = clamp(b2.position.y - b1.position.y);
    let sd = floored_distance(b1, b2);
    let m1 = b1.mass as int;
    let m2 = b2.mass as int;
    let big = sat_mul(G_RAW as int, sat_mul(iabs(m1), iabs(m2)));
    // the signed magnitude is bounded by `big`
    vstd::arithmetic::mul::lemma_mul_nonnegative(iabs(m1), iabs(m2));
    vstd::arithmetic::mul::lemma_mul_nonnegative(G_RAW as int, sat_mul(iabs(m1), iabs(m2)));
    assert(big >= 0);
    let q1 = big / sd;
    vstd::arithmetic::div_mod::lemma_div_pos_is_pos(big, sd);
    vstd::arithmetic::div_mod::lemma_div_nonincreasing(big, sd);
    let q2 = q1 / sd;
    vstd::arithmetic::div_mod::lemma_div_pos_is_pos(q1, sd);
    vstd::arithmetic::div_mod::lemma_div_nonincreasing(q1, sd);
    assert(0 <= q2 <= big);
    let t = sgn(m1) * sgn(m2) * q2;
    assert(-q2 <= t <= q2) by (nonlinear_arith)
        requires
            -1 <= sgn(m1) <= 1,
            -1 <= sgn(m2) <= 1,
            q2 >= 0,
            t == sgn(m1) * sgn(m2) * q2,
    ;
    crate::scalar::lemma_clamp_abs_le(t);
    let mag = force_magnitude(m1, m2, sd);
    assert(iabs(mag) <= big);
    // each unit-vector component is at most one whole unit
    assert(dx * dx >= 0 && dy * dy >= 0 && dx * dx <= dx * dx + dy * dy && dy * dy <= dx * dx
        + dy * dy) by (nonlinear_arith);
    assert(iabs(dx) * iabs(dx) == dx * dx && iabs(dy) * iabs(dy) == dy * dy) by (nonlinear_arith);
    crate::scalar::lemma_sqrt_floor_at_least(dx * dx + dy * dy, iabs(dx));
    crate::scalar::lemma_sqrt_floor_at_least(dx * dx + dy * dy, iabs(dy));
    assert(iabs(dx) <= sd && iabs(dy) <= sd);
    crate::scalar::lemma_scale_div_pos_unit(dx, sd);
    crate::scalar::lemma_scale_div_pos_unit(dy, sd);
    crate::scalar::lemma_scale_mul_abs_le(scale_div_pos(dx, sd), mag);
    crate::scalar::lemma_scale_mul_abs_le(scale_div_pos(dy, sd), mag);
}

/// Point symmetry: two equal masses placed exactly opposite one another
/// about a third body pull on it with forces that cancel componentwise.
pub proof fn lemma_symmetric_pair_cancels(c: Body, b1: Body, b2: Body)
    requires
        b1.mass == b2.mass,
        b1.position.x - c.position.x == -(b2.position.x - c.position.x),
        b1.position.y - c.position.y == -(b2.position.y - c.position.y),
    ensures
        force_on(c, b1).0 + force_on(c, b2).0 == 0,
        force_on(c, b1).1 + force_on(c, b2).1 == 0,
{
    let dx1 = clamp(b1.position.x - c.position.x);
    let dy1 = clamp(b1.position.y - c.position.y);
    crate::scalar::lemma_clamp_neg(b2.position.x - c.position.x);
    crate::scalar::lemma_clamp_neg(b2.position.y - c.position.y);
    let dx2 = clamp(b2.position.x - c.position.x);
    let dy2 = clamp(b2.position.y - c.position.y);
    assert(dx1 == -dx2 && dy1 == -dy2);
    assert(dx1 * dx1 == dx2 * dx2 && dy1 * dy1 == dy2 * dy2) by (nonlinear_arith)
        requires
            dx1 == -dx2,
            dy1 == -dy2,
    ;
    let sd = floored_distance(c, b1);
    assert(floored_distance(c, b2) == sd);
    let mag = force_magnitude(c.mass as int, b1.mass as int, sd);
    assert(force_magnitude(c.mass as int, b2.mass as int, sd) == mag);
    crate::scalar::lemma_scale_div_pos_neg(dx2, sd);
    crate::scalar::lemma_scale_div_pos_neg(dy2, sd);
    crate::scalar::lemma_scale_mul_neg_left(scale_div_pos(dx2, sd), mag);
    crate::scalar::lemma_scale_mul_neg_left(scale_div_pos(dy2, sd), mag);
}

/// Zero net force at a point of symmetry: in a three-body state whose
/// last two bodies are equal masses placed opposite one another about the
/// first, the first body feels no net force.
pub proof fn lemma_net_force_zero_at_center(s: Seq<Body>)
    requires
        s.len() == 3,
        s[1].mass == s[2].mass,
        s[1].position.x - s[0].position.x == -(s[2].position.x - s[0].position.x),
        s[1].position.y - s[0].position.y == -(s[2].position.y - s[0].position.y),
    ensures
        net_force(s, 0) == (0int, 0int),
{
    lemma_symmetric_pair_cancels(s[0], s[1], s[2]);
    lemma_force_in_range(s[0], s[1]);
    let f1 = force_on(s[0], s[1]);
    let f2 = force_on(s[0], s[2]);
    assert(net_force_prefix(s, 0, 0) == (0int, 0int));
    assert(net_force_prefix(s, 0, 1) == (0int, 0int));
    assert(net_force_prefix(s, 0, 2) == (sat_add(0, f1.0), sat_add(0, f1.1)));
    assert(net_force_prefix(s, 0, 2) == f1);
    assert(net_force_prefix(s, 0, 3) == (sat_add(f1.0, f2.0), sat_add(f1.1, f2.1)));
    assert(sat_add(f1.0, f2.0) == 0 && sat_add(f1.1, f2.1) == 0);
}

/// Newton's third law for a two-body system: the net force on body 0 is
/// the componentwise negation of the net force on body 1.
pub proof fn lemma_two_body_net_forces_opposite(s: Seq<Body>)
    requires
        s.len() == 2,
    ensures
        net_force(s, 0).0 == -net_force(s, 1).0,
        net_force(s, 0).1 == -net_force(s, 1).1,
{
    lemma_force_antisymmetric(s[0], s[1]);
    lemma_force_in_range(s[0], s[1]);
    lemma_force_in_range(s[1], s[0]);
    let f01 = force_on(s[0], s[1]);
    let f10 = force_on(s[1], s[0]);
    assert(net_force_prefix(s, 0, 0) == (0int, 0int));
    assert(net_force_prefix(s, 0, 1) == (0int, 0int));
    assert(net_force_prefix(s, 0, 2) == (sat_add(0, f01.0), sat_add(0, f01.1)));
    assert(net_force(s, 0) == f01);
    assert(net_force_prefix(s, 1, 0) == (0int, 0int));
    assert(net_force_prefix(s, 1, 1) == (sat_add(0, f10.0), sat_add(0, f10.1)));
    assert(net_force_prefix(s, 1, 2) == net_force_prefix(s, 1, 1));
    assert(net_force(s, 1) == f10);
}

/// Determinism: `steps_body` pins every field of the successor, so it is
/// a function of the input state alone — any two step results for the
/// same state and index are equal, and repeating a step cannot diverge.
pub proof fn lemma_steps_body_deterministic(s: Seq<Body>, i: int, b1: Body, b2: Body)
    requires
        steps_body(s, i, b1),
        steps_body(s, i, b2),
    ensures
        b1 == b2,
{
    assert(b1.velocity.x == b2.velocity.x);
    assert(b1.velocity.y == b2.velocity.y);
    assert(b1.position.x == b2.position.x);
    assert(b1.position.y == b2.position.y);
}

/// A body that feels no net force and is at rest does not move: one step
/// keeps its velocity at zero and its position unchanged.
pub proof fn lemma_unforced_stationary_body(s: Seq<Body>, i: int)
    requires
        0 <= i < s.len(),
        net_force(s, i) == (0int, 0int),
        s[i].velocity.x == 0,
        s[i].velocity.y == 0,
        -(LIMIT as int) <= s[i].position.x as int,
        -(LIMIT as int) <= s[i].position.y as int,
    ensures
        stepped_velocity(s, i) == (0int, 0int),
        stepped_position(s, i) == (s[i].position.x as int, s[i].position.y as int),
{
    let m = s[i].mass as int;
    assert(scale_div(0, m) == 0) by {
        if m != 0 {
            assert(sat_mul(0, SCALE as int) == 0) by (nonlinear_arith);
            vstd::arithmetic::div_mod::lemma_div_of0(iabs(m));
            let q = sat_mul(iabs(0), SCALE as int) / iabs(m);
            assert(sgn(0int) * sgn(m) * q == 0) by (nonlinear_arith)
                requires
                    sgn(0int) == 0,
            ;
        }
    }
    assert(scale_mul(0, DT_RAW as int) == 0) by {
        assert(sat_mul(0, iabs(DT_RAW as int)) == 0) by (nonlinear_arith);
        vstd::arithmetic::div_mod::lemma_div_of0(SCALE as int);
        let q = sat_mul(iabs(0), iabs(DT_RAW as int)) / (SCALE as int);
        assert(sgn(0int) * sgn(DT_RAW as int) * q == 0) by (nonlinear_arith)
            requires
                sgn(0int) == 0,
        ;
    }
}

} // verus!
