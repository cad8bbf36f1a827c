//! Fixed-point scalar arithmetic.
//!
//! A scalar is an `i64` counting raw units of `1 / SCALE`. All operations
//! are total: magnitudes that would leave the representable range saturate
//! at `LIMIT`, the stand-in for an infinity. Each executable operation is
//! proved equal to a spec function that states its value exactly.

use vstd::prelude::*;

verus! {

/// Raw units per whole unit: ten decimal digits of fraction.
pub const SCALE: i64 = 10_000_000_000;

/// Largest scalar magnitude; results saturate here instead of overflowing.
pub const LIMIT: i64 = i64::MAX;

/// Gravitational constant G = 1.0, in raw units.
pub const G_RAW: i64 = SCALE;

/// Time step dt = 0.01, in raw units.
pub const DT_RAW: i64 = 100_000_000;

/// Distance floor of one raw unit (1e-10): divisors are never below this.
pub const EPS_RAW: i64 = 1;

/// Magnitude of an integer.
pub open spec fn iabs(v: int) -> int {
    if v < 0 {
        -v
    } else {
        v
    }
}

/// Sign of an integer: -1, 0 or 1.
pub open spec fn sgn(v: int) -> int {
    if v > 0 {
        1int
    } else if v < 0 {
        -1int
    } else {
        0int
    }
}

/// Clamp an integer into the symmetric scalar range [-LIMIT, LIMIT].
pub open spec fn clamp(v: int) -> int {
    if v > LIMIT {
        LIMIT as int
    } else if v < -(LIMIT as int) {
        -(LIMIT as int)
    } else {
        v
    }
}

/// Product of two nonnegative integers, saturated at the widest
/// intermediate width the implementation computes in.
pub open spec fn sat_mul(a: int, b: int) -> int
    recommends
        a >= 0,
        b >= 0,
{
    if a * b > u128::MAX {
        u128::MAX as int
    } else {
        a * b
    }
}

/// Clamped integer addition.
pub open spec fn sat_add(a: int, b: int) -> int {
    clamp(a + b)
}

/// Fixed-point product a * b / SCALE, truncated toward zero and clamped.
pub open spec fn scale_mul(a: int, b: int) -> int {
    clamp(sgn(a) * sgn(b) * (sat_mul(iabs(a), iabs(b)) / (SCALE as int)))
}

/// Fixed-point quotient a / d for a positive raw divisor d, truncated
/// toward zero and clamped.
pub open spec fn scale_div_pos(a: int, d: int) -> int
    recommends
        d >= 1,
{
    clamp(sgn(a) * (sat_mul(iabs(a), SCALE as int) / d))
}

/// Fixed-point quotient a / b, truncated toward zero and clamped. A zero
/// divisor yields the saturation bound (the stand-in for an infinity),
/// or zero when the dividend is also zero.
pub open spec fn scale_div(a: int, b: int) -> int {
    if b == 0 {
        if a == 0 {
            0int
        } else {
            sgn(a) * (LIMIT as int)
        }
    } else {
        clamp(sgn(a) * sgn(b) * (sat_mul(iabs(a), SCALE as int) / iabs(b)))
    }
}

/// `r` is the floor of the square root of `n`.
pub open spec fn is_isqrt(n: int, r: int) -> bool {
    0 <= r && r * r <= n && n < (r + 1) * (r + 1)
}

/// Floor of the square root of a nonnegative integer (zero below zero).
pub open spec fn sqrt_floor(n: int) -> int
    decreases n,
{
    if n <= 0 {
        0int
    } else {
        let p = sqrt_floor(n - 1);
        if (p + 1) * (p + 1) <= n {
            p + 1
        } else {
            p
        }
    }
}

/// `sqrt_floor` is the floor of the square root.
pub proof fn lemma_sqrt_floor_is_isqrt(n: int)
    requires
        n >= 0,
    ensures
        is_isqrt(n, sqrt_floor(n)),
    decreases n,
{
    if n == 0 {
        assert(sqrt_floor(0) == 0);
    } else {
        lemma_sqrt_floor_is_isqrt(n - 1);
        let p = sqrt_floor(n - 1);
        if (p + 1) * (p + 1) <= n {
            assert(n - 1 < (p + 1) * (p + 1));
            assert(n < (p + 2) * (p + 2)) by (nonlinear_arith)
                requires
                    n <= (p + 1) * (p + 1),
                    p >= 0,
            ;
        }
    }
}

/// The floor of the square root is unique.
pub proof fn lemma_isqrt_unique(n: int, a: int, b: int)
    by (nonlinear_arith)
    requires
        is_isqrt(n, a),
        is_isqrt(n, b),
    ensures
        a == b,
{
}

/// The floor of the square root never understates an exact lower bound:
/// if a * a <= n then a <= sqrt_floor(n).
pub proof fn lemma_sqrt_floor_at_least(n: int, a: int)
    requires
        n >= 0,
        a >= 0,
        a * a <= n,
    ensures
        sqrt_floor(n) >= a,
{
    lemma_sqrt_floor_is_isqrt(n);
    let r = sqrt_floor(n);
    assert(a <= r) by (nonlinear_arith)
        requires
            a >= 0,
            r >= 0,
            a * a <= n,
            n < (r + 1) * (r + 1),
    ;
}

/// Floor of the square root of a wide magnitude, by bisection.
pub fn isqrt(n: u128) -> (r: u128)
    ensures
        r as int == sqrt_floor(n as int),
        is_isqrt(n as int, r as int),
{
    let mut lo: u128 = 0;
    let mut hi: u128 = 0x1_0000_0000_0000_0000;
    proof {
        assert((hi as int) * (hi as int) > n as int) by (nonlinear_arith)
            requires
                hi == 0x1_0000_0000_0000_0000u128,
                n <= u128::MAX,
        ;
    }
    while lo + 1 < hi
        invariant
            lo < hi <= 0x1_0000_0000_0000_0000u128,
            (lo as int) * (lo as int) <= n as int,
            (hi as int) * (hi as int) > n as int,
        decreases hi - lo,
    {
        let mid: u128 = lo + (hi - lo) / 2;
        assert(lo < mid < hi);
        proof {
            assert((mid as int) * (mid as int) < 0x1_0000_0000_0000_0000_0000_0000_0000_0000int)
                by (nonlinear_arith)
                requires
                    0 <= mid < 0x1_0000_0000_0000_0000int,
            ;
        }
        if mid * mid <= n {
            lo = mid;
        } else {
            hi = mid;
        }
    }
    proof {
        assert(is_isqrt(n as int, lo as int));
        lemma_sqrt_floor_is_isqrt(n as int);
        lemma_isqrt_unique(n as int, lo as int, sqrt_floor(n as int));
    }
    lo
}

/// Magnitude of a scalar, widened so that i64::MIN needs no special case.
pub fn abs_mag(v: i64) -> (r: u128)
    ensures
        r as int == iabs(v as int),
{
    if v < 0 {
        (-(v as i128)) as u128
    } else {
        v as u128
    }
}

/// Narrow a wide intermediate back into the scalar range.
pub fn clamp_wide(v: i128) -> (r: i64)
    ensures
        r as int == clamp(v as int),
{
    if v > LIMIT as i128 {
        LIMIT
    } else if v < -(LIMIT as i128) {
        -LIMIT
    } else {
        v as i64
    }
}

/// Saturating product of wide magnitudes.
pub fn sat_mul_wide(a: u128, b: u128) -> (r: u128)
    ensures
        r as int == sat_mul(a as int, b as int),
{
    match a.checked_mul(b) {
        Some(p) => p,
        None => u128::MAX,
    }
}

/// Reattach a sign to a magnitude and clamp it into the scalar range.
pub fn signed_clamp(neg: bool, m: u128) -> (r: i64)
    ensures
        r as int == if neg {
            clamp(-(m as int))
        } else {
            clamp(m as int)
        },
{
    let mag: i64 = if m > LIMIT as u128 {
        LIMIT
    } else {
        m as i64
    };
    if neg {
        -mag
    } else {
        mag
    }
}

/// Clamped scalar addition.
pub fn fix_add(a: i64, b: i64) -> (r: i64)
    ensures
        r as int == sat_add(a as int, b as int),
{
    clamp_wide(a as i128 + b as i128)
}

/// Fixed-point scalar product.
pub fn fix_mul(a: i64, b: i64) -> (r: i64)
    ensures
        r as int == scale_mul(a as int, b as int),
{
    let neg = (a < 0) != (b < 0);
    let m = sat_mul_wide(abs_mag(a), abs_mag(b)) / (SCALE as u128);
    proof {
        let q = sat_mul(iabs(a as int), iabs(b as int)) / (SCALE as int);
        if a == 0 || b == 0 {
            assert(sat_mul(iabs(a as int), iabs(b as int)) == 0) by (nonlinear_arith)
                requires
                    iabs(a as int) == 0 || iabs(b as int) == 0,
            ;
            vstd::arithmetic::div_mod::lemma_div_of0(SCALE as int);
            assert(q == 0);
            assert(sgn(a as int) * sgn(b as int) * q == 0) by (nonlinear_arith)
                requires
                    q == 0,
            ;
        } else {
            assert(sgn(a as int) * sgn(b as int) * q == if neg {
                -q
            } else {
                q
            }) by (nonlinear_arith)
                requires
                    sgn(a as int) == if a > 0 { 1int } else { -1int },
                    sgn(b as int) == if b > 0 { 1int } else { -1int },
                    neg == ((a < 0) != (b < 0)),
            ;
        }
    }
    signed_clamp(neg, m)
}

/// Fixed-point division by a positive raw divisor.
pub fn fix_div_by(a: i64, d: u64) -> (r: i64)
    requires
        d >= 1,
    ensures
        r as int == scale_div_pos(a as int, d as int),
{
    let m = sat_mul_wide(abs_mag(a), SCALE as u128) / (d as u128);
    proof {
        if a == 0 {
            assert(sat_mul(0, SCALE as int) == 0) by (nonlinear_arith);
        }
    }
    signed_clamp(a < 0, m)
}

/// Fixed-point scalar division; a zero divisor saturates (or yields zero
/// from a zero dividend).
pub fn fix_div(a: i64, b: i64) -> (r: i64)
    ensures
        r as int == scale_div(a as int, b as int),
{
    if b == 0 {
        if a == 0 {
            0
        } else if a < 0 {
            -LIMIT
        } else {
            LIMIT
        }
    } else {
        let neg = (a < 0) != (b < 0);
        let m = sat_mul_wide(abs_mag(a), SCALE as u128) / abs_mag(b);
        proof {
            let q = sat_mul(iabs(a as int), SCALE as int) / iabs(b as int);
            if a == 0 {
                assert(sat_mul(0, SCALE as int) == 0) by (nonlinear_arith);
                vstd::arithmetic::div_mod::lemma_div_of0(iabs(b as int));
                assert(q == 0);
                assert(sgn(a as int) * sgn(b as int) * q == 0) by (nonlinear_arith)
                    requires
                        q == 0,
                ;
            } else {
                assert(sgn(a as int) * sgn(b as int) * q == if neg {
                    -q
                } else {
                    q
                }) by (nonlinear_arith)
                    requires
                        sgn(a as int) == if a > 0 { 1int } else { -1int },
                        sgn(b as int) == if b > 0 { 1int } else { -1int },
                        neg == ((a < 0) != (b < 0)),
                ;
            }
        }
        signed_clamp(neg, m)
    }
}

/// Clamping is an odd function.
pub proof fn lemma_clamp_neg(v: int)
    ensures
        clamp(-v) == -clamp(v),
{
}

/// The saturated product does not depend on the order of its factors.
pub proof fn lemma_sat_mul_comm(a: int, b: int)
    ensures
        sat_mul(a, b) == sat_mul(b, a),
{
    vstd::arithmetic::mul::lemma_mul_is_commutative(a, b);
}

/// The fixed-point product is odd in its first factor.
pub proof fn lemma_scale_mul_neg_left(a: int, b: int)
    ensures
        scale_mul(-a, b) == -scale_mul(a, b),
{
    let q = sat_mul(iabs(a), iabs(b)) / (SCALE as int);
    assert(iabs(-a) == iabs(a));
    assert(sgn(-a) * sgn(b) * q == -(sgn(a) * sgn(b) * q)) by (nonlinear_arith)
        requires
            sgn(-a) == -sgn(a),
    ;
    lemma_clamp_neg(sgn(a) * sgn(b) * q);
}

/// Fixed-point division by a positive raw divisor is odd in the dividend.
pub proof fn lemma_scale_div_pos_neg(a: int, d: int)
    ensures
        scale_div_pos(-a, d) == -scale_div_pos(a, d),
{
    let q = sat_mul(iabs(a), SCALE as int) / d;
    assert(iabs(-a) == iabs(a));
    assert(sgn(-a) * q == -(sgn(a) * q)) by (nonlinear_arith)
        requires
            sgn(-a) == -sgn(a),
    ;
    lemma_clamp_neg(sgn(a) * q);
}

/// Clamping never grows a magnitude.
pub proof fn lemma_clamp_abs_le(v: int)
    ensures
        iabs(clamp(v)) <= iabs(v),
        iabs(clamp(v)) <= LIMIT as int,
{
}

/// A fixed-point quotient by a divisor at least as large as the dividend
/// magnitude is at most one whole unit: |scale_div_pos(a, d)| <= SCALE.
pub proof fn lemma_scale_div_pos_unit(a: int, d: int)
    requires
        d >= 1,
        iabs(a) <= d,
        iabs(a) <= LIMIT as int,
    ensures
        iabs(scale_div_pos(a, d)) <= SCALE as int,
{
    let x = iabs(a);
    vstd::arithmetic::mul::lemma_mul_inequality(x, LIMIT as int, SCALE as int);
    assert(sat_mul(x, SCALE as int) == x * (SCALE as int));
    let q = x * (SCALE as int) / d;
    vstd::arithmetic::mul::lemma_mul_inequality(x, d, SCALE as int);
    vstd::arithmetic::div_mod::lemma_multiply_divide_le(x * (SCALE as int), d, SCALE as int);
    vstd::arithmetic::mul::lemma_mul_nonnegative(x, SCALE as int);
    vstd::arithmetic::div_mod::lemma_div_pos_is_pos(x * (SCALE as int), d);
    let t = sgn(a) * q;
    assert(-q <= t <= q) by (nonlinear_arith)
        requires
            -1 <= sgn(a) <= 1,
            q >= 0,
            t == sgn(a) * q,
    ;
    lemma_clamp_abs_le(t);
}

/// Scaling by a factor of at most one whole unit never grows a magnitude:
/// |scale_mul(a, b)| <= |b| whenever |a| <= SCALE.
pub proof fn lemma_scale_mul_abs_le(a: int, b: int)
    requires
        iabs(a) <= SCALE as int,
    ensures
        iabs(scale_mul(a, b)) <= iabs(b),
{
    let x = iabs(a);
    let y = iabs(b);
    let p = sat_mul(x, y);
    vstd::arithmetic::mul::lemma_mul_nonnegative(x, y);
    assert(p <= x * y);
    vstd::arithmetic::mul::lemma_mul_inequality(x, SCALE as int, y);
    vstd::arithmetic::div_mod::lemma_div_is_ordered(p, (SCALE as int) * y, SCALE as int);
    vstd::arithmetic::div_mod::lemma_div_multiples_vanish(y, SCALE as int);
    vstd::arithmetic::div_mod::lemma_div_pos_is_pos(p, SCALE as int);
    let q = p / (SCALE as int);
    let t = sgn(a) * sgn(b) * q;
    assert(-q <= t <= q) by (nonlinear_arith)
        requires
            -1 <= sgn(a) <= 1,
            -1 <= sgn(b) <= 1,
            q >= 0,
            t == sgn(a) * sgn(b) * q,
    ;
    lemma_clamp_abs_le(t);
}

} // verus!
