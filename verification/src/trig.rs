//! Fixed-point sine, cosine and integer square root.
//!
//! Sine and cosine are evaluated by quadrant reduction followed by a
//! truncated Taylor polynomial in fixed point. Every step is ordinary
//! integer arithmetic, so the exact result is given by the spec
//! functions below; their distance from the real functions is far below
//! the output quantum of the generators.

use vstd::prelude::*;

verus! {

use crate::fixed::{SCALE, fxmul, fxmul_s, clamp_i};

/// π in fixed point, rounded to the nearest unit.
pub const PI_FX: i64 = 221069929750889;

/// π/2 in fixed point, rounded to the nearest unit.
pub const HALF_PI_FX: i64 = 110534964875444;

/// 2π in fixed point, rounded to the nearest unit.
pub const TWO_PI_FX: i64 = 442139859501778;

// SCALE / k! for the Taylor coefficients of sine (odd k).
// Public because the spec functions that use them are open.
pub const INV_FACT_3: i64 = 11728124029611;
pub const INV_FACT_5: i64 = 586406201481;
pub const INV_FACT_7: i64 = 13962052416;
pub const INV_FACT_9: i64 = 193917395;
pub const INV_FACT_11: i64 = 1762885;
pub const INV_FACT_13: i64 = 11301;
pub const INV_FACT_15: i64 = 54;

// SCALE / k! for the Taylor coefficients of cosine (even k).
pub const INV_FACT_2: i64 = 35184372088832;
pub const INV_FACT_4: i64 = 2932031007403;
pub const INV_FACT_6: i64 = 97734366913;
pub const INV_FACT_8: i64 = 1745256552;
pub const INV_FACT_10: i64 = 19391739;
pub const INV_FACT_12: i64 = 146907;
pub const INV_FACT_14: i64 = 807;
pub const INV_FACT_16: i64 = 3;

/// Taylor polynomial of sine up to degree 15, evaluated by Horner's
/// rule in the square of the argument. Intended for `0 <= x <= π/2`.
pub open spec fn sin_poly_s(x: int) -> int {
    let y = fxmul_s(x, x);
    let a = (INV_FACT_13 as int) - fxmul_s(y, INV_FACT_15 as int);
    let a = (INV_FACT_11 as int) - fxmul_s(y, a);
    let a = (INV_FACT_9 as int) - fxmul_s(y, a);
    let a = (INV_FACT_7 as int) - fxmul_s(y, a);
    let a = (INV_FACT_5 as int) - fxmul_s(y, a);
    let a = (INV_FACT_3 as int) - fxmul_s(y, a);
    let a = (SCALE as int) - fxmul_s(y, a);
    fxmul_s(x, a)
}

/// Taylor polynomial of cosine up to degree 16, evaluated by Horner's
/// rule in the square of the argument. Intended for `0 <= x <= π/2`.
pub open spec fn cos_poly_s(x: int) -> int {
    let y = fxmul_s(x, x);
    let a = (INV_FACT_14 as int) - fxmul_s(y, INV_FACT_16 as int);
    let a = (INV_FACT_12 as int) - fxmul_s(y, a);
    let a = (INV_FACT_10 as int) - fxmul_s(y, a);
    let a = (INV_FACT_8 as int) - fxmul_s(y, a);
    let a = (INV_FACT_6 as int) - fxmul_s(y, a);
    let a = (INV_FACT_4 as int) - fxmul_s(y, a);
    let a = (INV_FACT_2 as int) - fxmul_s(y, a);
    (SCALE as int) - fxmul_s(y, a)
}

/// Sine on a half turn `0 <= z < π`, by symmetry about π/2.
pub open spec fn sin_half_s(z: int) -> int {
    if z <= HALF_PI_FX {
        sin_poly_s(z)
    } else {
        sin_poly_s((PI_FX as int) - z)
    }
}

/// Cosine on a half turn `0 <= z < π`, by antisymmetry about π/2.
pub open spec fn cos_half_s(z: int) -> int {
    if z <= HALF_PI_FX {
        cos_poly_s(z)
    } else {
        -cos_poly_s((PI_FX as int) - z)
    }
}

/// Fixed-point sine of any angle: reduce modulo 2π, evaluate by
/// quadrant, clamp into `[-SCALE, SCALE]`.
pub open spec fn sin_fx_s(x: int) -> int {
    let m = x % (TWO_PI_FX as int);
    let v = if m < PI_FX {
        sin_half_s(m)
    } else {
        -sin_half_s(m - (PI_FX as int))
    };
    clamp_i(v, -(SCALE as int), SCALE as int)
}

/// Fixed-point cosine of any angle: reduce modulo 2π, evaluate by
/// quadrant, clamp into `[-SCALE, SCALE]`.
pub open spec fn cos_fx_s(x: int) -> int {
    let m = x % (TWO_PI_FX as int);
    let v = if m < PI_FX {
        cos_half_s(m)
    } else {
        -cos_half_s(m - (PI_FX as int))
    };
    clamp_i(v, -(SCALE as int), SCALE as int)
}

fn sin_poly(x: i64) -> (r: i64)
    ensures
        r == sin_poly_s(x as int),
{
    let y = fxmul(x, x);
    let mut a: i64 = INV_FACT_13 - fxmul(y, INV_FACT_15);
    a = INV_FACT_11 - fxmul(y, a);
    a = INV_FACT_9 - fxmul(y, a);
    a = INV_FACT_7 - fxmul(y, a);
    a = INV_FACT_5 - fxmul(y, a);
    a = INV_FACT_3 - fxmul(y, a);
    a = SCALE - fxmul(y, a);
    fxmul(x, a)
}

fn cos_poly(x: i64) -> (r: i64)
    ensures
        r == cos_poly_s(x as int),
{
    let y = fxmul(x, x);
    let mut a: i64 = INV_FACT_14 - fxmul(y, INV_FACT_16);
    a = INV_FACT_12 - fxmul(y, a);
    a = INV_FACT_10 - fxmul(y, a);
    a = INV_FACT_8 - fxmul(y, a);
    a = INV_FACT_6 - fxmul(y, a);
    a = INV_FACT_4 - fxmul(y, a);
    a = INV_FACT_2 - fxmul(y, a);
    SCALE - fxmul(y, a)
}

/// Reduce a non-negative angle modulo a full turn.
fn reduce_angle(x: i64) -> (m: i64)
    requires
        0 <= x,
    ensures
        m == (x as int) % (TWO_PI_FX as int),
        0 <= m < TWO_PI_FX,
{
    ((x as u64) % (TWO_PI_FX as u64)) as i64
}

/// Fixed-point sine, exactly `sin_fx_s`.
pub fn sin_fx(x: i64) -> (r: i64)
    requires
        0 <= x,
    ensures
        r == sin_fx_s(x as int),
        -SCALE <= r <= SCALE,
{
    let m = reduce_angle(x);
    let v: i64 = if m < PI_FX {
        if m <= HALF_PI_FX {
            sin_poly(m)
        } else {
            sin_poly(PI_FX - m)
        }
    } else {
        let z = m - PI_FX;
        let w = if z <= HALF_PI_FX {
            sin_poly(z)
        } else {
            sin_poly(PI_FX - z)
        };
        -w
    };
    if v < -SCALE {
        -SCALE
    } else if v > SCALE {
        SCALE
    } else {
        v
    }
}

/// Fixed-point cosine, exactly `cos_fx_s`.
pub fn cos_fx(x: i64) -> (r: i64)
    requires
        0 <= x,
    ensures
        r == cos_fx_s(x as int),
        -SCALE <= r <= SCALE,
{
    let m = reduce_angle(x);
    let v: i64 = if m < PI_FX {
        if m <= HALF_PI_FX {
            cos_poly(m)
        } else {
            -cos_poly(PI_FX - m)
        }
    } else {
        let z = m - PI_FX;
        let w = if z <= HALF_PI_FX {
            cos_poly(z)
        } else {
            -cos_poly(PI_FX - z)
        };
        -w
    };
    if v < -SCALE {
        -SCALE
    } else if v > SCALE {
        SCALE
    } else {
        v
    }
}

/// `r` is the integer square root of `v`.
pub open spec fn is_floor_sqrt(v: int, r: int) -> bool {
    0 <= r && r * r <= v && v < (r + 1) * (r + 1)
}

/// The integer square root of `v`, as a spec-level value.
pub open spec fn floor_sqrt(v: int) -> int {
    choose|r: int| is_floor_sqrt(v, r)
}

/// The integer square root is unique.
pub proof fn lemma_floor_sqrt_unique(v: int, r1: int, r2: int)
    requires
        is_floor_sqrt(v, r1),
        is_floor_sqrt(v, r2),
    ensures
        r1 == r2,
{
    if r1 < r2 {
        assert((r1 + 1) * (r1 + 1) <= r2 * r2) by (nonlinear_arith)
            requires
                0 <= r1,
                r1 + 1 <= r2,
        ;
    }
    if r2 < r1 {
        assert((r2 + 1) * (r2 + 1) <= r1 * r1) by (nonlinear_arith)
            requires
                0 <= r2,
                r2 + 1 <= r1,
        ;
    }
}

/// A square root below a square is below its root.
pub proof fn lemma_floor_sqrt_le(v: int, r: int, m: int)
    requires
        is_floor_sqrt(v, r),
        0 <= m,
        v <= m * m,
    ensures
        r <= m,
{
    if m < r {
        assert((m + 1) * (m + 1) <= r * r) by (nonlinear_arith)
            requires
                0 <= m,
                m + 1 <= r,
        ;
        assert(m * m < (m + 1) * (m + 1)) by (nonlinear_arith)
            requires
                0 <= m,
        ;
    }
}

/// Integer square root of a 128-bit value below 2^94, by bisection.
pub fn isqrt(v: u128) -> (r: u64)
    requires
        v < 19807040628566084398385987584u128,  // 2^94
    ensures
        is_floor_sqrt(v as int, r as int),
        r == floor_sqrt(v as int),
{
    let mut lo: u64 = 0;
    let mut hi: u64 = 140737488355328;  // 2^47
    proof {
        assert((140737488355328int) * (140737488355328int) == 19807040628566084398385987584int)
            by (nonlinear_arith);
    }
    while hi - lo > 1
        invariant
            lo < hi,
            hi <= 140737488355328,
            (lo as int) * (lo as int) <= v as int,
            (v as int) < (hi as int) * (hi as int),
        decreases hi - lo,
    {
        let mid = lo + (hi - lo) / 2;
        proof {
            assert((mid as int) * (mid as int) < 19807040628566084398385987584int * 2)
                by (nonlinear_arith)
                requires
                    mid <= 140737488355328int,
            ;
        }
        let sq: u128 = (mid as u128) * (mid as u128);
        if sq <= v {
            lo = mid;
        } else {
            hi = mid;
        }
    }
    proof {
        assert(hi == lo + 1);
        assert(is_floor_sqrt(v as int, lo as int));
        let w = floor_sqrt(v as int);
        assert(is_floor_sqrt(v as int, w)) by {
            assert(exists|r: int| is_floor_sqrt(v as int, r)) by {
                assert(is_floor_sqrt(v as int, lo as int));
            };
        };
        lemma_floor_sqrt_unique(v as int, lo as int, w);
    }
    lo
}

} // verus!
