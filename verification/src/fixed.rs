//! Binary fixed-point scalars.
//!
//! A fixed-point value is an `i64` holding a real number times `SCALE`
//! (2^46). Products are computed in 128-bit arithmetic, divided back down
//! by `SCALE` with truncation toward zero, and clamped to `FX_CLAMP`, so
//! every operation is total and its result is given exactly by a spec
//! function.

use vstd::prelude::*;

verus! {

/// One in fixed point: 2^46.
pub const SCALE: i64 = 70368744177664;

/// Magnitude bound that every fixed-point product is clamped to: 2^52.
/// All values the generators produce stay far below it, so the clamp is
/// only a totality device.
pub const FX_CLAMP: i64 = 4503599627370496;

/// The integer values of a vector of fixed-point scalars.
pub open spec fn ints(s: Seq<i64>) -> Seq<int> {
    s.map_values(|x: i64| x as int)
}

/// Clamp `v` into `[lo, hi]`.
pub open spec fn clamp_i(v: int, lo: int, hi: int) -> int {
    if v < lo {
        lo
    } else if v > hi {
        hi
    } else {
        v
    }
}

/// Division truncating toward zero (the semantics of Rust's `/` on
/// signed integers), written over Euclidean division on magnitudes.
pub open spec fn tdiv(a: int, b: int) -> int {
    if a >= 0 {
        a / b
    } else {
        -((-a) / b)
    }
}

/// The exact value of a fixed-point product: truncate `a * b / SCALE`
/// toward zero, then clamp.
pub open spec fn fxmul_s(a: int, b: int) -> int {
    clamp_i(tdiv(a * b, SCALE as int), -(FX_CLAMP as int), FX_CLAMP as int)
}

/// A fixed-point product of values bounded by `ma` and `mb` is bounded
/// by `ma * mb / SCALE`; in particular, multiplying by a factor of
/// magnitude at most one (`mb <= SCALE`) never grows a value.
pub proof fn lemma_fxmul_bound(a: int, b: int, ma: int, mb: int)
    requires
        0 <= ma,
        0 <= mb,
        -ma <= a <= ma,
        -mb <= b <= mb,
    ensures
        -(ma * mb / (SCALE as int)) <= fxmul_s(a, b) <= ma * mb / (SCALE as int),
{
    let s = SCALE as int;
    let p = a * b;
    assert(-(ma * mb) <= p <= ma * mb) by {
        if a >= 0 {
            if b >= 0 {
                vstd::arithmetic::mul::lemma_mul_upper_bound(a, ma, b, mb);
                vstd::arithmetic::mul::lemma_mul_nonnegative(a, b);
            } else {
                vstd::arithmetic::mul::lemma_mul_upper_bound(a, ma, -b, mb);
                vstd::arithmetic::mul::lemma_mul_nonnegative(a, -b);
                vstd::arithmetic::mul::lemma_mul_unary_negation(a, b);
            }
        } else {
            if b >= 0 {
                vstd::arithmetic::mul::lemma_mul_upper_bound(-a, ma, b, mb);
                vstd::arithmetic::mul::lemma_mul_nonnegative(-a, b);
                assert((-a) * b == -(a * b)) by (nonlinear_arith);
            } else {
                vstd::arithmetic::mul::lemma_mul_upper_bound(-a, ma, -b, mb);
                vstd::arithmetic::mul::lemma_mul_nonnegative(-a, -b);
                assert((-a) * (-b) == a * b) by (nonlinear_arith);
            }
        }
    };
    vstd::arithmetic::div_mod::lemma_div_pos_is_pos(ma * mb, s);
    if p >= 0 {
        vstd::arithmetic::div_mod::lemma_div_is_ordered(p, ma * mb, s);
        vstd::arithmetic::div_mod::lemma_div_pos_is_pos(p, s);
    } else {
        vstd::arithmetic::div_mod::lemma_div_is_ordered(-p, ma * mb, s);
        vstd::arithmetic::div_mod::lemma_div_pos_is_pos(-p, s);
    }
}

/// Truncating signed division by a positive divisor, exactly `tdiv`.
pub fn tdiv64(a: i64, b: i64) -> (r: i64)
    requires
        1 <= b,
        -0x7fff_ffff_ffff_ffff <= a,
    ensures
        r == tdiv(a as int, b as int),
{
    if a >= 0 {
        proof {
            vstd::arithmetic::div_mod::lemma_div_nonincreasing(a as int, b as int);
            vstd::arithmetic::div_mod::lemma_div_pos_is_pos(a as int, b as int);
        }
        ((a as u64) / (b as u64)) as i64
    } else {
        proof {
            vstd::arithmetic::div_mod::lemma_div_nonincreasing(-a as int, b as int);
            vstd::arithmetic::div_mod::lemma_div_pos_is_pos(-a as int, b as int);
        }
        -((((-a) as u64) / (b as u64)) as i64)
    }
}

/// Truncating signed 128-bit division by a positive divisor, exactly
/// `tdiv`.
pub fn tdiv128(a: i128, b: i128) -> (r: i128)
    requires
        1 <= b,
        -0x7fff_ffff_ffff_ffff_ffff_ffff_ffff_ffff <= a,
    ensures
        r == tdiv(a as int, b as int),
{
    if a >= 0 {
        proof {
            vstd::arithmetic::div_mod::lemma_div_nonincreasing(a as int, b as int);
            vstd::arithmetic::div_mod::lemma_div_pos_is_pos(a as int, b as int);
        }
        ((a as u128) / (b as u128)) as i128
    } else {
        proof {
            vstd::arithmetic::div_mod::lemma_div_nonincreasing(-a as int, b as int);
            vstd::arithmetic::div_mod::lemma_div_pos_is_pos(-a as int, b as int);
        }
        -((((-a) as u128) / (b as u128)) as i128)
    }
}

/// Fixed-point product, exactly `fxmul_s`.
pub fn fxmul(a: i64, b: i64) -> (r: i64)
    ensures
        r == fxmul_s(a as int, b as int),
{
    proof {
        assert((a as int) * (b as int) <= 0x8000_0000_0000_0000 * 0x8000_0000_0000_0000
            && (a as int) * (b as int) >= -(0x8000_0000_0000_0000 * 0x8000_0000_0000_0000))
            by (nonlinear_arith)
            requires
                -0x8000_0000_0000_0000 <= a <= 0x7fff_ffff_ffff_ffff,
                -0x8000_0000_0000_0000 <= b <= 0x7fff_ffff_ffff_ffff,
        ;
    }
    let p: i128 = (a as i128) * (b as i128);
    let q: i128 = if p >= 0 {
        ((p as u128) / (SCALE as u128)) as i128
    } else {
        let m: u128 = ((-p) as u128) / (SCALE as u128);
        -(m as i128)
    };
    if q < -(FX_CLAMP as i128) {
        -FX_CLAMP
    } else if q > FX_CLAMP as i128 {
        FX_CLAMP
    } else {
        q as i64
    }
}

} // verus!
