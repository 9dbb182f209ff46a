//! Van der Corput (digit-reversal) sequence cursor.
//!
//! The radical inverse of a counter `c` in base `b` reverses the base-`b`
//! digits of `c` behind the radix point. It is an exact rational
//! `vdc_num / vdc_den`, which `pop` returns as a fixed-point value, so
//! the whole sequence is pinned down by the cursor position alone.

use vstd::prelude::*;

verus! {

use crate::fixed::{SCALE, tdiv};

/// Largest base a cursor accepts (machine limit: keeps the digit
/// denominator within 64 bits).
pub const BASE_MAX: u64 = 65536;

/// Largest cursor position a cursor accepts (machine limit).
pub const COUNT_MAX: u64 = 4294967296;

/// Denominator of the radical inverse of `c` in base `b`:
/// `b` raised to the number of base-`b` digits of `c`.
pub open spec fn vdc_den(c: nat, b: nat) -> nat
    decreases c,
    via vdc_den_decreases
{
    if b < 2 || c == 0 {
        1
    } else {
        b * vdc_den(c / b, b)
    }
}

/// Numerator of the radical inverse of `c` in base `b`: the base-`b`
/// digits of `c`, reversed.
pub open spec fn vdc_num(c: nat, b: nat) -> nat
    decreases c,
    via vdc_num_decreases
{
    if b < 2 || c == 0 {
        0
    } else {
        (c % b) * vdc_den(c / b, b) + vdc_num(c / b, b)
    }
}

#[via_fn]
proof fn vdc_den_decreases(c: nat, b: nat) {
    if !(b < 2 || c == 0) {
        vstd::arithmetic::div_mod::lemma_div_decreases(c as int, b as int);
    }
}

#[via_fn]
proof fn vdc_num_decreases(c: nat, b: nat) {
    if !(b < 2 || c == 0) {
        vstd::arithmetic::div_mod::lemma_div_decreases(c as int, b as int);
    }
}

/// The radical inverse of `c` in base `b` as a fixed-point value in
/// `[0, SCALE)`.
pub open spec fn vdc_fx(c: nat, b: nat) -> int {
    tdiv(vdc_num(c, b) * SCALE, vdc_den(c, b) as int)
}

/// The denominator is positive and, for a positive counter, at most
/// `b * c`.
pub proof fn lemma_vdc_den_bounds(c: nat, b: nat)
    requires
        2 <= b,
    ensures
        1 <= vdc_den(c, b),
        c >= 1 ==> vdc_den(c, b) <= b * c,
    decreases c,
{
    if c == 0 {
    } else {
        vstd::arithmetic::div_mod::lemma_div_decreases(c as int, b as int);
        lemma_vdc_den_bounds(c / b, b);
        assert(1 <= b * vdc_den(c / b, b)) by (nonlinear_arith)
            requires
                2 <= b,
                1 <= vdc_den(c / b, b),
        ;
        if c / b == 0 {
            assert(vdc_den(c, b) == b * vdc_den(c / b, b));
            assert(vdc_den(c / b, b) == 1);
            assert(b * 1 == b) by (nonlinear_arith);
            vstd::arithmetic::mul::lemma_mul_ordering(b as int, c as int);
        } else {
            assert(b * (c / b) <= c) by {
                vstd::arithmetic::div_mod::lemma_fundamental_div_mod(c as int, b as int);
            };
            assert(vdc_den(c / b, b) <= b * (c / b));
            assert(b * vdc_den(c / b, b) <= b * (b * (c / b))) by (nonlinear_arith)
                requires
                    2 <= b,
                    vdc_den(c / b, b) <= b * (c / b),
            ;
            assert(b * (b * (c / b)) <= b * c) by (nonlinear_arith)
                requires
                    2 <= b,
                    b * (c / b) <= c,
            ;
        }
    }
}

/// The reversed digits stay strictly below the denominator: the radical
/// inverse lies in `[0, 1)`.
pub proof fn lemma_vdc_num_lt_den(c: nat, b: nat)
    requires
        2 <= b,
    ensures
        vdc_num(c, b) < vdc_den(c, b),
    decreases c,
{
    if c == 0 {
    } else {
        vstd::arithmetic::div_mod::lemma_div_decreases(c as int, b as int);
        lemma_vdc_num_lt_den(c / b, b);
        lemma_vdc_den_bounds(c / b, b);
        let d = c % b;
        let q = c / b;
        assert(d < b) by {
            vstd::arithmetic::div_mod::lemma_mod_division_less_than_divisor(c as int, b as int);
        };
        assert(d * vdc_den(q, b) + vdc_num(q, b) < (d + 1) * vdc_den(q, b)) by (nonlinear_arith)
            requires
                vdc_num(q, b) < vdc_den(q, b),
        ;
        assert((d + 1) * vdc_den(q, b) <= b * vdc_den(q, b)) by (nonlinear_arith)
            requires
                d + 1 <= b,
                1 <= vdc_den(q, b),
        ;
    }
}

/// A van der Corput sequence cursor: emits the radical inverse of an
/// incrementing counter in a fixed base.
pub struct VdCorput {
    count: u64,
    base: u64,
}

/// The mathematical state of a cursor: its base and counter.
pub struct VdcState {
    pub base: nat,
    pub count: nat,
}

impl View for VdCorput {
    type V = VdcState;

    closed spec fn view(&self) -> VdcState {
        VdcState { base: self.base as nat, count: self.count as nat }
    }
}

impl VdCorput {
    /// A cursor is well formed when its base is meaningful and bounded.
    pub open spec fn wf(&self) -> bool {
        2 <= self@.base <= BASE_MAX
    }

    /// New cursor at position zero.
    pub fn new(base: u64) -> (r: VdCorput)
        requires
            2 <= base <= BASE_MAX,
        ensures
            r.wf(),
            r@.base == base,
            r@.count == 0,
    {
        VdCorput { count: 0, base }
    }

    /// Rewind (or fast-forward) the cursor to position `seed`.
    pub fn reseed(&mut self, seed: u64)
        requires
            old(self).wf(),
        ensures
            final(self).wf(),
            final(self)@.base == old(self)@.base,
            final(self)@.count == seed,
    {
        self.count = seed;
    }

    /// Advance the cursor and return the radical inverse of the new
    /// position, in fixed point.
    pub fn pop(&mut self) -> (r: i64)
        requires
            old(self).wf(),
            old(self)@.count + 1 <= COUNT_MAX,
        ensures
            final(self).wf(),
            final(self)@.base == old(self)@.base,
            final(self)@.count == old(self)@.count + 1,
            r == vdc_fx(final(self)@.count, final(self)@.base),
            0 <= r < SCALE,
    {
        self.count = self.count + 1;
        let b = self.base;
        let ghost c0 = self.count as nat;
        let ghost bn = b as nat;
        proof {
            lemma_vdc_den_bounds(c0, bn);
            lemma_vdc_num_lt_den(c0, bn);
            assert(bn * c0 <= BASE_MAX * COUNT_MAX) by (nonlinear_arith)
                requires
                    2 <= bn <= BASE_MAX,
                    1 <= c0 <= COUNT_MAX,
            ;
        }
        let mut c: u64 = self.count;
        let mut num: u64 = 0;
        let mut den: u64 = 1;
        while c > 0
            invariant
                2 <= b <= BASE_MAX,
                vdc_den(c0, bn) <= BASE_MAX * COUNT_MAX,
                vdc_num(c0, bn) < vdc_den(c0, bn),
                bn == b as nat,
                num < den,
                num * vdc_den(c as nat, bn) + vdc_num(c as nat, bn) == vdc_num(c0, bn),
                den * vdc_den(c as nat, bn) == vdc_den(c0, bn),
                1 <= vdc_den(c as nat, bn),
            decreases c,
        {
            let ghost cn = c as nat;
            let ghost dn = vdc_den(cn / bn, bn);
            proof {
                lemma_vdc_den_bounds(cn / bn, bn);
                assert(vdc_den(cn, bn) == bn * dn);
                assert(vdc_num(cn, bn) == (cn % bn) * dn + vdc_num(cn / bn, bn));
                // den * b stays within the fixed overall denominator
                assert(den * (bn * dn) == (den * bn) * dn) by (nonlinear_arith);
                assert(den * bn >= den && den * bn <= den * (bn * dn)) by (nonlinear_arith)
                    requires
                        2 <= bn,
                        1 <= dn,
                        1 <= den,
                ;
                // the new numerator keeps the running identity
                let x = num as int;
                let y = bn as int;
                let r = (cn % bn) as int;
                let w = dn as int;
                let v = vdc_num(cn / bn, bn) as int;
                assert((x * y + r) * w + v == x * (y * w) + (r * w + v)) by (nonlinear_arith);
                // and stays strictly below the new denominator
                assert(num * bn + cn % bn < den * bn) by (nonlinear_arith)
                    requires
                        num < den,
                        cn % bn < bn,
                        2 <= bn,
                ;
                assert(cn % bn < bn) by {
                    vstd::arithmetic::div_mod::lemma_mod_division_less_than_divisor(
                        cn as int, bn as int);
                };
                assert(num * vdc_den(cn, bn) + vdc_num(cn, bn) == vdc_num(c0, bn));
                assert(num * (bn * dn) <= vdc_num(c0, bn)) by (nonlinear_arith)
                    requires
                        num * (bn * dn) + vdc_num(cn, bn) == vdc_num(c0, bn)
                            + (num * (bn * dn) - num * vdc_den(cn, bn)),
                        vdc_den(cn, bn) == bn * dn,
                ;
            }
            proof {
                vstd::arithmetic::div_mod::lemma_div_decreases(c as int, b as int);
            }
            let d = c % b;
            num = num * b + d;
            den = den * b;
            c = c / b;
        }
        proof {
            assert(vdc_den(0, bn) == 1);
            assert(num * 1 == num && den * 1 == den) by (nonlinear_arith);
            assert(num == vdc_num(c0, bn) && den == vdc_den(c0, bn));
        }
        let q: u128 = (num as u128) * (SCALE as u128) / (den as u128);
        proof {
            let ni = num as int;
            let di = den as int;
            let si = SCALE as int;
            assert(ni * si < di * si) by (nonlinear_arith)
                requires
                    ni < di,
                    0 < si,
            ;
            assert(ni * si / di < si) by {
                vstd::arithmetic::div_mod::lemma_multiply_divide_lt(ni * si, di, si);
            };
            vstd::arithmetic::div_mod::lemma_div_pos_is_pos(ni * si, di);
        }
        q as i64
    }
}

} // verus!
