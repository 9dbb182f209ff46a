//! Inverse lookup in a sampled cumulative table.
//!
//! `interpolate` inverts a (non-decreasing) table against its domain
//! grid: it binary-searches for the interval bracketing the target and
//! interpolates linearly between the two neighbouring grid points. A
//! target at or beyond either end clamps to the corresponding end of
//! the grid. A non-monotone table is a caller error: the result is
//! still total and exactly `interp_s`, but only a monotone table makes
//! it an inverse.

use vstd::prelude::*;

verus! {

use crate::fixed::{FX_CLAMP, ints, tdiv, tdiv128};

/// The interval index that the bisection arrives at.
pub open spec fn bisect_s(tp: Seq<int>, t: int, lo: int, hi: int) -> int
    decreases hi - lo,
{
    if hi - lo <= 1 {
        lo
    } else {
        let mid = lo + (hi - lo) / 2;
        if tp[mid] < t {
            bisect_s(tp, t, mid, hi)
        } else {
            bisect_s(tp, t, lo, mid)
        }
    }
}

/// The exact result of the inverse lookup.
pub open spec fn interp_s(tp: Seq<int>, grid: Seq<int>, t: int) -> int {
    if t <= tp[0] {
        grid[0]
    } else if t >= tp[tp.len() - 1] {
        grid[grid.len() - 1]
    } else {
        let i = bisect_s(tp, t, 0, tp.len() - 1);
        let x0 = tp[i];
        let x1 = tp[i + 1];
        let g0 = grid[i];
        let g1 = grid[i + 1];
        g0 + tdiv((t - x0) * (g1 - g0), x1 - x0)
    }
}

/// When the target is strictly bracketed by the table ends, the
/// bisection lands on an interval that brackets it — whether or not
/// the table is monotone.
pub proof fn lemma_bisect_bracket(tp: Seq<int>, t: int, lo: int, hi: int)
    requires
        0 <= lo < hi < tp.len(),
        tp[lo] < t,
        t <= tp[hi],
    ensures
        lo <= bisect_s(tp, t, lo, hi) < hi,
        tp[bisect_s(tp, t, lo, hi)] < t,
        t <= tp[bisect_s(tp, t, lo, hi) + 1],
    decreases hi - lo,
{
    if hi - lo <= 1 {
    } else {
        let mid = lo + (hi - lo) / 2;
        if tp[mid] < t {
            lemma_bisect_bracket(tp, t, mid, hi);
        } else {
            lemma_bisect_bracket(tp, t, lo, mid);
        }
    }
}

/// The lookup result stays inside any band that contains the whole
/// grid.
pub proof fn lemma_interp_range(tp: Seq<int>, grid: Seq<int>, t: int, lob: int, hib: int)
    requires
        tp.len() == grid.len(),
        2 <= tp.len(),
        forall|j: int| 0 <= j < grid.len() ==> lob <= #[trigger] grid[j] <= hib,
    ensures
        lob <= interp_s(tp, grid, t) <= hib,
{
    if t <= tp[0] {
    } else if t >= tp[tp.len() - 1] {
    } else {
        lemma_bisect_bracket(tp, t, 0, tp.len() - 1);
        let i = bisect_s(tp, t, 0, tp.len() - 1);
        let x0 = tp[i];
        let x1 = tp[i + 1];
        let g0 = grid[i];
        let g1 = grid[i + 1];
        let den = x1 - x0;
        let num = (t - x0) * (g1 - g0);
        let q = tdiv(num, den);
        assert(1 <= t - x0 <= den);
        if g1 >= g0 {
            assert(0 <= (t - x0) * (g1 - g0) <= den * (g1 - g0)) by (nonlinear_arith)
                requires
                    1 <= t - x0 <= den,
                    0 <= g1 - g0,
            ;
            vstd::arithmetic::div_mod::lemma_div_pos_is_pos(num, den);
            vstd::arithmetic::div_mod::lemma_div_is_ordered(num, den * (g1 - g0), den);
            vstd::arithmetic::div_mod::lemma_div_multiples_vanish(g1 - g0, den);
            assert(0 <= q <= g1 - g0);
        } else {
            assert(0 <= -((t - x0) * (g1 - g0)) <= den * (g0 - g1)) by (nonlinear_arith)
                requires
                    1 <= t - x0 <= den,
                    0 < g0 - g1,
            ;
            vstd::arithmetic::div_mod::lemma_div_pos_is_pos(-num, den);
            vstd::arithmetic::div_mod::lemma_div_is_ordered(-num, den * (g0 - g1), den);
            vstd::arithmetic::div_mod::lemma_div_multiples_vanish(g0 - g1, den);
            assert(g1 - g0 <= q <= 0);
        }
    }
}

/// Binary search for the bisection interval, exactly `bisect_s`.
fn bisect(tp: &Vec<i64>, t: i64, lo: usize, hi: usize) -> (i: usize)
    requires
        lo < hi < tp@.len(),
    ensures
        i == bisect_s(ints(tp@), t as int, lo as int, hi as int),
        lo <= i < hi,
    decreases hi - lo,
{
    if hi - lo <= 1 {
        lo
    } else {
        let mid = lo + (hi - lo) / 2;
        if tp[mid] < t {
            bisect(tp, t, mid, hi)
        } else {
            bisect(tp, t, lo, mid)
        }
    }
}

/// Invert a sampled cumulative table against its domain grid:
/// binary-search the bracketing interval, then interpolate linearly;
/// targets at or past the ends clamp to the ends of the grid.
pub fn interpolate(tp: &Vec<i64>, grid: &Vec<i64>, t: i64) -> (r: i64)
    requires
        tp@.len() == grid@.len(),
        2 <= tp@.len(),
        forall|j: int| 0 <= j < tp@.len() ==> -FX_CLAMP <= #[trigger] tp@[j] <= FX_CLAMP,
        forall|j: int| 0 <= j < grid@.len() ==> -FX_CLAMP <= #[trigger] grid@[j] <= FX_CLAMP,
        -FX_CLAMP <= t <= FX_CLAMP,
    ensures
        r == interp_s(ints(tp@), ints(grid@), t as int),
{
    let n = tp.len();
    if t <= tp[0] {
        return grid[0];
    }
    if t >= tp[n - 1] {
        return grid[n - 1];
    }
    let i = bisect(tp, t, 0, n - 1);
    proof {
        lemma_bisect_bracket(ints(tp@), t as int, 0, n - 1 as int);
    }
    let x0 = tp[i];
    let x1 = tp[i + 1];
    let g0 = grid[i];
    let g1 = grid[i + 1];
    proof {
        let ti = t as int;
        let x0i = x0 as int;
        let g0i = g0 as int;
        let g1i = g1 as int;
        let cl = FX_CLAMP as int;
        assert((ti - x0i) * (g1i - g0i) <= 4 * cl * cl
            && (ti - x0i) * (g1i - g0i) >= -(4 * cl * cl))
            by (nonlinear_arith)
            requires
                0 <= ti - x0i <= 2 * cl,
                -(2 * cl) <= g1i - g0i <= 2 * cl,
                0 < cl,
        ;
    }
    let num: i128 = ((t as i128) - (x0 as i128)) * ((g1 as i128) - (g0 as i128));
    let den: i128 = (x1 as i128) - (x0 as i128);
    let q = tdiv128(num, den);
    proof {
        let d = (g1 - g0) as int;
        if d >= 0 {
            assert(0 <= num as int <= (den as int) * d) by (nonlinear_arith)
                requires
                    1 <= (t as int) - x0 <= den as int,
                    0 <= d,
                    num as int == ((t as int) - x0) * d,
            ;
            vstd::arithmetic::div_mod::lemma_div_pos_is_pos(num as int, den as int);
            vstd::arithmetic::div_mod::lemma_div_is_ordered(num as int, (den as int) * d, den as int);
            vstd::arithmetic::div_mod::lemma_div_multiples_vanish(d, den as int);
        } else {
            assert(0 <= -(num as int) <= (den as int) * (-d)) by (nonlinear_arith)
                requires
                    1 <= (t as int) - x0 <= den as int,
                    d < 0,
                    num as int == ((t as int) - x0) * d,
            ;
            vstd::arithmetic::div_mod::lemma_div_pos_is_pos(-(num as int), den as int);
            vstd::arithmetic::div_mod::lemma_div_is_ordered(-(num as int), (den as int) * (-d), den as int);
            vstd::arithmetic::div_mod::lemma_div_multiples_vanish(-d, den as int);
        }
        assert(-(2 * (FX_CLAMP as int)) <= q <= 2 * (FX_CLAMP as int));
    }
    (g0 as i128 + q) as i64
}

} // verus!
