//! Cumulative-measure tables and their per-dimension cache.
//!
//! `table_seq(n)` is the discretised cumulative measure of the n-th
//! power of sine over a fixed 300-point partition of `[0, π]`, built by
//! the two-step recurrence
//! `T_n[i] = ((n-1)·T_{n-2}[i] + (-cos x_i)·sin(x_i)^(n-1)) / n`
//! with `T_0` the grid itself and `T_1` its negated cosine. Tables are
//! pure functions of `n`; the cache memoizes them per parity and never
//! invalidates.

use vstd::prelude::*;

verus! {

use crate::errors::ErrorKind;
use crate::fixed::{SCALE, fxmul, fxmul_s, tdiv, tdiv64, lemma_fxmul_bound};
use crate::trig::{PI_FX, sin_fx, cos_fx, sin_fx_s, cos_fx_s};

/// Number of samples in every table: a uniform partition of `[0, π]`.
pub const N_POINTS: usize = 300;

/// Largest dimension the cache accepts (machine limit: keeps the
/// recurrence arithmetic within 64 bits).
pub const DIM_MAX: i64 = 4096;

/// Grid point `i`: `i · π / 299` in fixed point.
pub open spec fn grid_s(i: int) -> int {
    tdiv(i * PI_FX, 299)
}

/// The shared angular domain grid.
pub open spec fn grid_seq() -> Seq<int> {
    Seq::new(300, |i: int| grid_s(i))
}

/// Negated cosine of the grid.
pub open spec fn neg_cos_seq() -> Seq<int> {
    Seq::new(300, |i: int| -cos_fx_s(grid_s(i)))
}

/// Sine of the grid.
pub open spec fn sine_seq() -> Seq<int> {
    Seq::new(300, |i: int| sin_fx_s(grid_s(i)))
}

/// `e`-th power in fixed point, multiplied up from `SCALE` (one).
pub open spec fn pow_fx(s: int, e: nat) -> int
    decreases e,
{
    if e == 0 {
        SCALE as int
    } else {
        fxmul_s(pow_fx(s, (e - 1) as nat), s)
    }
}

/// One raw entry of the order-`n` recurrence, before the monotone
/// rounding policy is applied.
pub open spec fn table_raw(n: nat, i: nat) -> int
    decreases n, i, 0int,
{
    if n == 0 {
        grid_s(i as int)
    } else if n == 1 {
        -cos_fx_s(grid_s(i as int))
    } else {
        tdiv(
            (n - 1) * table_ent((n - 2) as nat, i)
                + fxmul_s(neg_cos_seq()[i as int], pow_fx(sine_seq()[i as int], (n - 1) as nat)),
            n as int,
        )
    }
}

/// One entry of the order-`n` table: the raw recurrence value, never
/// allowed to drop below its left neighbour. The tables sample
/// non-decreasing cumulative functions; this rounding policy keeps that
/// invariant exact in fixed point — it moves an entry by at most a few
/// units, and only where truncation noise would otherwise dent it.
pub open spec fn table_ent(n: nat, i: nat) -> int
    decreases n, i, 1int,
{
    if n == 0 || i == 0 {
        table_raw(n, i)
    } else {
        let prev = table_ent(n, (i - 1) as nat);
        let raw = table_raw(n, i);
        if raw < prev {
            prev
        } else {
            raw
        }
    }
}

/// The cumulative-measure table of order `n`.
pub open spec fn table_seq(n: nat) -> Seq<int> {
    Seq::new(300, |i: int| table_ent(n, i as nat))
}

/// `t` holds exactly the order-`n` table.
pub open spec fn table_matches(t: Seq<i64>, n: nat) -> bool {
    &&& t.len() == 300
    &&& forall|i: int| 0 <= i < 300 ==> t[i] == table_seq(n)[i]
}

/// The base cases of the recurrence: the order-0 table is the domain
/// grid itself, and the order-1 table never falls below the negated
/// cosine of the grid (it equals it except where the rounding policy
/// lifted an entry by a unit or two).
pub proof fn lemma_table_base_cases()
    ensures
        table_seq(0) == grid_seq(),
        forall|i: int| 0 <= i < 300 ==> #[trigger] table_seq(1)[i] >= -cos_fx_s(grid_s(i)),
{
    assert forall|i: int| 0 <= i < 300 implies table_seq(0)[i] == grid_seq()[i] by {
        assert(table_seq(0)[i] == table_ent(0, i as nat));
        assert(table_ent(0, i as nat) == table_raw(0, i as nat));
    };
    assert(table_seq(0) =~= grid_seq());
    assert forall|i: int| 0 <= i < 300 implies
        #[trigger] table_seq(1)[i] >= -cos_fx_s(grid_s(i)) by {
        assert(table_seq(1)[i] == table_ent(1, i as nat));
        assert(table_raw(1, i as nat) == -cos_fx_s(grid_s(i)));
        if i > 0 {
            assert(table_ent(1, i as nat) == {
                let prev = table_ent(1, (i - 1) as nat);
                let raw = table_raw(1, i as nat);
                if raw < prev { prev } else { raw }
            });
        }
    };
}

/// Every table is non-decreasing across its grid: for the order-0 table
/// because the grid itself is, for the others by the monotone rounding
/// policy of `table_ent`.
pub proof fn lemma_table_monotone(n: nat, i: int, j: int)
    requires
        0 <= i <= j < 300,
    ensures
        table_seq(n)[i] <= table_seq(n)[j],
    decreases j - i,
{
    if i == j {
    } else {
        lemma_table_monotone(n, i, j - 1);
        assert(table_seq(n)[j - 1] == table_ent(n, (j - 1) as nat));
        assert(table_seq(n)[j] == table_ent(n, j as nat));
        if n == 0 {
            assert(table_ent(n, j as nat) == table_raw(n, j as nat));
            assert(table_raw(n, j as nat) == grid_s(j));
            assert(table_ent(n, (j - 1) as nat) == table_raw(n, (j - 1) as nat));
            assert(table_raw(n, (j - 1) as nat) == grid_s(j - 1));
            assert((j - 1) * PI_FX <= j * PI_FX) by (nonlinear_arith)
                requires
                    1 <= j,
            ;
            vstd::arithmetic::div_mod::lemma_div_is_ordered((j - 1) * PI_FX, j * PI_FX, 299);
            vstd::arithmetic::div_mod::lemma_div_pos_is_pos((j - 1) * PI_FX, 299);
        } else {
            assert(table_ent(n, j as nat) == {
                let prev = table_ent(n, (j - 1) as nat);
                let raw = table_raw(n, j as nat);
                if raw < prev { prev } else { raw }
            });
        }
    }
}

/// Grid points are non-negative and at most π.
pub proof fn lemma_grid_range(i: int)
    requires
        0 <= i < 300,
    ensures
        0 <= grid_s(i) <= PI_FX,
{
    vstd::arithmetic::div_mod::lemma_div_pos_is_pos(i * PI_FX, 299);
    assert(i * PI_FX <= 299 * PI_FX) by (nonlinear_arith)
        requires
            i <= 299,
    ;
    vstd::arithmetic::div_mod::lemma_div_is_ordered(i * PI_FX, 299 * PI_FX, 299);
    vstd::arithmetic::div_mod::lemma_div_multiples_vanish(PI_FX as int, 299);
    assert(299 * PI_FX / 299 == PI_FX);
}

/// Powers of a unit-bounded value stay unit-bounded.
pub proof fn lemma_pow_fx_bound(s: int, e: nat)
    requires
        -(SCALE as int) <= s <= SCALE as int,
    ensures
        -(SCALE as int) <= pow_fx(s, e) <= SCALE as int,
    decreases e,
{
    if e != 0 {
        lemma_pow_fx_bound(s, (e - 1) as nat);
        lemma_fxmul_bound(pow_fx(s, (e - 1) as nat), s, SCALE as int, SCALE as int);
        vstd::arithmetic::div_mod::lemma_div_multiples_vanish(SCALE as int, SCALE as int);
        assert((SCALE as int) * (SCALE as int) / (SCALE as int) == SCALE as int);
    }
}

/// Every raw entry has magnitude at most π.
proof fn lemma_table_raw_bound(n: nat, i: nat)
    requires
        i < 300,
    ensures
        -(PI_FX as int) <= table_raw(n, i) <= PI_FX as int,
    decreases n, i, 0int,
{
    if n == 0 {
        lemma_grid_range(i as int);
    } else if n == 1 {
        assert(-(SCALE as int) <= cos_fx_s(grid_s(i as int)) <= SCALE as int);
    } else {
        lemma_table_ent_bound((n - 2) as nat, i);
        let p = table_ent((n - 2) as nat, i);
        let q = fxmul_s(neg_cos_seq()[i as int], pow_fx(sine_seq()[i as int], (n - 1) as nat));
        assert(-(SCALE as int) <= q <= SCALE as int) by {
            lemma_pow_fx_bound(sine_seq()[i as int], (n - 1) as nat);
            lemma_fxmul_bound(
                neg_cos_seq()[i as int],
                pow_fx(sine_seq()[i as int], (n - 1) as nat),
                SCALE as int,
                SCALE as int,
            );
            vstd::arithmetic::div_mod::lemma_div_multiples_vanish(SCALE as int, SCALE as int);
        };
        let a = (n - 1) * p + q;
        assert(-(n * (PI_FX as int)) <= (n - 1) * p + q <= n * (PI_FX as int))
            by (nonlinear_arith)
            requires
                2 <= n,
                -(PI_FX as int) <= p <= PI_FX as int,
                -(SCALE as int) <= q <= SCALE as int,
                (SCALE as int) <= PI_FX as int,
        ;
        assert(table_raw(n, i) == tdiv(a, n as int));
        vstd::arithmetic::div_mod::lemma_div_multiples_vanish(PI_FX as int, n as int);
        if a >= 0 {
            vstd::arithmetic::div_mod::lemma_div_is_ordered(a, n * (PI_FX as int), n as int);
            vstd::arithmetic::div_mod::lemma_div_pos_is_pos(a, n as int);
        } else {
            vstd::arithmetic::div_mod::lemma_div_is_ordered(-a, n * (PI_FX as int), n as int);
            vstd::arithmetic::div_mod::lemma_div_pos_is_pos(-a, n as int);
        }
    }
}

/// Every table entry has magnitude at most π.
proof fn lemma_table_ent_bound(n: nat, i: nat)
    requires
        i < 300,
    ensures
        -(PI_FX as int) <= table_ent(n, i) <= PI_FX as int,
    decreases n, i, 1int,
{
    lemma_table_raw_bound(n, i);
    if !(n == 0 || i == 0) {
        lemma_table_ent_bound(n, (i - 1) as nat);
    }
}

/// Every table entry has magnitude at most π.
pub proof fn lemma_table_bound(n: nat)
    ensures
        table_seq(n).len() == 300,
        forall|i: int| 0 <= i < 300 ==> -(PI_FX as int) <= #[trigger] table_seq(n)[i] <= PI_FX as int,
{
    assert forall|i: int| 0 <= i < 300 implies
        -(PI_FX as int) <= #[trigger] table_seq(n)[i] <= PI_FX as int by {
        lemma_table_ent_bound(n, i as nat);
    };
}

/// The shared primitive arrays: the domain grid and its negated cosine
/// and sine, each with 300 samples.
pub struct Globals {
    pub x: Vec<i64>,
    pub neg_cosine: Vec<i64>,
    pub sine: Vec<i64>,
}

impl Globals {
    /// The arrays hold exactly the spec-level grids.
    pub open spec fn wf(&self) -> bool {
        &&& self.x@.len() == 300
        &&& self.neg_cosine@.len() == 300
        &&& self.sine@.len() == 300
        &&& forall|i: int| 0 <= i < 300 ==> self.x@[i] == grid_s(i)
        &&& forall|i: int| 0 <= i < 300 ==> self.neg_cosine@[i] == neg_cos_seq()[i]
        &&& forall|i: int| 0 <= i < 300 ==> self.sine@[i] == sine_seq()[i]
    }
}

/// Build the primitive arrays: grid, negated cosine, sine.
pub fn initialize_global_arrays() -> (g: Globals)
    ensures
        g.wf(),
{
    let mut x: Vec<i64> = Vec::new();
    let mut neg_cosine: Vec<i64> = Vec::new();
    let mut sine: Vec<i64> = Vec::new();
    let mut i: usize = 0;
    while i < N_POINTS
        invariant
            i <= 300,
            x@.len() == i,
            neg_cosine@.len() == i,
            sine@.len() == i,
            forall|j: int| 0 <= j < i ==> x@[j] == grid_s(j),
            forall|j: int| 0 <= j < i ==> neg_cosine@[j] == neg_cos_seq()[j],
            forall|j: int| 0 <= j < i ==> sine@[j] == sine_seq()[j],
        decreases 300 - i,
    {
        proof {
            lemma_grid_range(i as int);
        }
        let xi: i64 = (((i as u64) * (PI_FX as u64)) / 299) as i64;
        proof {
            assert(xi == grid_s(i as int));
        }
        let c = cos_fx(xi);
        let s = sin_fx(xi);
        x.push(xi);
        neg_cosine.push(-c);
        sine.push(s);
        i = i + 1;
    }
    Globals { x, neg_cosine, sine }
}

/// Copy a table (element-for-element).
fn copy_table(v: &Vec<i64>) -> (r: Vec<i64>)
    ensures
        r@ == v@,
{
    let mut r: Vec<i64> = Vec::new();
    let mut i: usize = 0;
    while i < v.len()
        invariant
            i <= v@.len(),
            r@ =~= v@.subrange(0, i as int),
        decreases v@.len() - i,
    {
        r.push(v[i]);
        i = i + 1;
    }
    proof {
        assert(r@ =~= v@);
    }
    r
}

/// Compute the order-`k` table from the order-`k-2` table.
fn next_table(gl: &Globals, prev: &Vec<i64>, k: i64) -> (t: Vec<i64>)
    requires
        gl.wf(),
        2 <= k <= DIM_MAX,
        table_matches(prev@, (k - 2) as nat),
    ensures
        table_matches(t@, k as nat),
{
    proof {
        lemma_table_bound((k - 2) as nat);
        lemma_table_bound(k as nat);
    }
    let mut t: Vec<i64> = Vec::new();
    let mut i: usize = 0;
    while i < N_POINTS
        invariant
            gl.wf(),
            2 <= k <= DIM_MAX,
            table_matches(prev@, (k - 2) as nat),
            forall|j: int| 0 <= j < 300 ==>
                -(PI_FX as int) <= #[trigger] table_seq((k - 2) as nat)[j] <= PI_FX as int,
            i <= 300,
            t@.len() == i,
            forall|j: int| 0 <= j < i ==> t@[j] == table_seq(k as nat)[j],
        decreases 300 - i,
    {
        let s = gl.sine[i];
        let ghost si = sine_seq()[i as int];
        proof {
            assert(-(SCALE as int) <= si <= SCALE as int) by {
                assert(si == sin_fx_s(grid_s(i as int)));
            };
        }
        // sine[i]^(k-1) in fixed point
        let mut p: i64 = SCALE;
        let mut e: i64 = 0;
        while e < k - 1
            invariant
                0 <= e <= k - 1,
                s == si,
                -(SCALE as int) <= si <= SCALE as int,
                -SCALE <= p <= SCALE,
                p == pow_fx(si, e as nat),
            decreases k - 1 - e,
        {
            proof {
                lemma_fxmul_bound(p as int, s as int, SCALE as int, SCALE as int);
                vstd::arithmetic::div_mod::lemma_div_multiples_vanish(SCALE as int, SCALE as int);
            }
            p = fxmul(p, s);
            e = e + 1;
        }
        let q = fxmul(gl.neg_cosine[i], p);
        proof {
            assert(-(SCALE as int) <= gl.neg_cosine@[i as int] <= SCALE as int) by {
                assert(gl.neg_cosine@[i as int] == neg_cos_seq()[i as int]);
                assert(neg_cos_seq()[i as int] == -cos_fx_s(grid_s(i as int)));
            };
            lemma_fxmul_bound(gl.neg_cosine@[i as int] as int, p as int, SCALE as int, SCALE as int);
            vstd::arithmetic::div_mod::lemma_div_multiples_vanish(SCALE as int, SCALE as int);
            assert((k - 1) * (prev@[i as int] as int) <= 4095 * (PI_FX as int)
                && (k - 1) * (prev@[i as int] as int) >= -(4095 * (PI_FX as int)))
                by (nonlinear_arith)
                requires
                    2 <= k <= 4096,
                    -(PI_FX as int) <= prev@[i as int] as int <= PI_FX as int,
            ;
        }
        let a: i64 = (k - 1) * prev[i] + q;
        let raw = tdiv64(a, k);
        proof {
            assert(raw == table_raw(k as nat, i as nat)) by {
                assert(table_raw(k as nat, i as nat) == tdiv(
                    (k - 1) * table_ent((k - 2) as nat, i as nat)
                        + fxmul_s(neg_cos_seq()[i as int], pow_fx(sine_seq()[i as int], (k - 1) as nat)),
                    k as int,
                ));
                assert(prev@[i as int] == table_seq((k - 2) as nat)[i as int]);
                assert(table_seq((k - 2) as nat)[i as int] == table_ent((k - 2) as nat, i as nat));
            };
        }
        // rounding policy: never drop below the left neighbour
        let v = if i > 0 && raw < t[i - 1] {
            t[i - 1]
        } else {
            raw
        };
        proof {
            if i > 0 {
                assert(t@[i - 1] == table_seq(k as nat)[i - 1]);
                assert(table_seq(k as nat)[i - 1] == table_ent(k as nat, (i - 1) as nat));
            }
            assert(v == table_ent(k as nat, i as nat));
            assert(table_seq(k as nat)[i as int] == table_ent(k as nat, i as nat));
        }
        t.push(v);
        i = i + 1;
    }
    t
}

/// Build the order-1 table: the negated cosine of the grid, under the
/// same rounding policy as every other table.
fn first_odd_table(gl: &Globals) -> (t: Vec<i64>)
    requires
        gl.wf(),
    ensures
        table_matches(t@, 1),
{
    let mut t: Vec<i64> = Vec::new();
    let mut i: usize = 0;
    while i < N_POINTS
        invariant
            gl.wf(),
            i <= 300,
            t@.len() == i,
            forall|j: int| 0 <= j < i ==> t@[j] == table_seq(1)[j],
        decreases 300 - i,
    {
        let raw = gl.neg_cosine[i];
        proof {
            assert(gl.neg_cosine@[i as int] == neg_cos_seq()[i as int]);
            assert(table_raw(1, i as nat) == -cos_fx_s(grid_s(i as int)));
        }
        let v = if i > 0 && raw < t[i - 1] {
            t[i - 1]
        } else {
            raw
        };
        proof {
            if i > 0 {
                assert(t@[i - 1] == table_seq(1)[i - 1]);
                assert(table_seq(1)[i - 1] == table_ent(1, (i - 1) as nat));
            }
            assert(v == table_ent(1, i as nat));
            assert(table_seq(1)[i as int] == table_ent(1, i as nat));
        }
        t.push(v);
        i = i + 1;
    }
    t
}

/// `slots[j]` holds the table of order `2j + par`.
pub open spec fn slots_wf(slots: Seq<Vec<i64>>, par: int) -> bool {
    forall|j: int| 0 <= j < slots.len() ==> table_matches(#[trigger] slots[j]@, (2 * j + par) as nat)
}

/// Fill one parity slot vector up to (and including) index `target`.
fn fill_slots(slots: &mut Vec<Vec<i64>>, gl: &Globals, target: usize, par: i64)
    requires
        gl.wf(),
        par == 0 || par == 1,
        2 * target + par <= DIM_MAX,
        slots_wf(old(slots)@, par as int),
    ensures
        slots_wf(final(slots)@, par as int),
        final(slots)@.len() > target,
        forall|j: int| 0 <= j < old(slots)@.len() ==> final(slots)@[j] == old(slots)@[j],
    decreases target,
{
    while slots.len() <= target
        invariant
            gl.wf(),
            par == 0 || par == 1,
            2 * target + par <= DIM_MAX,
            slots_wf(slots@, par as int),
            forall|j: int| 0 <= j < old(slots)@.len() ==> slots@[j] == old(slots)@[j],
            slots@.len() >= old(slots)@.len(),
        decreases target + 1 - slots@.len(),
    {
        let len = slots.len();
        let t: Vec<i64> = if len == 0 {
            if par == 0 {
                let b = copy_table(&gl.x);
                proof {
                    assert(table_matches(b@, 0nat)) by {
                        assert forall|i: int| 0 <= i < 300 implies b@[i] == table_seq(0nat)[i] by {
                            assert(b@[i] == gl.x@[i]);
                            assert(table_seq(0nat)[i] == table_ent(0, i as nat));
                            assert(table_ent(0, i as nat) == table_raw(0, i as nat));
                        };
                    };
                }
                b
            } else {
                first_odd_table(gl)
            }
        } else {
            let k: i64 = 2 * (len as i64) + par;
            proof {
                assert(table_matches(slots@[len - 1]@, (2 * (len - 1) + par) as nat));
            }
            next_table(gl, &slots[len - 1], k)
        };
        slots.push(t);
        proof {
            assert(slots_wf(slots@, par as int)) by {
                assert forall|j: int| 0 <= j < slots@.len() implies
                    table_matches(#[trigger] slots@[j]@, (2 * j + par) as nat) by {
                    if j < slots@.len() - 1 {
                    } else {
                        assert(slots@[j] == t);
                    }
                };
            };
        }
    }
}

/// A per-dimension memo of cumulative-measure tables, with one slot
/// vector per parity (the recurrence steps by two). Tables are pure
/// functions of the order, so the cache only ever stores `table_seq`.
pub struct CdfTableCache {
    gl: Globals,
    even: Vec<Vec<i64>>,
    odd: Vec<Vec<i64>>,
}

impl CdfTableCache {
    /// The cache only ever holds correct tables (opaque: established
    /// by `new` and preserved by every method).
    pub closed spec fn wf(&self) -> bool {
        &&& self.gl.wf()
        &&& slots_wf(self.even@, 0)
        &&& slots_wf(self.odd@, 1)
    }

    /// A fresh cache: primitive arrays computed, no tables yet.
    pub fn new() -> (c: CdfTableCache)
        ensures
            c.wf(),
    {
        CdfTableCache { gl: initialize_global_arrays(), even: Vec::new(), odd: Vec::new() }
    }

    /// A copy of the shared angular domain grid.
    pub fn domain_grid(&self) -> (g: Vec<i64>)
        requires
            self.wf(),
        ensures
            g@.len() == 300,
            forall|i: int| 0 <= i < 300 ==> #[trigger] g@[i] == grid_s(i),
    {
        copy_table(&self.gl.x)
    }

    /// The order-`n` cumulative table, memoized per parity. Negative
    /// orders are invalid; every `n` in `[0, DIM_MAX]` succeeds, and
    /// the result is exactly `table_seq(n)` — independent of what the
    /// cache already held.
    pub fn get_table(&mut self, n: i64) -> (r: Result<Vec<i64>, ErrorKind>)
        requires
            old(self).wf(),
            n <= DIM_MAX,
        ensures
            final(self).wf(),
            n < 0 <==> r is Err,
            r is Err ==> r->Err_0 == ErrorKind::InvalidDimension,
            r is Ok ==> table_matches(r->Ok_0@, n as nat),
    {
        if n < 0 {
            return Err(ErrorKind::InvalidDimension);
        }
        let par: i64 = ((n as u64) % 2) as i64;
        let target: usize = ((n as u64) / 2) as usize;
        proof {
            vstd::arithmetic::div_mod::lemma_fundamental_div_mod(n as int, 2);
        }
        if par == 0 {
            fill_slots(&mut self.even, &self.gl, target, 0);
            let t = copy_table(&self.even[target]);
            proof {
                assert(table_matches(self.even@[target as int]@, (2 * target) as nat));
                assert(2 * target == n);
            }
            Ok(t)
        } else {
            fill_slots(&mut self.odd, &self.gl, target, 1);
            let t = copy_table(&self.odd[target]);
            proof {
                assert(table_matches(self.odd@[target as int]@, (2 * target + 1) as nat));
                assert(2 * target + 1 == n);
            }
            Ok(t)
        }
    }
}

} // verus!
