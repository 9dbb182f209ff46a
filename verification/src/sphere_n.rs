//! Recursive n-sphere samplers.
//!
//! A sampler of dimension `n >= 2` emits points with `n + 1`
//! coordinates. The terminal case `n == 2` is the 2-sphere base
//! generator; a composite level of dimension `n >= 3` draws a polar
//! angle by inverting the cumulative table of order `n - 1`, scales the
//! inner sampler's point by its sine and appends its cosine.
//!
//! The whole state of a sampler is its chain of cursors
//! (`SphereState`); `pop` and `reseed` are functions of that state, so
//! any two representations with equal states emit equal sequences.

use vstd::prelude::*;

verus! {

use crate::errors::ErrorKind;
use crate::fixed::{SCALE, fxmul, fxmul_s, ints, lemma_fxmul_bound};
use crate::interp::{interp_s, interpolate, lemma_interp_range};
use crate::lds::{Sphere2, sphere2_pop_s};
use crate::table::{CdfTableCache, DIM_MAX, grid_s, grid_seq, table_seq, table_matches,
    lemma_table_bound, lemma_grid_range};
use crate::trig::{PI_FX, sin_fx, cos_fx, sin_fx_s, cos_fx_s};
use crate::vdc::{VdCorput, VdcState, vdc_fx, BASE_MAX, COUNT_MAX};

/// The mathematical state of a sphere sampler: its chain of cursors,
/// with each composite level's dimension.
pub enum SphereState {
    Leaf { vphi: VdcState, vtheta: VdcState },
    Node { vdc: VdcState, dim: nat, inner: Box<SphereState> },
}

/// The sphere dimension a state samples: points have `dim + 1`
/// coordinates.
pub open spec fn sphere_dim(v: SphereState) -> nat {
    match v {
        SphereState::Leaf { .. } => 2,
        SphereState::Node { dim, .. } => dim,
    }
}

/// A cursor advanced by one position.
pub open spec fn vdc_step(v: VdcState) -> VdcState {
    VdcState { base: v.base, count: v.count + 1 }
}

/// A cursor rewound to `seed`.
pub open spec fn vdc_seeded(v: VdcState, seed: nat) -> VdcState {
    VdcState { base: v.base, count: seed }
}

/// Every cursor advanced once: the state change of one `pop`.
pub open spec fn sphere_step_s(v: SphereState) -> SphereState
    decreases v,
{
    match v {
        SphereState::Leaf { vphi, vtheta } => SphereState::Leaf {
            vphi: vdc_step(vphi),
            vtheta: vdc_step(vtheta),
        },
        SphereState::Node { vdc, dim, inner } => SphereState::Node {
            vdc: vdc_step(vdc),
            dim,
            inner: Box::new(sphere_step_s(*inner)),
        },
    }
}

/// Every cursor rewound to `seed`: the state change of `reseed`.
pub open spec fn sphere_reseed_s(v: SphereState, seed: nat) -> SphereState
    decreases v,
{
    match v {
        SphereState::Leaf { vphi, vtheta } => SphereState::Leaf {
            vphi: vdc_seeded(vphi, seed),
            vtheta: vdc_seeded(vtheta, seed),
        },
        SphereState::Node { vdc, dim, inner } => SphereState::Node {
            vdc: vdc_seeded(vdc, seed),
            dim,
            inner: Box::new(sphere_reseed_s(*inner, seed)),
        },
    }
}

/// Every cursor has room to advance (machine limit).
pub open spec fn sphere_counts_ok(v: SphereState) -> bool
    decreases v,
{
    match v {
        SphereState::Leaf { vphi, vtheta } =>
            vphi.count + 1 <= COUNT_MAX && vtheta.count + 1 <= COUNT_MAX,
        SphereState::Node { vdc, inner, .. } =>
            vdc.count + 1 <= COUNT_MAX && sphere_counts_ok(*inner),
    }
}

/// The polar angle a composite level draws against the order-`dm`
/// table: the cursor draw is mapped linearly into the table's range,
/// then inverted over the domain grid. Opaque: the definition only
/// matters to the level that draws the angle, not to its callers.
#[verifier::opaque]
pub open spec fn node_angle_s(dm: nat, v: VdcState) -> int {
    let u = vdc_fx(v.count + 1, v.base);
    let tp = table_seq(dm);
    let ti = tp[0] + fxmul_s(tp[299] - tp[0], u);
    interp_s(tp, grid_seq(), ti)
}

/// The point one `pop` emits from a given state.
pub open spec fn sphere_pop_s(v: SphereState) -> Seq<int>
    decreases v,
{
    match v {
        SphereState::Leaf { vphi, vtheta } => sphere2_pop_s(vphi, vtheta),
        SphereState::Node { vdc, dim, inner } => {
            let xi = node_angle_s((dim - 1) as nat, vdc);
            let s = sin_fx_s(xi);
            let c = cos_fx_s(xi);
            sphere_pop_s(*inner).map_values(|x: int| fxmul_s(x, s)).push(c)
        },
    }
}

/// One composite step of `sphere_pop_s`, as an explicit equation.
pub proof fn lemma_node_pop(vdc: VdcState, dim: nat, iv: SphereState, rr: Seq<int>, ir: Seq<int>,
    s: int, c: int)
    requires
        ir == sphere_pop_s(iv),
        s == sin_fx_s(node_angle_s((dim - 1) as nat, vdc)),
        c == cos_fx_s(node_angle_s((dim - 1) as nat, vdc)),
        rr == ir.map_values(|x: int| fxmul_s(x, s)).push(c),
    ensures
        rr == sphere_pop_s(SphereState::Node { vdc, dim, inner: Box::new(iv) }),
{
    let v = SphereState::Node { vdc, dim, inner: Box::new(iv) };
    assert(sphere_pop_s(v) == sphere_pop_s(iv).map_values(
        |x: int| fxmul_s(x, sin_fx_s(node_angle_s((dim - 1) as nat, vdc))),
    ).push(cos_fx_s(node_angle_s((dim - 1) as nat, vdc))));
    assert(rr =~= sphere_pop_s(v));
}

/// One composite step of `sphere_step_s`, as an explicit equation.
pub proof fn lemma_node_step(vdc: VdcState, dim: nat, iv: SphereState)
    ensures
        sphere_step_s(SphereState::Node { vdc, dim, inner: Box::new(iv) })
            == (SphereState::Node { vdc: vdc_step(vdc), dim, inner: Box::new(sphere_step_s(iv)) }),
{
}

/// One composite step of `sphere_counts_ok`, as an explicit equation.
pub proof fn lemma_node_counts(vdc: VdcState, dim: nat, iv: SphereState)
    ensures
        sphere_counts_ok(SphereState::Node { vdc, dim, inner: Box::new(iv) })
            == (vdc.count + 1 <= COUNT_MAX && sphere_counts_ok(iv)),
{
}

/// Structural validity of a state: each composite level has dimension
/// one above its inner sampler, terminating in the dimension-2 leaf.
pub open spec fn sphere_state_wf(v: SphereState) -> bool
    decreases v,
{
    match v {
        SphereState::Leaf { .. } => true,
        SphereState::Node { dim, inner, .. } =>
            dim == sphere_dim(*inner) + 1 && 3 <= dim && sphere_state_wf(*inner),
    }
}

/// A `pop` returns one coordinate more than the dimension.
#[verifier::rlimit(100)]
pub proof fn lemma_sphere_pop_len(v: SphereState)
    requires
        sphere_state_wf(v),
    ensures
        sphere_pop_s(v).len() == sphere_dim(v) + 1,
    decreases v,
{
    match v {
        SphereState::Leaf { vphi, vtheta } => {
            assert(sphere_pop_s(v) == sphere2_pop_s(vphi, vtheta));
            assert(sphere2_pop_s(vphi, vtheta).len() == 3);
            assert(sphere_dim(v) == 2);
            assert(sphere_pop_s(v).len() == sphere_dim(v) + 1);
        },
        SphereState::Node { vdc, dim, inner } => {
            lemma_sphere_pop_len(*inner);
            let xi = node_angle_s((dim - 1) as nat, vdc);
            assert(sphere_pop_s(v) == sphere_pop_s(*inner).map_values(
                |x: int| fxmul_s(x, sin_fx_s(xi)),
            ).push(cos_fx_s(xi)));
            assert(sphere_dim(v) == dim);
            assert(sphere_pop_s(v).len() == sphere_dim(v) + 1);
        },
    }
}

/// The freshly built state of a sampler of dimension `n` over the
/// given bases: level `k` consumes the `(n-k)`-th base, the terminal
/// 2-sphere the two after that.
pub open spec fn build_view_s(n: nat, bases: Seq<nat>) -> SphereState
    decreases n,
{
    if n <= 2 {
        SphereState::Leaf {
            vphi: VdcState { base: bases[1], count: 0 },
            vtheta: VdcState { base: bases[2], count: 0 },
        }
    } else if n == 3 {
        SphereState::Node {
            vdc: VdcState { base: bases[0], count: 0 },
            dim: 3,
            inner: Box::new(SphereState::Leaf {
                vphi: VdcState { base: bases[1], count: 0 },
                vtheta: VdcState { base: bases[2], count: 0 },
            }),
        }
    } else {
        SphereState::Node {
            vdc: VdcState { base: bases[0], count: 0 },
            dim: n,
            inner: Box::new(build_view_s((n - 1) as nat, bases.subrange(1, bases.len() as int))),
        }
    }
}

/// A freshly built state is structurally valid and has the requested
/// dimension, so `lemma_sphere_pop_len` applies to every point a
/// constructed sampler emits.
pub proof fn lemma_build_wf(n: nat, bases: Seq<nat>)
    requires
        2 <= n,
        bases.len() >= n + 1,
    ensures
        sphere_state_wf(build_view_s(n, bases)),
        sphere_dim(build_view_s(n, bases)) == n,
    decreases n,
{
    if n == 2 {
        let l = build_view_s(n, bases);
        assert(l is Leaf);
        assert(sphere_state_wf(l));
    } else if n == 3 {
        let l = SphereState::Leaf {
            vphi: VdcState { base: bases[1], count: 0 },
            vtheta: VdcState { base: bases[2], count: 0 },
        };
        assert(build_view_s(n, bases) == SphereState::Node {
            vdc: VdcState { base: bases[0], count: 0 },
            dim: 3,
            inner: Box::new(l),
        });
        assert(sphere_state_wf(l));
    } else {
        lemma_build_wf((n - 1) as nat, bases.subrange(1, bases.len() as int));
    }
}

/// Rewinding after any number of pops is the same as rewinding the
/// fresh state: `reseed` erases history (reseed idempotence).
pub proof fn lemma_reseed_erases_steps(v: SphereState, seed: nat)
    ensures
        sphere_reseed_s(sphere_step_s(v), seed) == sphere_reseed_s(v, seed),
    decreases v,
{
    match v {
        SphereState::Leaf { .. } => {},
        SphereState::Node { vdc, dim, inner } => {
            lemma_reseed_erases_steps(*inner, seed);
        },
    }
}

/// Reseed idempotence: `reseed(s); pop` and `reseed(s); pop; reseed(s);
/// pop` produce the same point, because the rewound state — and with it
/// the emitted point — does not depend on how many pops came before.
pub proof fn lemma_reseed_idempotent(v: SphereState, seed: nat)
    ensures
        sphere_pop_s(sphere_reseed_s(sphere_step_s(v), seed))
            == sphere_pop_s(sphere_reseed_s(v, seed)),
{
    lemma_reseed_erases_steps(v, seed);
}

/// Two sampler states that coincide after a rewind to one seed
/// coincide after a rewind to every seed: their bases and structure
/// agree, so — `pop` and `reseed` being functions of the state — the
/// two samplers emit identical sequences from any common seed. This is
/// the equivalence of the open-dispatch and closed-variant strategies,
/// whose constructors build the same state from the same bases.
pub proof fn lemma_strategy_equivalence(a: SphereState, b: SphereState, s1: nat, s2: nat)
    requires
        sphere_reseed_s(a, s1) == sphere_reseed_s(b, s1),
    ensures
        sphere_reseed_s(a, s2) == sphere_reseed_s(b, s2),
    decreases a,
{
    match a {
        SphereState::Leaf { .. } => {
            match b {
                SphereState::Leaf { .. } => {},
                SphereState::Node { .. } => {},
            }
        },
        SphereState::Node { vdc: va, dim: da, inner: ia } => {
            match b {
                SphereState::Leaf { .. } => {},
                SphereState::Node { vdc: vb, dim: db, inner: ib } => {
                    lemma_strategy_equivalence(*ia, *ib, s1, s2);
                },
            }
        },
    }
}

/// The sequence of the first `k` points a state emits.
pub open spec fn sphere_stream_s(v: SphereState, k: nat) -> Seq<Seq<int>>
    decreases k,
{
    if k == 0 {
        Seq::empty()
    } else {
        seq![sphere_pop_s(v)] + sphere_stream_s(sphere_step_s(v), (k - 1) as nat)
    }
}

/// Strategy equivalence, stated over whole sequences: two samplers that
/// coincide after a rewind to one seed emit identical point sequences
/// of every length from every common seed.
pub proof fn lemma_equal_seeded_streams(a: SphereState, b: SphereState, s1: nat, s2: nat, k: nat)
    requires
        sphere_reseed_s(a, s1) == sphere_reseed_s(b, s1),
    ensures
        sphere_stream_s(sphere_reseed_s(a, s2), k) == sphere_stream_s(sphere_reseed_s(b, s2), k),
{
    lemma_strategy_equivalence(a, b, s1, s2);
}

/// The domain grid held as a vector.
pub open spec fn grid_wf(s: Seq<i64>) -> bool {
    &&& s.len() == 300
    &&& forall|i: int| 0 <= i < 300 ==> #[trigger] s[i] == grid_s(i)
}

/// The bases as mathematical values.
pub open spec fn bases_nat(s: Seq<usize>) -> Seq<nat> {
    s.map_values(|b: usize| b as nat)
}

/// All bases are meaningful and bounded (machine limit).
pub open spec fn bases_ok(s: Seq<usize>) -> bool {
    forall|i: int| 0 <= i < s.len() ==> 2 <= #[trigger] s[i] <= BASE_MAX
}

/// Scale every coordinate by `s` and append `c`.
pub(crate) fn scale_append(v: Vec<i64>, s: i64, c: i64) -> (r: Vec<i64>)
    requires
        -SCALE <= s <= SCALE,
        -SCALE <= c <= SCALE,
        forall|j: int| 0 <= j < v@.len() ==> -SCALE <= #[trigger] v@[j] <= SCALE,
    ensures
        ints(r@) == ints(v@).map_values(|x: int| fxmul_s(x, s as int)).push(c as int),
        r@.len() == v@.len() + 1,
        forall|j: int| 0 <= j < r@.len() ==> -SCALE <= #[trigger] r@[j] <= SCALE,
{
    let ghost orig = v@;
    let mut v = v;
    let mut i: usize = 0;
    while i < v.len()
        invariant
            v@.len() == orig.len(),
            i <= v@.len(),
            -SCALE <= s <= SCALE,
            forall|j: int| 0 <= j < orig.len() ==> -SCALE <= #[trigger] orig[j] <= SCALE,
            forall|j: int| i <= j < v@.len() ==> #[trigger] v@[j] == orig[j],
            forall|j: int| 0 <= j < i ==> #[trigger] v@[j] == fxmul_s(orig[j] as int, s as int),
            forall|j: int| 0 <= j < i ==> -SCALE <= #[trigger] v@[j] <= SCALE,
        decreases v@.len() - i,
    {
        let x = v[i];
        proof {
            lemma_fxmul_bound(x as int, s as int, SCALE as int, SCALE as int);
            vstd::arithmetic::div_mod::lemma_div_multiples_vanish(SCALE as int, SCALE as int);
        }
        let y = fxmul(x, s);
        v.set(i, y);
        i = i + 1;
    }
    v.push(c);
    proof {
        assert(ints(v@) =~= ints(orig).map_values(|x: int| fxmul_s(x, s as int)).push(c as int));
    }
    v
}

/// Draw the polar angle of one composite level: advance the cursor,
/// map its draw into the table's range, invert the table, and return
/// the sine and cosine of the resulting angle.
fn node_draw(vdc: &mut VdCorput, tp: &Vec<i64>, x: &Vec<i64>, Ghost(dm): Ghost<nat>)
    -> (sc: (i64, i64))
    requires
        old(vdc).wf(),
        old(vdc)@.count + 1 <= COUNT_MAX,
        table_matches(tp@, dm),
        grid_wf(x@),
    ensures
        final(vdc).wf(),
        final(vdc)@ == vdc_step(old(vdc)@),
        sc.0 == sin_fx_s(node_angle_s(dm, old(vdc)@)),
        sc.1 == cos_fx_s(node_angle_s(dm, old(vdc)@)),
        -SCALE <= sc.0 <= SCALE,
        -SCALE <= sc.1 <= SCALE,
{
    proof {
        lemma_table_bound(dm);
    }
    let u = vdc.pop();
    let t0 = tp[0];
    let tlast = tp[299];
    let range = tlast - t0;
    proof {
        lemma_fxmul_bound(range as int, u as int, 2 * (PI_FX as int), SCALE as int);
        assert(2 * (PI_FX as int) * (SCALE as int) / (SCALE as int) == 2 * (PI_FX as int)) by {
            vstd::arithmetic::div_mod::lemma_div_multiples_vanish(2 * (PI_FX as int),
                SCALE as int);
        };
    }
    let dt = fxmul(range, u);
    let ti = t0 + dt;
    proof {
        assert(ints(tp@) =~= table_seq(dm));
        assert(ints(x@) =~= grid_seq());
        assert forall|j: int| 0 <= j < grid_seq().len() implies
            0 <= #[trigger] grid_seq()[j] <= PI_FX as int by {
            lemma_grid_range(j);
        };
    }
    let xi = interpolate(tp, x, ti);
    proof {
        lemma_interp_range(table_seq(dm), grid_seq(), ti as int, 0, PI_FX as int);
        reveal(node_angle_s);
        assert(xi == node_angle_s(dm, old(vdc)@));
    }
    let s = sin_fx(xi);
    let c = cos_fx(xi);
    (s, c)
}

/// The capability interface of a sphere sampler: emit the next point,
/// rewind, and expose the level's cumulative table.
pub trait SphereGen {
    /// The chain-of-cursors state of the generator.
    spec fn view(&self) -> SphereState;

    /// Structural validity.
    spec fn wf(&self) -> bool;

    /// The sphere dimension: points have `dimension() + 1` coordinates.
    fn dimension(&self) -> (d: usize)
        requires
            self.wf(),
        ensures
            d == sphere_dim(self.view()),
    ;

    /// The next point: exactly `sphere_pop_s` of the current state,
    /// advancing every cursor once.
    fn pop_vec(&mut self) -> (r: Vec<i64>)
        requires
            old(self).wf(),
            sphere_counts_ok(old(self).view()),
        ensures
            final(self).wf(),
            final(self).view() == sphere_step_s(old(self).view()),
            ints(r@) == sphere_pop_s(old(self).view()),
            r@.len() == sphere_dim(old(self).view()) + 1,
            forall|j: int| 0 <= j < r@.len() ==> -SCALE <= #[trigger] r@[j] <= SCALE,
    ;

    /// Rewind every cursor in the chain to `seed`.
    fn reseed(&mut self, seed: usize)
        requires
            old(self).wf(),
        ensures
            final(self).wf(),
            final(self).view() == sphere_reseed_s(old(self).view(), seed as nat),
    ;

    /// The cumulative table this level inverts.
    fn get_tp(&self) -> (t: &Vec<i64>)
        requires
            self.wf(),
        ensures
            table_matches(t@, (sphere_dim(self.view()) - 1) as nat),
    ;
}

/// The dimension-3 sampler: one composite level over the 2-sphere
/// base generator, inverting the order-2 cumulative table.
pub struct Sphere3 {
    vdc: VdCorput,
    sphere2: Sphere2,
    tp: Vec<i64>,
    x: Vec<i64>,
}

impl Sphere3 {
    /// Structural validity.
    pub closed spec fn wf_inner(&self) -> bool {
        &&& self.vdc.wf()
        &&& self.sphere2.wf()
        &&& table_matches(self.tp@, 2)
        &&& grid_wf(self.x@)
    }

    pub closed spec fn view_inner(&self) -> SphereState {
        SphereState::Node {
            vdc: self.vdc@,
            dim: 3,
            inner: Box::new(SphereState::Leaf {
                vphi: self.sphere2@.vphi,
                vtheta: self.sphere2@.vtheta,
            }),
        }
    }

    /// Build a dimension-3 sampler from the first three bases: one for
    /// this level's cursor, two for the 2-sphere base generator.
    /// Fails exactly when fewer than three bases are supplied.
    pub fn new(base: &[usize], cache: &mut CdfTableCache) -> (r: Result<Sphere3, ErrorKind>)
        requires
            old(cache).wf(),
            bases_ok(base@),
        ensures
            final(cache).wf(),
            base@.len() < 3 <==> r is Err,
            r is Err ==> r->Err_0 == ErrorKind::InvalidDimension,
            r is Ok ==> (r->Ok_0).wf() && (r->Ok_0).view()
                == build_view_s(3, bases_nat(base@)),
    {
        if base.len() < 3 {
            return Err(ErrorKind::InvalidDimension);
        }
        let vdc = VdCorput::new(base[0] as u64);
        let sphere2 = Sphere2::new(base[1] as u64, base[2] as u64);
        let x = cache.domain_grid();
        let tp = match cache.get_table(2) {
            Ok(t) => t,
            Err(e) => {
                // unreachable: the arguments were already validated
                proof {
                    assert(false);
                }
                return Err(e);
            },
        };
        let r = Sphere3 { vdc, sphere2, tp, x };
        proof {
            let bs = bases_nat(base@);
            assert(bs[0] == base@[0] as nat && bs[1] == base@[1] as nat
                && bs[2] == base@[2] as nat);
            assert(build_view_s(3, bs) == SphereState::Node {
                vdc: VdcState { base: bs[0], count: 0 },
                dim: 3,
                inner: Box::new(SphereState::Leaf {
                    vphi: VdcState { base: bs[1], count: 0 },
                    vtheta: VdcState { base: bs[2], count: 0 },
                }),
            });
            assert(r.view() == build_view_s(3, bs));
        }
        Ok(r)
    }

    /// The next point on the unit 3-sphere, with four coordinates.
    #[verifier::rlimit(100)]
    pub fn pop(&mut self) -> (r: Vec<i64>)
        requires
            old(self).wf(),
            sphere_counts_ok(old(self).view()),
        ensures
            final(self).wf(),
            final(self).view() == sphere_step_s(old(self).view()),
            ints(r@) == sphere_pop_s(old(self).view()),
            r@.len() == 4,
            forall|j: int| 0 <= j < r@.len() ==> -SCALE <= #[trigger] r@[j] <= SCALE,
    {
        proof {
            let l = SphereState::Leaf {
                vphi: old(self).sphere2@.vphi,
                vtheta: old(self).sphere2@.vtheta,
            };
            lemma_node_counts(old(self).vdc@, 3, l);
            assert(sphere_counts_ok(l));
        }
        let sc = node_draw(&mut self.vdc, &self.tp, &self.x, Ghost(2nat));
        let inner = self.sphere2.pop();
        let r = scale_append(inner, sc.0, sc.1);
        proof {
            let l = SphereState::Leaf {
                vphi: old(self).sphere2@.vphi,
                vtheta: old(self).sphere2@.vtheta,
            };
            assert(ints(inner@) == sphere_pop_s(l));
            lemma_node_pop(old(self).vdc@, 3, l, ints(r@), ints(inner@),
                sc.0 as int, sc.1 as int);
            lemma_node_step(old(self).vdc@, 3, l);
            assert(self.view_inner() == sphere_step_s(old(self).view_inner()));
        }
        r
    }
}

impl SphereGen for Sphere3 {
    closed spec fn view(&self) -> SphereState {
        self.view_inner()
    }

    closed spec fn wf(&self) -> bool {
        self.wf_inner()
    }

    fn dimension(&self) -> (d: usize) {
        3
    }

    fn pop_vec(&mut self) -> (r: Vec<i64>) {
        self.pop()
    }

    fn reseed(&mut self, seed: usize) {
        self.vdc.reseed(seed as u64);
        self.sphere2.reseed(seed as u64);
        proof {
            let l = SphereState::Leaf {
                vphi: old(self).sphere2@.vphi,
                vtheta: old(self).sphere2@.vtheta,
            };
            assert(sphere_reseed_s(l, seed as nat) == SphereState::Leaf {
                vphi: vdc_seeded(old(self).sphere2@.vphi, seed as nat),
                vtheta: vdc_seeded(old(self).sphere2@.vtheta, seed as nat),
            });
            assert(self.view_inner() == sphere_reseed_s(old(self).view_inner(), seed as nat));
        }
    }

    fn get_tp(&self) -> (t: &Vec<i64>) {
        &self.tp
    }
}

/// The closed recursion: the inner sampler of a composite level is the
/// 2-sphere base generator, the dimension-3 sampler, or a smaller
/// composite.
pub enum SphereVariant {
    ForS2(Box<Sphere2>),
    ForS3(Box<Sphere3>),
    ForSn(Box<SphereN>),
}

/// The chain state an inner variant stands for.
pub closed spec fn variant_view(v: SphereVariant) -> SphereState
    decreases v,
{
    match v {
        SphereVariant::ForS2(s2) => SphereState::Leaf {
            vphi: s2@.vphi,
            vtheta: s2@.vtheta,
        },
        SphereVariant::ForS3(s3) => s3.view_inner(),
        SphereVariant::ForSn(sn) => sn.view_inner(),
    }
}

/// The n-sphere sampler (closed-variant composition). Dimension
/// `n == 2` is the terminal 2-sphere generator itself; each dimension
/// above it adds one cursor and one cumulative table.
pub struct SphereN {
    n: usize,
    vdc: VdCorput,
    tp: Vec<i64>,
    x: Vec<i64>,
    s_gen: SphereVariant,
}

impl SphereN {
    pub closed spec fn wf_inner(&self) -> bool
        decreases self,
    {
        &&& 2 <= self.n <= DIM_MAX
        &&& self.vdc.wf()
        &&& grid_wf(self.x@)
        &&& table_matches(self.tp@, (self.n - 1) as nat)
        &&& match self.s_gen {
            SphereVariant::ForS2(s2) => (self.n == 2 || self.n == 3) && s2.wf(),
            SphereVariant::ForS3(s3) => self.n == 4 && s3.wf(),
            SphereVariant::ForSn(sn) => self.n >= 5 && sn.n + 1 == self.n && sn.wf_inner(),
        }
    }

    pub closed spec fn view_inner(&self) -> SphereState
        decreases self,
    {
        if self.n == 2 {
            variant_view(self.s_gen)
        } else {
            SphereState::Node {
                vdc: self.vdc@,
                dim: self.n as nat,
                inner: Box::new(variant_view(self.s_gen)),
            }
        }
    }

    /// Build an n-sphere sampler over the given bases, fetching each
    /// level's table from the injected cache. Fails exactly when the
    /// dimension is below two or fewer than `n + 1` bases are supplied.
    pub fn new(n: usize, base: &[usize], cache: &mut CdfTableCache)
        -> (r: Result<SphereN, ErrorKind>)
        requires
            old(cache).wf(),
            bases_ok(base@),
            n <= DIM_MAX,
        ensures
            final(cache).wf(),
            (n < 2 || base@.len() < n + 1) <==> r is Err,
            r is Err ==> r->Err_0 == ErrorKind::InvalidDimension,
            r is Ok ==> (r->Ok_0).wf() && (r->Ok_0).view()
                == build_view_s(n as nat, bases_nat(base@))
                && sphere_dim((r->Ok_0).view()) == n,
        decreases n,
    {
        if n < 2 || base.len() < n + 1 {
            return Err(ErrorKind::InvalidDimension);
        }
        let vdc = VdCorput::new(base[0] as u64);
        let x = cache.domain_grid();
        let tp = match cache.get_table((n - 1) as i64) {
            Ok(t) => t,
            Err(e) => {
                // unreachable: the arguments were already validated
                proof {
                    assert(false);
                }
                return Err(e);
            },
        };
        if n <= 3 {
            let s2 = Sphere2::new(base[1] as u64, base[2] as u64);
            let r = SphereN { n, vdc, tp, x, s_gen: SphereVariant::ForS2(Box::new(s2)) };
            proof {
                let bs = bases_nat(base@);
                assert(bs[0] == base@[0] as nat && bs[1] == base@[1] as nat
                    && bs[2] == base@[2] as nat);
                if n == 2 {
                    assert(build_view_s(2, bs) == SphereState::Leaf {
                        vphi: VdcState { base: bs[1], count: 0 },
                        vtheta: VdcState { base: bs[2], count: 0 },
                    });
                } else {
                    assert(build_view_s(3, bs) == SphereState::Node {
                        vdc: VdcState { base: bs[0], count: 0 },
                        dim: 3,
                        inner: Box::new(SphereState::Leaf {
                            vphi: VdcState { base: bs[1], count: 0 },
                            vtheta: VdcState { base: bs[2], count: 0 },
                        }),
                    });
                }
                assert(r.view_inner() == build_view_s(n as nat, bs));
            }
            Ok(r)
        } else if n == 4 {
            let sub = vstd::slice::slice_subrange(base, 1, base.len());
            let s3 = match Sphere3::new(sub, cache) {
                Ok(s) => s,
                Err(e) => {
                    // unreachable: the inner slice is long enough
                    proof {
                        assert(false);
                    }
                    return Err(e);
                },
            };
            let r = SphereN { n, vdc, tp, x, s_gen: SphereVariant::ForS3(Box::new(s3)) };
            proof {
                let bs = bases_nat(base@);
                assert(bases_nat(sub@) =~= bs.subrange(1, base@.len() as int));
                assert(build_view_s(4, bs) == SphereState::Node {
                    vdc: VdcState { base: bs[0], count: 0 },
                    dim: 4,
                    inner: Box::new(build_view_s(3, bs.subrange(1, base@.len() as int))),
                });
                assert(r.view_inner() == build_view_s(n as nat, bs));
            }
            Ok(r)
        } else {
            let sub = vstd::slice::slice_subrange(base, 1, base.len());
            let sn = match SphereN::new(n - 1, sub, cache) {
                Ok(s) => s,
                Err(e) => {
                    // unreachable: the inner slice is long enough
                    proof {
                        assert(false);
                    }
                    return Err(e);
                },
            };
            let r = SphereN { n, vdc, tp, x, s_gen: SphereVariant::ForSn(Box::new(sn)) };
            proof {
                let bs = bases_nat(base@);
                assert(bases_nat(sub@) =~= bs.subrange(1, base@.len() as int));
                assert(build_view_s(n as nat, bs) == SphereState::Node {
                    vdc: VdcState { base: bs[0], count: 0 },
                    dim: n as nat,
                    inner: Box::new(build_view_s((n - 1) as nat, bs.subrange(1, base@.len() as int))),
                });
                assert(r.view_inner() == build_view_s(n as nat, bs));
            }
            Ok(r)
        }
    }

    /// The next point, with `n + 1` coordinates.
    #[verifier::rlimit(100)]
    pub fn pop_vec(&mut self) -> (r: Vec<i64>)
        requires
            old(self).wf_inner(),
            sphere_counts_ok(old(self).view_inner()),
        ensures
            final(self).wf_inner(),
            final(self).view_inner() == sphere_step_s(old(self).view_inner()),
            ints(r@) == sphere_pop_s(old(self).view_inner()),
            r@.len() == sphere_dim(old(self).view_inner()) + 1,
            forall|j: int| 0 <= j < r@.len() ==> -SCALE <= #[trigger] r@[j] <= SCALE,
        decreases *old(self),
    {
        if self.n == 2 {
            match &mut self.s_gen {
                SphereVariant::ForS2(s2) => {
                    let r = s2.pop();
                    proof {
                        assert(ints(r@) =~= sphere_pop_s(old(self).view_inner()));
                    }
                    r
                },
                SphereVariant::ForS3(s3) => {
                    // unreachable: a dimension-2 sampler wraps the leaf
                    proof {
                        assert(false);
                    }
                    s3.pop()
                },
                SphereVariant::ForSn(sn) => {
                    // unreachable: a dimension-2 sampler wraps the leaf
                    proof {
                        assert(false);
                    }
                    sn.pop_vec()
                },
            }
        } else {
            let ghost dm = (self.n - 1) as nat;
            proof {
                let iv = variant_view(old(self).s_gen);
                lemma_node_counts(old(self).vdc@, old(self).n as nat, iv);
                assert(sphere_counts_ok(iv));
                if iv is Leaf {
                    assert(iv->Leaf_vphi.count + 1 <= COUNT_MAX
                        && iv->Leaf_vtheta.count + 1 <= COUNT_MAX);
                }
            }
            let sc = node_draw(&mut self.vdc, &self.tp, &self.x, Ghost(dm));
            let inner = match &mut self.s_gen {
                SphereVariant::ForS2(s2) => s2.pop(),
                SphereVariant::ForS3(s3) => s3.pop(),
                SphereVariant::ForSn(sn) => sn.pop_vec(),
            };
            let r = scale_append(inner, sc.0, sc.1);
            proof {
                let iv = variant_view(old(self).s_gen);
                assert(ints(inner@) == sphere_pop_s(iv));
                lemma_node_pop(old(self).vdc@, old(self).n as nat, iv, ints(r@), ints(inner@),
                    sc.0 as int, sc.1 as int);
                lemma_node_step(old(self).vdc@, old(self).n as nat, iv);
                assert(variant_view(self.s_gen) == sphere_step_s(iv));
                assert(self.view_inner() == sphere_step_s(old(self).view_inner()));
            }
            r
        }
    }

    /// Rewind every cursor in the chain to `seed`.
    pub fn reseed(&mut self, seed: usize)
        requires
            old(self).wf_inner(),
        ensures
            final(self).wf_inner(),
            final(self).view_inner() == sphere_reseed_s(old(self).view_inner(), seed as nat),
        decreases *old(self),
    {
        self.vdc.reseed(seed as u64);
        match &mut self.s_gen {
            SphereVariant::ForS2(s2) => {
                s2.reseed(seed as u64);
            },
            SphereVariant::ForS3(s3) => {
                SphereGen::reseed(&mut **s3, seed);
            },
            SphereVariant::ForSn(sn) => {
                sn.reseed(seed);
            },
        }
        proof {
            let oldl = variant_view(old(self).s_gen);
            assert(variant_view(self.s_gen) == sphere_reseed_s(oldl, seed as nat)) by {
                match old(self).s_gen {
                    SphereVariant::ForS2(s2) => {
                        assert(sphere_reseed_s(oldl, seed as nat) == SphereState::Leaf {
                            vphi: vdc_seeded(s2@.vphi, seed as nat),
                            vtheta: vdc_seeded(s2@.vtheta, seed as nat),
                        });
                    },
                    SphereVariant::ForS3(_) => {},
                    SphereVariant::ForSn(_) => {},
                }
            };
            assert(self.view_inner() == sphere_reseed_s(old(self).view_inner(), seed as nat));
        }
    }

    /// This level's cumulative table.
    pub fn get_tp(&self) -> (t: &Vec<i64>)
        requires
            self.wf_inner(),
        ensures
            table_matches(t@, (sphere_dim(self.view_inner()) - 1) as nat),
    {
        &self.tp
    }

    /// The inner level's cumulative table, where the inner sampler is a
    /// composite; the terminal 2-sphere generator holds none.
    pub fn get_tp_minus1(&self) -> (t: Option<&Vec<i64>>)
        requires
            self.wf_inner(),
        ensures
            match t {
                Some(tv) => sphere_dim(self.view_inner()) >= 4
                    && table_matches(tv@, (sphere_dim(self.view_inner()) - 2) as nat),
                None => sphere_dim(self.view_inner()) <= 3,
            },
    {
        match &self.s_gen {
            SphereVariant::ForS2(_) => None,
            SphereVariant::ForS3(s3) => Some(s3.get_tp()),
            SphereVariant::ForSn(sn) => Some(sn.get_tp()),
        }
    }
}

/// The open-dispatch composition strategy: one composite level over
/// any generator that offers the `SphereGen` capability interface. A
/// chain of these built from the same dimension and bases as a
/// `SphereN` has the same state, and therefore — `pop` and `reseed`
/// being functions of the state — emits the same sequence.
pub struct SphereChain<G: SphereGen> {
    n: usize,
    vdc: VdCorput,
    tp: Vec<i64>,
    x: Vec<i64>,
    inner: G,
}

impl<G: SphereGen> SphereChain<G> {
    /// Wrap one more composite level around a conforming generator.
    pub fn new(base: usize, inner: G, cache: &mut CdfTableCache) -> (r: SphereChain<G>)
        requires
            old(cache).wf(),
            2 <= base <= BASE_MAX,
            inner.wf(),
            2 <= sphere_dim(inner.view()),
            sphere_dim(inner.view()) + 2 <= DIM_MAX,
        ensures
            final(cache).wf(),
            r.wf(),
            r.view() == (SphereState::Node {
                vdc: VdcState { base: base as nat, count: 0 },
                dim: sphere_dim(inner.view()) + 1,
                inner: Box::new(inner.view()),
            }),
    {
        let d = inner.dimension();
        let vdc = VdCorput::new(base as u64);
        let x = cache.domain_grid();
        let tp = match cache.get_table(d as i64) {
            Ok(t) => t,
            Err(_) => {
                // unreachable: the order is non-negative and bounded
                proof {
                    assert(false);
                }
                Vec::new()
            },
        };
        SphereChain { n: d + 1, vdc, tp, x, inner }
    }
}

impl<G: SphereGen> SphereGen for SphereChain<G> {
    closed spec fn view(&self) -> SphereState {
        SphereState::Node {
            vdc: self.vdc@,
            dim: self.n as nat,
            inner: Box::new(self.inner.view()),
        }
    }

    closed spec fn wf(&self) -> bool {
        &&& 3 <= self.n <= DIM_MAX
        &&& self.n == sphere_dim(self.inner.view()) + 1
        &&& self.vdc.wf()
        &&& grid_wf(self.x@)
        &&& table_matches(self.tp@, (self.n - 1) as nat)
        &&& self.inner.wf()
    }

    fn dimension(&self) -> (d: usize) {
        self.n
    }

    fn pop_vec(&mut self) -> (r: Vec<i64>) {
        let ghost dm = (self.n - 1) as nat;
        proof {
            lemma_node_counts(old(self).vdc@, old(self).n as nat, old(self).inner.view());
        }
        let sc = node_draw(&mut self.vdc, &self.tp, &self.x, Ghost(dm));
        let inner = self.inner.pop_vec();
        let r = scale_append(inner, sc.0, sc.1);
        proof {
            let iv = old(self).inner.view();
            lemma_node_pop(old(self).vdc@, old(self).n as nat, iv, ints(r@), ints(inner@),
                sc.0 as int, sc.1 as int);
            lemma_node_step(old(self).vdc@, old(self).n as nat, iv);
            assert(self.view() == sphere_step_s(old(self).view()));
        }
        r
    }

    fn reseed(&mut self, seed: usize) {
        self.vdc.reseed(seed as u64);
        self.inner.reseed(seed);
        proof {
            assert(self.view() == sphere_reseed_s(old(self).view(), seed as nat));
        }
    }

    fn get_tp(&self) -> (t: &Vec<i64>) {
        &self.tp
    }
}

impl SphereGen for SphereN {
    closed spec fn view(&self) -> SphereState {
        self.view_inner()
    }

    closed spec fn wf(&self) -> bool {
        self.wf_inner()
    }

    fn dimension(&self) -> (d: usize) {
        self.n
    }

    fn pop_vec(&mut self) -> (r: Vec<i64>) {
        self.pop_vec()
    }

    fn reseed(&mut self, seed: usize) {
        self.reseed(seed);
    }

    fn get_tp(&self) -> (t: &Vec<i64>) {
        self.get_tp()
    }
}

} // verus!
