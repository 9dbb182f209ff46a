//! Recursive n-cylinder samplers (cylindrical coordinate method).
//!
//! A sampler of dimension `n >= 2` emits points with `n + 1`
//! coordinates. Each level maps its cursor draw linearly onto
//! `[-1, 1]` as the cosine of its angle — the cylindrical embedding's
//! height coordinate is already uniform, so no cumulative table is
//! needed — scales the inner point by the matching sine and appends
//! the cosine. The terminal case is the unit-circle generator.
//!
//! For dimensions above two this intentionally samples a different
//! (cheaper, non-uniform with respect to surface measure) distribution
//! than the sphere sampler; it is a distinct method, not an
//! approximation of it.

use vstd::prelude::*;

verus! {

use crate::errors::ErrorKind;
use crate::fixed::{SCALE, fxmul_s, ints};
use crate::lds::{Circle, circle_pop_s};
use crate::sphere_n::scale_append;
use crate::trig::{floor_sqrt, isqrt, lemma_floor_sqrt_le};
use crate::vdc::{VdCorput, VdcState, vdc_fx, BASE_MAX, COUNT_MAX};

/// The mathematical state of a cylinder sampler: its chain of cursors,
/// with each composite level's dimension.
pub enum CylindState {
    Leaf { v: VdcState },
    Node { vdc: VdcState, dim: nat, inner: Box<CylindState> },
}

/// The dimension a state samples: points have `dim + 1` coordinates.
/// The terminal circle is the dimension-1 case.
pub open spec fn cylind_dim(v: CylindState) -> nat {
    match v {
        CylindState::Leaf { .. } => 1,
        CylindState::Node { dim, .. } => dim,
    }
}

/// Every cursor advanced once: the state change of one `pop`.
pub open spec fn cylind_step_s(v: CylindState) -> CylindState
    decreases v,
{
    match v {
        CylindState::Leaf { v } => CylindState::Leaf {
            v: crate::sphere_n::vdc_step(v),
        },
        CylindState::Node { vdc, dim, inner } => CylindState::Node {
            vdc: crate::sphere_n::vdc_step(vdc),
            dim,
            inner: Box::new(cylind_step_s(*inner)),
        },
    }
}

/// Every cursor rewound to `seed`: the state change of `reseed`.
pub open spec fn cylind_reseed_s(v: CylindState, seed: nat) -> CylindState
    decreases v,
{
    match v {
        CylindState::Leaf { v } => CylindState::Leaf {
            v: crate::sphere_n::vdc_seeded(v, seed),
        },
        CylindState::Node { vdc, dim, inner } => CylindState::Node {
            vdc: crate::sphere_n::vdc_seeded(vdc, seed),
            dim,
            inner: Box::new(cylind_reseed_s(*inner, seed)),
        },
    }
}

/// Every cursor has room to advance (machine limit).
pub open spec fn cylind_counts_ok(v: CylindState) -> bool
    decreases v,
{
    match v {
        CylindState::Leaf { v } => v.count + 1 <= COUNT_MAX,
        CylindState::Node { vdc, inner, .. } =>
            vdc.count + 1 <= COUNT_MAX && cylind_counts_ok(*inner),
    }
}

/// The height cosine a level draws: its cursor draw mapped linearly
/// onto `[-1, 1]`.
pub open spec fn cylind_cos_s(v: VdcState) -> int {
    2 * vdc_fx(v.count + 1, v.base) - SCALE
}

/// The matching sine: `sqrt(1 - cos²)`.
pub open spec fn cylind_sin_s(v: VdcState) -> int {
    let c = cylind_cos_s(v);
    floor_sqrt((SCALE as int) * (SCALE as int) - c * c)
}

/// The point one `pop` emits from a given state.
pub open spec fn cylind_pop_s(v: CylindState) -> Seq<int>
    decreases v,
{
    match v {
        CylindState::Leaf { v } => circle_pop_s(v),
        CylindState::Node { vdc, dim, inner } => {
            cylind_pop_s(*inner).map_values(|x: int| fxmul_s(x, cylind_sin_s(vdc))).push(
                cylind_cos_s(vdc))
        },
    }
}

/// Structural validity of a state: each composite level has dimension
/// one above its inner sampler, terminating in the dimension-1 circle.
pub open spec fn cylind_state_wf(v: CylindState) -> bool
    decreases v,
{
    match v {
        CylindState::Leaf { .. } => true,
        CylindState::Node { dim, inner, .. } =>
            dim == cylind_dim(*inner) + 1 && 2 <= dim && cylind_state_wf(*inner),
    }
}

/// A `pop` returns one coordinate more than the dimension.
pub proof fn lemma_cylind_pop_len(v: CylindState)
    requires
        cylind_state_wf(v),
    ensures
        cylind_pop_s(v).len() == cylind_dim(v) + 1,
    decreases v,
{
    match v {
        CylindState::Leaf { v } => {
            assert(cylind_pop_s(CylindState::Leaf { v }) == circle_pop_s(v));
        },
        CylindState::Node { vdc, dim, inner } => {
            lemma_cylind_pop_len(*inner);
        },
    }
}

/// One composite step of `cylind_pop_s`, as an explicit equation.
pub proof fn lemma_cylind_node_pop(vdc: VdcState, dim: nat, iv: CylindState, rr: Seq<int>,
    ir: Seq<int>, s: int, c: int)
    requires
        ir == cylind_pop_s(iv),
        s == cylind_sin_s(vdc),
        c == cylind_cos_s(vdc),
        rr == ir.map_values(|x: int| fxmul_s(x, s)).push(c),
    ensures
        rr == cylind_pop_s(CylindState::Node { vdc, dim, inner: Box::new(iv) }),
{
    let v = CylindState::Node { vdc, dim, inner: Box::new(iv) };
    assert(cylind_pop_s(v) == cylind_pop_s(iv).map_values(
        |x: int| fxmul_s(x, cylind_sin_s(vdc)),
    ).push(cylind_cos_s(vdc)));
    assert(rr =~= cylind_pop_s(v));
}

/// One composite step of `cylind_step_s`, as an explicit equation.
pub proof fn lemma_cylind_node_step(vdc: VdcState, dim: nat, iv: CylindState)
    ensures
        cylind_step_s(CylindState::Node { vdc, dim, inner: Box::new(iv) })
            == (CylindState::Node {
            vdc: crate::sphere_n::vdc_step(vdc),
            dim,
            inner: Box::new(cylind_step_s(iv)),
        }),
{
}

/// One composite step of `cylind_counts_ok`, as an explicit equation.
pub proof fn lemma_cylind_node_counts(vdc: VdcState, dim: nat, iv: CylindState)
    ensures
        cylind_counts_ok(CylindState::Node { vdc, dim, inner: Box::new(iv) })
            == (vdc.count + 1 <= COUNT_MAX && cylind_counts_ok(iv)),
{
}

/// Rewinding after any number of pops is the same as rewinding the
/// fresh state: `reseed` erases history.
pub proof fn lemma_cylind_reseed_erases_steps(v: CylindState, seed: nat)
    ensures
        cylind_reseed_s(cylind_step_s(v), seed) == cylind_reseed_s(v, seed),
    decreases v,
{
    match v {
        CylindState::Leaf { .. } => {},
        CylindState::Node { vdc, dim, inner } => {
            lemma_cylind_reseed_erases_steps(*inner, seed);
        },
    }
}

/// Reseed idempotence for the cylinder sampler: after rewinding to a
/// seed, the next point does not depend on how many pops came before.
pub proof fn lemma_cylind_reseed_idempotent(v: CylindState, seed: nat)
    ensures
        cylind_pop_s(cylind_reseed_s(cylind_step_s(v), seed))
            == cylind_pop_s(cylind_reseed_s(v, seed)),
{
    lemma_cylind_reseed_erases_steps(v, seed);
}

/// The freshly built state of a sampler of dimension `n` over the
/// given bases.
pub open spec fn cylind_build_s(n: nat, bases: Seq<nat>) -> CylindState
    decreases n,
{
    if n <= 2 {
        CylindState::Node {
            vdc: VdcState { base: bases[0], count: 0 },
            dim: 2,
            inner: Box::new(CylindState::Leaf {
                v: VdcState { base: bases[1], count: 0 },
            }),
        }
    } else {
        CylindState::Node {
            vdc: VdcState { base: bases[0], count: 0 },
            dim: n,
            inner: Box::new(cylind_build_s((n - 1) as nat, bases.subrange(1, bases.len() as int))),
        }
    }
}

/// A freshly built state is structurally valid and has the requested
/// dimension, so `lemma_cylind_pop_len` applies to every point a
/// constructed sampler emits.
pub proof fn lemma_cylind_build_wf(n: nat, bases: Seq<nat>)
    requires
        2 <= n,
        bases.len() >= n,
    ensures
        cylind_state_wf(cylind_build_s(n, bases)),
        cylind_dim(cylind_build_s(n, bases)) == n,
    decreases n,
{
    if n <= 2 {
        let l = CylindState::Leaf { v: VdcState { base: bases[1], count: 0 } };
        assert(cylind_build_s(n, bases) == CylindState::Node {
            vdc: VdcState { base: bases[0], count: 0 },
            dim: 2,
            inner: Box::new(l),
        });
        assert(cylind_state_wf(l));
    } else {
        lemma_cylind_build_wf((n - 1) as nat, bases.subrange(1, bases.len() as int));
    }
}

/// The capability interface of a cylinder sampler.
pub trait CylindGen {
    /// The chain-of-cursors state of the generator.
    spec fn state(&self) -> CylindState;

    /// Structural validity.
    spec fn valid(&self) -> bool;

    /// The next point: exactly `cylind_pop_s` of the current state,
    /// advancing every cursor once.
    fn pop_vec(&mut self) -> (r: Vec<i64>)
        requires
            old(self).valid(),
            cylind_counts_ok(old(self).state()),
        ensures
            final(self).valid(),
            final(self).state() == cylind_step_s(old(self).state()),
            ints(r@) == cylind_pop_s(old(self).state()),
            r@.len() == cylind_dim(old(self).state()) + 1,
            forall|j: int| 0 <= j < r@.len() ==> -SCALE <= #[trigger] r@[j] <= SCALE,
    ;

    /// Rewind every cursor in the chain to `seed`.
    fn reseed(&mut self, seed: usize)
        requires
            old(self).valid(),
        ensures
            final(self).valid(),
            final(self).state() == cylind_reseed_s(old(self).state(), seed as nat),
    ;
}

impl CylindGen for Circle {
    closed spec fn state(&self) -> CylindState {
        CylindState::Leaf { v: View::view(self) }
    }

    closed spec fn valid(&self) -> bool {
        Circle::wf(self)
    }

    fn pop_vec(&mut self) -> (r: Vec<i64>) {
        let r = self.pop();
        proof {
            let ov = View::view(old(self));
            assert(cylind_pop_s(CylindState::Leaf { v: ov }) == circle_pop_s(ov));
        }
        r
    }

    fn reseed(&mut self, seed: usize) {
        Circle::reseed(self, seed as u64);
    }
}

/// The closed recursion: the inner sampler of a level is the circle or
/// a smaller composite.
pub enum CylindVariant {
    ForCircle(Box<Circle>),
    ForCylind(Box<CylindN>),
}

/// The chain state an inner variant stands for.
pub closed spec fn cylind_variant_view(v: CylindVariant) -> CylindState
    decreases v,
{
    match v {
        CylindVariant::ForCircle(c) => CylindState::Leaf { v: c@ },
        CylindVariant::ForCylind(cn) => cn.view_inner(),
    }
}

/// The n-cylinder sampler (closed-variant composition).
pub struct CylindN {
    n: usize,
    vdc: VdCorput,
    c_gen: CylindVariant,
}

impl CylindN {
    pub closed spec fn wf_inner(&self) -> bool
        decreases self,
    {
        &&& 2 <= self.n
        &&& self.vdc.wf()
        &&& match self.c_gen {
            CylindVariant::ForCircle(c) => self.n == 2 && c.wf(),
            CylindVariant::ForCylind(cn) => cn.n + 1 == self.n && cn.wf_inner(),
        }
    }

    pub closed spec fn view_inner(&self) -> CylindState
        decreases self,
    {
        CylindState::Node {
            vdc: self.vdc@,
            dim: self.n as nat,
            inner: Box::new(cylind_variant_view(self.c_gen)),
        }
    }

    /// Build an n-cylinder sampler over the given bases: one per level,
    /// one for the terminal circle. Fails exactly when the dimension is
    /// below two or fewer than `n` bases are supplied.
    pub fn new(n: usize, base: &[usize]) -> (r: Result<CylindN, ErrorKind>)
        requires
            crate::sphere_n::bases_ok(base@),
            n < usize::MAX,
        ensures
            (n < 2 || base@.len() < n) <==> r is Err,
            r is Err ==> r->Err_0 == ErrorKind::InvalidDimension,
            r is Ok ==> (r->Ok_0).wf_inner() && (r->Ok_0).view_inner()
                == cylind_build_s(n as nat, crate::sphere_n::bases_nat(base@))
                && cylind_dim((r->Ok_0).view_inner()) == n,
        decreases n,
    {
        if n < 2 || base.len() < n {
            return Err(ErrorKind::InvalidDimension);
        }
        let vdc = VdCorput::new(base[0] as u64);
        if n == 2 {
            let c = Circle::new(base[1] as u64);
            let r = CylindN { n, vdc, c_gen: CylindVariant::ForCircle(Box::new(c)) };
            proof {
                let bs = crate::sphere_n::bases_nat(base@);
                assert(bs[0] == base@[0] as nat && bs[1] == base@[1] as nat);
                assert(cylind_build_s(2, bs) == CylindState::Node {
                    vdc: VdcState { base: bs[0], count: 0 },
                    dim: 2,
                    inner: Box::new(CylindState::Leaf {
                        v: VdcState { base: bs[1], count: 0 },
                    }),
                });
                assert(r.view_inner() == cylind_build_s(n as nat, bs));
            }
            Ok(r)
        } else {
            let sub = vstd::slice::slice_subrange(base, 1, base.len());
            let cn = match CylindN::new(n - 1, sub) {
                Ok(c) => c,
                Err(e) => {
                    // unreachable: the inner slice is long enough
                    proof {
                        assert(false);
                    }
                    return Err(e);
                },
            };
            let r = CylindN { n, vdc, c_gen: CylindVariant::ForCylind(Box::new(cn)) };
            proof {
                let bs = crate::sphere_n::bases_nat(base@);
                assert(crate::sphere_n::bases_nat(sub@)
                    =~= bs.subrange(1, base@.len() as int));
                assert(cylind_build_s(n as nat, bs) == CylindState::Node {
                    vdc: VdcState { base: bs[0], count: 0 },
                    dim: n as nat,
                    inner: Box::new(cylind_build_s((n - 1) as nat,
                        bs.subrange(1, base@.len() as int))),
                });
                assert(r.view_inner() == cylind_build_s(n as nat, bs));
            }
            Ok(r)
        }
    }

    /// The next point, with `n + 1` coordinates.
    #[verifier::rlimit(100)]
    pub fn pop_vec(&mut self) -> (r: Vec<i64>)
        requires
            old(self).wf_inner(),
            cylind_counts_ok(old(self).view_inner()),
        ensures
            final(self).wf_inner(),
            final(self).view_inner() == cylind_step_s(old(self).view_inner()),
            ints(r@) == cylind_pop_s(old(self).view_inner()),
            r@.len() == cylind_dim(old(self).view_inner()) + 1,
            forall|j: int| 0 <= j < r@.len() ==> -SCALE <= #[trigger] r@[j] <= SCALE,
        decreases *old(self),
    {
        proof {
            let iv = cylind_variant_view(old(self).c_gen);
            lemma_cylind_node_counts(old(self).vdc@, old(self).n as nat, iv);
            assert(cylind_counts_ok(iv));
            if iv is Leaf {
                assert(iv->Leaf_v.count + 1 <= COUNT_MAX);
            }
        }
        let u = self.vdc.pop();
        let cosphi: i64 = 2 * u - SCALE;
        proof {
            let ci = cosphi as int;
            let si = SCALE as int;
            assert(0 <= ci * ci <= si * si && si * si - ci * ci <= si * si) by (nonlinear_arith)
                requires
                    -si <= ci <= si,
                    0 < si,
            ;
            assert((si * si) < 19807040628566084398385987584) by (nonlinear_arith)
                requires
                    si == 70368744177664,
            ;
        }
        let d: u128 = ((SCALE as i128) * (SCALE as i128) - (cosphi as i128) * (cosphi as i128))
            as u128;
        let sinphi_u = isqrt(d);
        proof {
            lemma_floor_sqrt_le(d as int, sinphi_u as int, SCALE as int);
        }
        let sinphi: i64 = sinphi_u as i64;
        let inner = match &mut self.c_gen {
            CylindVariant::ForCircle(c) => c.pop(),
            CylindVariant::ForCylind(cn) => cn.pop_vec(),
        };
        let r = scale_append(inner, sinphi, cosphi);
        proof {
            let iv = cylind_variant_view(old(self).c_gen);
            assert(ints(inner@) == cylind_pop_s(iv)) by {
                if iv is Leaf {
                    assert(cylind_pop_s(iv) == circle_pop_s(iv->Leaf_v));
                }
            };
            assert(sinphi == cylind_sin_s(old(self).vdc@) && cosphi == cylind_cos_s(old(self).vdc@));
            lemma_cylind_node_pop(old(self).vdc@, old(self).n as nat, iv, ints(r@), ints(inner@),
                sinphi as int, cosphi as int);
            lemma_cylind_node_step(old(self).vdc@, old(self).n as nat, iv);
            assert(cylind_variant_view(self.c_gen) == cylind_step_s(iv));
            assert(self.view_inner() == cylind_step_s(old(self).view_inner()));
        }
        r
    }

    /// Rewind every cursor in the chain to `seed`.
    pub fn reseed(&mut self, seed: usize)
        requires
            old(self).wf_inner(),
        ensures
            final(self).wf_inner(),
            final(self).view_inner() == cylind_reseed_s(old(self).view_inner(), seed as nat),
        decreases *old(self),
    {
        self.vdc.reseed(seed as u64);
        match &mut self.c_gen {
            CylindVariant::ForCircle(c) => {
                Circle::reseed(&mut **c, seed as u64);
            },
            CylindVariant::ForCylind(cn) => {
                cn.reseed(seed);
            },
        }
        proof {
            let oldl = cylind_variant_view(old(self).c_gen);
            assert(cylind_variant_view(self.c_gen) == cylind_reseed_s(oldl, seed as nat)) by {
                match old(self).c_gen {
                    CylindVariant::ForCircle(c) => {
                        assert(cylind_reseed_s(oldl, seed as nat) == CylindState::Leaf {
                            v: crate::sphere_n::vdc_seeded(c@, seed as nat),
                        });
                    },
                    CylindVariant::ForCylind(_) => {},
                }
            };
            assert(self.view_inner() == cylind_reseed_s(old(self).view_inner(), seed as nat));
        }
    }
}

impl CylindGen for CylindN {
    closed spec fn state(&self) -> CylindState {
        self.view_inner()
    }

    closed spec fn valid(&self) -> bool {
        self.wf_inner()
    }

    fn pop_vec(&mut self) -> (r: Vec<i64>) {
        self.pop_vec()
    }

    fn reseed(&mut self, seed: usize) {
        self.reseed(seed);
    }
}

} // verus!
