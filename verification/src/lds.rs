//! Base low-discrepancy generators: the unit circle, the 2-sphere
//! terminal case of the recursive composition, and a Hopf-coordinate
//! generator for the 3-sphere.

use vstd::prelude::*;

verus! {

use crate::fixed::{SCALE, fxmul, fxmul_s, ints};
use crate::trig::{TWO_PI_FX, sin_fx, cos_fx, sin_fx_s, cos_fx_s, floor_sqrt,
    lemma_floor_sqrt_le, isqrt};
use crate::vdc::{VdCorput, VdcState, vdc_fx, BASE_MAX, COUNT_MAX};

/// One point of the circle sequence: `θ = 2π·u`, then `(cos θ, sin θ)`.
pub open spec fn circle_pop_s(v: VdcState) -> Seq<int> {
    let u = vdc_fx(v.count + 1, v.base);
    let th = fxmul_s(u, TWO_PI_FX as int);
    seq![cos_fx_s(th), sin_fx_s(th)]
}

/// One point of the 2-sphere sequence (cylindrical equal-area map):
/// `cos φ = 2u - 1`, `sin φ = sqrt(1 - cos²φ)`, circle point scaled by
/// `sin φ` with `cos φ` appended.
pub open spec fn sphere2_pop_s(vphi: VdcState, vtheta: VdcState) -> Seq<int> {
    let u = vdc_fx(vphi.count + 1, vphi.base);
    let c = 2 * u - SCALE;
    let s = floor_sqrt((SCALE as int) * (SCALE as int) - c * c);
    let inner = circle_pop_s(vtheta);
    seq![fxmul_s(inner[0], s), fxmul_s(inner[1], s), c]
}

/// A unit-circle sequence generator.
pub struct Circle {
    vdc: VdCorput,
}

impl View for Circle {
    type V = VdcState;

    closed spec fn view(&self) -> VdcState {
        self.vdc@
    }
}

impl Circle {
    pub open spec fn wf(&self) -> bool {
        2 <= self@.base <= BASE_MAX
    }

    pub fn new(base: u64) -> (r: Circle)
        requires
            2 <= base <= BASE_MAX,
        ensures
            r.wf(),
            r@.base == base,
            r@.count == 0,
    {
        Circle { vdc: VdCorput::new(base) }
    }

    /// Next point on the unit circle; both coordinates are bounded by
    /// one.
    pub fn pop(&mut self) -> (r: Vec<i64>)
        requires
            old(self).wf(),
            old(self)@.count + 1 <= COUNT_MAX,
        ensures
            final(self).wf(),
            final(self)@.base == old(self)@.base,
            final(self)@.count == old(self)@.count + 1,
            ints(r@) == circle_pop_s(old(self)@),
            r@.len() == 2,
            forall|j: int| 0 <= j < r@.len() ==> -SCALE <= #[trigger] r@[j] <= SCALE,
    {
        let u = self.vdc.pop();
        let th = fxmul(u, TWO_PI_FX);
        proof {
            crate::fixed::lemma_fxmul_bound(u as int, TWO_PI_FX as int, SCALE as int,
                TWO_PI_FX as int);
            vstd::arithmetic::div_mod::lemma_div_pos_is_pos((u as int) * (TWO_PI_FX as int),
                SCALE as int);
        }
        let c = cos_fx(th);
        let s = sin_fx(th);
        let mut r: Vec<i64> = Vec::new();
        r.push(c);
        r.push(s);
        proof {
            assert(ints(r@) =~= circle_pop_s(old(self)@));
        }
        r
    }

    /// Rewind the cursor to `seed`.
    pub fn reseed(&mut self, seed: u64)
        requires
            old(self).wf(),
        ensures
            final(self).wf(),
            final(self)@.base == old(self)@.base,
            final(self)@.count == seed,
    {
        self.vdc.reseed(seed);
    }
}

/// The 2-sphere base generator: the terminal case of the recursive
/// sphere composition.
pub struct Sphere2 {
    vdcgen: VdCorput,
    cirgen: Circle,
}

/// The mathematical state of a 2-sphere generator: its two cursors.
pub struct Sphere2State {
    pub vphi: VdcState,
    pub vtheta: VdcState,
}

impl View for Sphere2 {
    type V = Sphere2State;

    closed spec fn view(&self) -> Sphere2State {
        Sphere2State { vphi: self.vdcgen@, vtheta: self.cirgen@ }
    }
}

impl Sphere2 {
    pub open spec fn wf(&self) -> bool {
        &&& 2 <= self@.vphi.base <= BASE_MAX
        &&& 2 <= self@.vtheta.base <= BASE_MAX
    }

    pub fn new(base0: u64, base1: u64) -> (r: Sphere2)
        requires
            2 <= base0 <= BASE_MAX,
            2 <= base1 <= BASE_MAX,
        ensures
            r.wf(),
            r@.vphi == (VdcState { base: base0 as nat, count: 0 }),
            r@.vtheta == (VdcState { base: base1 as nat, count: 0 }),
    {
        Sphere2 { vdcgen: VdCorput::new(base0), cirgen: Circle::new(base1) }
    }

    /// Next point on the unit 2-sphere; every coordinate is bounded by
    /// one.
    pub fn pop(&mut self) -> (r: Vec<i64>)
        requires
            old(self).wf(),
            old(self)@.vphi.count + 1 <= COUNT_MAX,
            old(self)@.vtheta.count + 1 <= COUNT_MAX,
        ensures
            final(self).wf(),
            final(self)@.vphi.base == old(self)@.vphi.base,
            final(self)@.vtheta.base == old(self)@.vtheta.base,
            final(self)@.vphi.count == old(self)@.vphi.count + 1,
            final(self)@.vtheta.count == old(self)@.vtheta.count + 1,
            ints(r@) == sphere2_pop_s(old(self)@.vphi, old(self)@.vtheta),
            r@.len() == 3,
            forall|j: int| 0 <= j < r@.len() ==> -SCALE <= #[trigger] r@[j] <= SCALE,
    {
        let u = self.vdcgen.pop();
        let cosphi: i64 = 2 * u - SCALE;
        proof {
            let ci = cosphi as int;
            let si = SCALE as int;
            assert(0 <= ci * ci <= si * si && si * si - ci * ci <= si * si) by (nonlinear_arith)
                requires
                    -si <= ci <= si,
                    0 < si,
            ;
            assert((si * si) < 19807040628566084398385987584) by (nonlinear_arith)
                requires
                    si == 70368744177664,
            ;
        }
        let d: u128 = ((SCALE as i128) * (SCALE as i128) - (cosphi as i128) * (cosphi as i128))
            as u128;
        let sinphi_u = isqrt(d);
        proof {
            lemma_floor_sqrt_le(d as int, sinphi_u as int, SCALE as int);
        }
        let sinphi: i64 = sinphi_u as i64;
        let inner = self.cirgen.pop();
        let c0 = fxmul(inner[0], sinphi);
        let c1 = fxmul(inner[1], sinphi);
        proof {
            crate::fixed::lemma_fxmul_bound(inner@[0] as int, sinphi as int, SCALE as int,
                SCALE as int);
            crate::fixed::lemma_fxmul_bound(inner@[1] as int, sinphi as int, SCALE as int,
                SCALE as int);
            vstd::arithmetic::div_mod::lemma_div_multiples_vanish(SCALE as int, SCALE as int);
        }
        let mut r: Vec<i64> = Vec::new();
        r.push(c0);
        r.push(c1);
        r.push(cosphi);
        proof {
            assert(ints(r@) =~= sphere2_pop_s(old(self)@.vphi, old(self)@.vtheta));
        }
        r
    }

    /// Rewind both cursors to `seed`.
    pub fn reseed(&mut self, seed: u64)
        requires
            old(self).wf(),
        ensures
            final(self).wf(),
            final(self)@.vphi.base == old(self)@.vphi.base,
            final(self)@.vtheta.base == old(self)@.vtheta.base,
            final(self)@.vphi.count == seed,
            final(self)@.vtheta.count == seed,
    {
        self.cirgen.reseed(seed);
        self.vdcgen.reseed(seed);
    }
}

/// One point of the Hopf-coordinate 3-sphere sequence:
/// `φ = 2π·u0`, `ψ = 2π·u1`, `cos η = sqrt(u2)`, `sin η = sqrt(1 - u2)`,
/// then `(cos η·cos ψ, cos η·sin ψ, sin η·cos(φ+ψ), sin η·sin(φ+ψ))`.
pub open spec fn hopf_pop_s(v0: VdcState, v1: VdcState, v2: VdcState) -> Seq<int> {
    let phi = fxmul_s(vdc_fx(v0.count + 1, v0.base), TWO_PI_FX as int);
    let psy = fxmul_s(vdc_fx(v1.count + 1, v1.base), TWO_PI_FX as int);
    let vd = vdc_fx(v2.count + 1, v2.base);
    let cos_eta = floor_sqrt(vd * SCALE);
    let sin_eta = floor_sqrt((SCALE - vd) * SCALE);
    seq![
        fxmul_s(cos_eta, cos_fx_s(psy)),
        fxmul_s(cos_eta, sin_fx_s(psy)),
        fxmul_s(sin_eta, cos_fx_s(phi + psy)),
        fxmul_s(sin_eta, sin_fx_s(phi + psy)),
    ]
}

/// A Hopf-fibration generator for the 3-sphere, driven by three
/// cursors.
pub struct Sphere3Hopf {
    vdc0: VdCorput,
    vdc1: VdCorput,
    vdc2: VdCorput,
}

/// The mathematical state of a Hopf generator: its three cursors.
pub struct Sphere3HopfState {
    pub v0: VdcState,
    pub v1: VdcState,
    pub v2: VdcState,
}

impl View for Sphere3Hopf {
    type V = Sphere3HopfState;

    closed spec fn view(&self) -> Sphere3HopfState {
        Sphere3HopfState { v0: self.vdc0@, v1: self.vdc1@, v2: self.vdc2@ }
    }
}

impl Sphere3Hopf {
    pub open spec fn wf(&self) -> bool {
        &&& 2 <= self@.v0.base <= BASE_MAX
        &&& 2 <= self@.v1.base <= BASE_MAX
        &&& 2 <= self@.v2.base <= BASE_MAX
    }

    pub fn new(base0: u64, base1: u64, base2: u64) -> (r: Sphere3Hopf)
        requires
            2 <= base0 <= BASE_MAX,
            2 <= base1 <= BASE_MAX,
            2 <= base2 <= BASE_MAX,
        ensures
            r.wf(),
            r@.v0 == (VdcState { base: base0 as nat, count: 0 }),
            r@.v1 == (VdcState { base: base1 as nat, count: 0 }),
            r@.v2 == (VdcState { base: base2 as nat, count: 0 }),
    {
        Sphere3Hopf {
            vdc0: VdCorput::new(base0),
            vdc1: VdCorput::new(base1),
            vdc2: VdCorput::new(base2),
        }
    }

    /// Next point on the unit 3-sphere in Hopf coordinates; every
    /// coordinate is bounded by one.
    pub fn pop(&mut self) -> (r: Vec<i64>)
        requires
            old(self).wf(),
            old(self)@.v0.count + 1 <= COUNT_MAX,
            old(self)@.v1.count + 1 <= COUNT_MAX,
            old(self)@.v2.count + 1 <= COUNT_MAX,
        ensures
            final(self).wf(),
            final(self)@.v0 == (VdcState { base: old(self)@.v0.base, count: old(self)@.v0.count + 1 }),
            final(self)@.v1 == (VdcState { base: old(self)@.v1.base, count: old(self)@.v1.count + 1 }),
            final(self)@.v2 == (VdcState { base: old(self)@.v2.base, count: old(self)@.v2.count + 1 }),
            ints(r@) == hopf_pop_s(old(self)@.v0, old(self)@.v1, old(self)@.v2),
            r@.len() == 4,
            forall|j: int| 0 <= j < r@.len() ==> -SCALE <= #[trigger] r@[j] <= SCALE,
    {
        let u0 = self.vdc0.pop();
        let u1 = self.vdc1.pop();
        let u2 = self.vdc2.pop();
        let phi = fxmul(u0, TWO_PI_FX);
        let psy = fxmul(u1, TWO_PI_FX);
        proof {
            crate::fixed::lemma_fxmul_bound(u0 as int, TWO_PI_FX as int, SCALE as int,
                TWO_PI_FX as int);
            crate::fixed::lemma_fxmul_bound(u1 as int, TWO_PI_FX as int, SCALE as int,
                TWO_PI_FX as int);
            vstd::arithmetic::div_mod::lemma_div_pos_is_pos((u0 as int) * (TWO_PI_FX as int),
                SCALE as int);
            vstd::arithmetic::div_mod::lemma_div_pos_is_pos((u1 as int) * (TWO_PI_FX as int),
                SCALE as int);
            assert((SCALE as int) * (TWO_PI_FX as int) / (SCALE as int) == TWO_PI_FX as int) by {
                vstd::arithmetic::div_mod::lemma_div_multiples_vanish(TWO_PI_FX as int,
                    SCALE as int);
            };
        }
        proof {
            let si = SCALE as int;
            let vi = u2 as int;
            assert(0 <= vi * si && vi * si <= si * si
                && 0 <= (si - vi) * si && (si - vi) * si <= si * si) by (nonlinear_arith)
                requires
                    0 <= vi <= si,
                    0 < si,
            ;
            assert((si * si) < 19807040628566084398385987584) by (nonlinear_arith)
                requires
                    si == 70368744177664,
            ;
        }
        let da: u128 = ((u2 as i128) * (SCALE as i128)) as u128;
        let db: u128 = (((SCALE - u2) as i128) * (SCALE as i128)) as u128;
        let cos_eta_u = isqrt(da);
        let sin_eta_u = isqrt(db);
        proof {
            lemma_floor_sqrt_le(da as int, cos_eta_u as int, SCALE as int);
            lemma_floor_sqrt_le(db as int, sin_eta_u as int, SCALE as int);
        }
        let cos_eta = cos_eta_u as i64;
        let sin_eta = sin_eta_u as i64;
        let a = phi + psy;
        let c0 = fxmul(cos_eta, cos_fx(psy));
        let c1 = fxmul(cos_eta, sin_fx(psy));
        let c2 = fxmul(sin_eta, cos_fx(a));
        let c3 = fxmul(sin_eta, sin_fx(a));
        proof {
            crate::fixed::lemma_fxmul_bound(cos_eta as int, cos_fx_s(psy as int), SCALE as int,
                SCALE as int);
            crate::fixed::lemma_fxmul_bound(cos_eta as int, sin_fx_s(psy as int), SCALE as int,
                SCALE as int);
            crate::fixed::lemma_fxmul_bound(sin_eta as int, cos_fx_s(a as int), SCALE as int,
                SCALE as int);
            crate::fixed::lemma_fxmul_bound(sin_eta as int, sin_fx_s(a as int), SCALE as int,
                SCALE as int);
            vstd::arithmetic::div_mod::lemma_div_multiples_vanish(SCALE as int, SCALE as int);
        }
        let mut r: Vec<i64> = Vec::new();
        r.push(c0);
        r.push(c1);
        r.push(c2);
        r.push(c3);
        proof {
            assert(ints(r@) =~= hopf_pop_s(old(self)@.v0, old(self)@.v1, old(self)@.v2));
        }
        r
    }

    /// Rewind all three cursors to `seed`.
    pub fn reseed(&mut self, seed: u64)
        requires
            old(self).wf(),
        ensures
            final(self).wf(),
            final(self)@.v0 == (VdcState { base: old(self)@.v0.base, count: seed as nat }),
            final(self)@.v1 == (VdcState { base: old(self)@.v1.base, count: seed as nat }),
            final(self)@.v2 == (VdcState { base: old(self)@.v2.base, count: seed as nat }),
    {
        self.vdc0.reseed(seed);
        self.vdc1.reseed(seed);
        self.vdc2.reseed(seed);
    }
}

} // verus!
