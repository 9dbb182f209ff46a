//! Deterministic low-discrepancy point sequences on n-dimensional unit
//! spheres and cylindrical manifolds, for quasi-Monte-Carlo sampling.
//!
//! Every quantity in this crate is a signed 64-bit integer holding a
//! real value times [`SCALE`] (binary fixed point), so the whole
//! generator pipeline — van der Corput cursors, cumulative-measure
//! tables, inverse lookup, recursive composition — is exact integer
//! arithmetic, and each function's result is pinned down by its
//! contract. A sampler's entire state is its chain of cursors; `pop`
//! and `reseed` are functions of that state, which makes sequences
//! exactly reproducible under reseeding.

use vstd::prelude::*;

pub mod cylind_n;
pub mod errors;
pub mod fixed;
pub mod interp;
pub mod lds;
pub mod sphere_n;
pub mod table;
pub mod trig;
pub mod vdc;

verus! {

pub use crate::cylind_n::{CylindGen, CylindN};
pub use crate::errors::ErrorKind;
pub use crate::fixed::SCALE;
pub use crate::lds::{Circle, Sphere2, Sphere3Hopf};
pub use crate::sphere_n::{Sphere3, SphereChain, SphereGen, SphereN, SphereVariant};
pub use crate::table::{CdfTableCache, Globals, initialize_global_arrays};
pub use crate::vdc::VdCorput;

} // verus!
