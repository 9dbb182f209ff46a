//! Construction-time failures of the generators.

use vstd::prelude::*;

verus! {

/// Failures a caller can provoke. Once a generator is constructed it
/// never fails.
#[derive(Clone, Copy, Debug, PartialEq, Eq, Structural)]
pub enum ErrorKind {
    /// The requested dimension is below the minimum, or too few bases
    /// were supplied for it.
    InvalidDimension,
    /// Reserved for callers that feed hand-built tables to the inverse
    /// lookup: the public samplers build clamp-safe inputs and cannot
    /// raise it.
    InterpolationDomainViolation,
}

impl ErrorKind {
    /// A short description, for callers that report errors as text.
    pub fn message(&self) -> (r: &'static str) {
        match self {
            ErrorKind::InvalidDimension => "invalid dimension or too few bases",
            ErrorKind::InterpolationDomainViolation => "interpolation outside the table domain",
        }
    }
}

} // verus!
