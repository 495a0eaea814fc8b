//! Failure taxonomy of the adapter layer.

use vstd::prelude::*;

verus! {

/// Native return code for success.
pub const CODE_OK: i32 = 0;

/// Native return code for an operation against a point that does not exist.
pub const CODE_NOT_FOUND: i32 = 1;

/// Native return code for a vector whose length differs from the collection
/// dimension.
pub const CODE_DIMENSION_MISMATCH: i32 = 2;

/// Every failure the adapters surface.  Native-call failures carry the
/// native code; validation failures are classified before any native call.
#[derive(Clone, Copy, Debug, PartialEq, Eq, Structural)]
pub enum VdeError {
    /// Creating or opening an engine or collection failed at construction.
    Initialization,
    /// A native call returned a non-zero code, kept here.
    Service { code: i32 },
    /// A dense vector's length differs from the collection dimension.
    DimensionMismatch { expected: u32, got: usize },
    /// The vector kind is not dense.
    UnsupportedVectorKind,
    /// The cooperative cancellation signal was observed during a bulk update.
    Cancelled,
}

impl VdeError {
    /// A service error whose native code classifies the point as missing.
    pub open spec fn spec_is_not_found(self) -> bool {
        match self {
            VdeError::Service { code } => code == CODE_NOT_FOUND,
            _ => false,
        }
    }

    /// Whether this error is a service error classed as not-found.
    pub fn is_not_found(&self) -> (r: bool)
        ensures
            r == self.spec_is_not_found(),
    {
        match self {
            VdeError::Service { code } => *code == CODE_NOT_FOUND,
            _ => false,
        }
    }
}

} // verus!
