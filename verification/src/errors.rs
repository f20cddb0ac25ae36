//! The error kinds the library surfaces. None is recovered silently: each
//! aborts the enclosing edit batch, refresh cycle or fix pass.

use vstd::prelude::*;

verus! {

/// Failures of the infrastructure model and its derived data.
#[derive(Debug, Clone)]
pub enum InfraError {
    /// The requested infrastructure does not exist.
    NotFound(i64),
    /// The cache state is inconsistent with the operation being applied
    /// (duplicate create, delete or update of an unknown id). The cache must
    /// be rebuilt from the canonical store before further use.
    InvariantViolation,
    /// A layer maintainer failed; the generated version must not advance.
    DependencyGenerationFailure,
    /// No corrective rule is known for a reported consistency error.
    UnfixableError,
    /// An imported payload declares a format version other than the expected
    /// one; it is rejected before any mutation.
    VersionConflict(String),
}

} // verus!
