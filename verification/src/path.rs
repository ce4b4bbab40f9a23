//! States of a network path.

use vstd::prelude::*;

verus! {

/// The validation state of a path.
#[derive(Debug, Clone, Copy, PartialEq, Eq, PartialOrd, Ord, Structural)]
pub enum PathState {
    /// The path failed its validation.
    Failed,
    /// The path exists, but no path validation has been performed.
    Unknown,
    /// The path is under validation.
    Validating,
    /// The remote address has been validated, but not the path MTU.
    ValidatingMTU,
    /// The path has been validated.
    Validated,
}

/// How the application wants a path to be used.
#[derive(Debug, Clone, Copy, PartialEq, Eq, Structural)]
pub enum PathAppStatus {
    /// The path may be used.
    Available,
    /// The path may be used when no available one can.
    Backup,
}

} // verus!
