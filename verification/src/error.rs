//! Errors reported by the transport.

use vstd::prelude::*;

verus! {

/// A transport error.
#[derive(Clone, Copy, Debug, PartialEq, Eq, Structural)]
pub enum Error {
    /// There is no more work to do.
    Done,
    /// The provided buffer is too short.
    BufferTooShort,
    /// The provided frame cannot be parsed or is invalid.
    InvalidFrame,
    /// The operation cannot be completed because the connection is in an
    /// invalid state.
    InvalidState,
    /// Too many identifiers were provided.
    IdLimit,
    /// Not enough available identifiers.
    OutOfIdentifiers,
}

} // verus!
