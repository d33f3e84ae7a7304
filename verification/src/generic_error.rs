//! The ways in which handling a registry can fail.

use vstd::prelude::*;

verus! {

/// Why a registry could not be taken in.
#[derive(Clone, Copy, Debug, PartialEq, Eq, Structural)]
pub enum GenericError {
    /// A line has fewer fields than its layout reads, or its postal code
    /// has fewer than three characters.
    MalformedRow,
    /// An archive or one of its files could not be read, or is too large to
    /// be decoded on this machine.
    IOFailure,
}

/// A result whose failure is a `GenericError`.
pub type GenericResult<T> = Result<T, GenericError>;

} // verus!
