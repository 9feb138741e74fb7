//! Errors reported when loading PAK data.

use vstd::prelude::*;

verus! {

/// Errors encountered when loading and parsing PAK data.
#[derive(Debug)]
pub enum IdPakLoadError {
    /// The PAK data could not be acquired, e.g. the path is incorrect or
    /// there aren't sufficient permissions.
    FileOpenFailure(std::io::Error),
    /// The header or the table of contents could not be read or decoded.
    UpdateFailure,
}

/// The result of loading PAK data.
pub type IdPakLoadResult<T> = Result<T, IdPakLoadError>;

/// `std::io::Error` is carried through unchanged: nothing in this crate
/// looks inside it.
#[verifier::external_type_specification]
#[verifier::external_body]
pub struct ExIoError(std::io::Error);

} // verus!
