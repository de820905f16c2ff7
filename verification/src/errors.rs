//! Error taxonomy of the store layer.

use vstd::prelude::*;

verus! {

/// What a repository operation can report instead of a result.
///
/// `NotFound` is a normal outcome (a requested row does not exist) and is
/// surfaced distinctly so that callers can answer with an empty value or
/// `false` instead of a failure page.  `ConstraintViolation` covers foreign
/// keys and uniqueness (a duplicate login, follow edge or reaction, or a
/// reference to a missing row).  `ConnectivityFailure` is a store-side
/// fault surfaced to the caller.  `MalformedInput` is a caller-side error:
/// an encoded payload that does not decode; it never reaches the store.
#[derive(Clone, Copy, Debug, PartialEq, Eq, Structural)]
pub enum StoreError {
    NotFound,
    ConstraintViolation,
    ConnectivityFailure,
    MalformedInput,
}

impl StoreError {
    /// A short text for a log line or an error response.
    pub fn describe(&self) -> (r: &'static str)
        ensures
            self is NotFound ==> r@ == "not found"@,
            self is ConstraintViolation ==> r@ == "constraint violation"@,
            self is ConnectivityFailure ==> r@ == "connectivity failure"@,
            self is MalformedInput ==> r@ == "malformed input"@,
    {
        match self {
            StoreError::NotFound => "not found",
            StoreError::ConstraintViolation => "constraint violation",
            StoreError::ConnectivityFailure => "connectivity failure",
            StoreError::MalformedInput => "malformed input",
        }
    }
}

} // verus!
