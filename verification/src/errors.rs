//! Errors that the service answers a request with.

use vstd::prelude::*;

verus! {

/// A refused request.
#[derive(Debug, PartialEq)]
pub enum AppError {
    /// The request body breaks a rule; the text says which.
    ValidationError(String),
    /// The requested entry does not exist.
    NotFound,
}

} // verus!
