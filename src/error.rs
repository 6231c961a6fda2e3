//! The errors that the library reports.
use vstd::prelude::*;

verus! {

/// What went wrong in a call.
#[derive(Debug, PartialEq, Eq)]
pub enum BackendError {
    /// The track at this path does not exist.
    NotFound(String),
    /// The request itself is unusable (no roots to scan, no changes to apply).
    Validation(String),
    /// A filesystem or encoding step failed.
    Io(String),
}

impl BackendError {
    /// The message that describes the error.
    pub fn message(&self) -> (r: String)
        ensures
            self matches BackendError::NotFound(p) ==> r@ == "Track does not exist: "@ + p@,
            self matches BackendError::Validation(m) ==> r@ == m@,
            self matches BackendError::Io(m) ==> r@ == m@,
    {
        match self {
            BackendError::NotFound(p) => String::from_str("Track does not exist: ").concat(p.as_str()),
            BackendError::Validation(m) => m.clone(),
            BackendError::Io(m) => m.clone(),
        }
    }
}

} // verus!
