//! The error type shared by the library.
use vstd::prelude::*;

use crate::strings::copy_str;

verus! {

/// An error with a machine-readable code and a human-readable message.
#[derive(Clone, Debug)]
pub struct AppError {
    pub code: String,
    pub message: String,
}

impl AppError {
    /// Builds an error from its code and message.
    pub fn new(code: &str, message: &str) -> (r: AppError)
        ensures
            r.code@ == code@,
            r.message@ == message@,
    {
        AppError { code: copy_str(code), message: copy_str(message) }
    }
}

/// Whether `r` is an error with exactly this code and message.
pub open spec fn is_error(r: Result<(), AppError>, code: Seq<char>, message: Seq<char>) -> bool {
    r matches Err(e) && e.code@ == code && e.message@ == message
}

} // verus!
