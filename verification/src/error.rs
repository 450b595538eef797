//! The error of the library: a reason in words.

use vstd::prelude::*;

verus! {

/// Why a flow, or the whole run, could not go on.
#[derive(Debug)]
pub struct GarmataError {
    pub reason: String,
}

impl GarmataError {
    /// An error with the given reason.
    pub fn new(reason: &str) -> (e: GarmataError)
        ensures
            e.reason@ == reason@,
    {
        GarmataError { reason: reason.to_owned() }
    }
}

} // verus!
