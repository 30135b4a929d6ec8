//! The error value that the parsing and codec functions return.

use vstd::prelude::*;
use vstd::string::StringExecFns;

verus! {

/// A failure described by a message, as the tracker reports it to callers.
#[derive(Debug)]
pub struct CustomError {
    pub message: String,
}

impl CustomError {
    pub fn new(message: &str) -> (r: CustomError)
        ensures
            r.message@ == message@,
    {
        CustomError { message: String::from_str(message) }
    }
}

} // verus!
