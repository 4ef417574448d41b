//! The library's error taxonomy: invalid timezone names, malformed
//! timestamp text, policy rejections, and internal resolution failures.

use vstd::prelude::*;

use crate::text::str_concat;

verus! {

/// The main error type for bucket and resolution operations.
#[derive(Debug, Clone)]
pub enum TzBucketError {
    /// Invalid timezone name provided.
    InvalidTimezone(String),
    /// Error parsing timestamp input.
    ParseError(String),
    /// A nonexistent or ambiguous local time rejected by an `Error`
    /// policy; carries the human-readable explanation.
    PolicyError(String),
    /// Internal resolution failure: overflow or an exhausted search.
    RuntimeError(String),
}

impl TzBucketError {
    /// The full rendered message, kind prefix included.
    pub fn message(&self) -> (r: String)
        ensures
            self is InvalidTimezone ==> r@ == "Invalid timezone: "@ + self->InvalidTimezone_0@,
            self is ParseError ==> r@ == "Parse error: "@ + self->ParseError_0@,
            self is PolicyError ==> r@ == "Policy error: "@ + self->PolicyError_0@,
            self is RuntimeError ==> r@ == "Runtime error: "@ + self->RuntimeError_0@,
    {
        match self {
            TzBucketError::InvalidTimezone(s) => str_concat("Invalid timezone: ", s.as_str()),
            TzBucketError::ParseError(s) => str_concat("Parse error: ", s.as_str()),
            TzBucketError::PolicyError(s) => str_concat("Policy error: ", s.as_str()),
            TzBucketError::RuntimeError(s) => str_concat("Runtime error: ", s.as_str()),
        }
    }
}

} // verus!
