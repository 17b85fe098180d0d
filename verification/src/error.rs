//! The client-error taxonomy of the service. Every failure is caused by
//! malformed client input and is terminal for the request; none maps to
//! a server-side fault.

use vstd::prelude::*;

verus! {

/// Everything that can go wrong with a request: the body does not
/// decode as a form, the looked-up parameter is absent, one of its
/// values is not a number (the offending raw value is carried along),
/// or the value list is empty.
#[derive(Debug, PartialEq, Eq)]
pub enum ApiError {
    DecodeError,
    MissingParameter,
    InvalidNumber(String),
    EmptyList,
}

} // verus!
