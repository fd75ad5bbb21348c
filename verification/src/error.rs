//! The library's error type: a machine-readable code and a message.

use vstd::prelude::*;

verus! {

/// Classifies a refusal, so a caller can map it to an exit status.
#[derive(Debug, Clone, Copy, PartialEq, Eq, Structural)]
pub enum ErrorCode {
    NotFound,
    InvalidInput,
    Conflict,
    IoError,
    Internal,
}

/// A refused request: what kind of refusal, and a human-readable message.
#[derive(Debug)]
pub struct PlanError {
    pub code: ErrorCode,
    pub message: String,
}

/// Builds an error with the given code and message.
pub fn plan_error(code: ErrorCode, message: String) -> (e: PlanError)
    ensures
        e.code == code,
        e.message == message,
{
    PlanError { code, message }
}

/// `a`, then `x` quoted and escaped as `debug_quoted` says, then `b`: a
/// message that names one value between two fixed parts.
pub fn quoted_message(a: &str, x: &str, b: &str) -> (r: String)
    ensures
        r@ == a@ + crate::text::debug_quoted(x@) + b@,
{
    let q = crate::text::debug_quote(x);
    crate::text::concat3(a, q.as_str(), b)
}

} // verus!
