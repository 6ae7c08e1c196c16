//! The externally visible failure kinds. Kinds that would make an oracle for
//! guessing (a missing, expired, consumed, or mismatched code; a malformed,
//! expired, or badly signed token) are merged into one kind each.

use vstd::prelude::*;

verus! {

#[derive(Clone, Copy, Debug, PartialEq, Eq, Structural)]
pub enum AuthError {
    /// The caller exhausted its window; it should back off.
    RateLimitExceeded,
    /// No valid verification code matched: missing, expired, consumed, or
    /// wrong — deliberately one kind.
    CodeInvalid,
    /// The presented token failed: malformed, expired, or badly signed —
    /// deliberately one kind.
    TokenInvalid,
    /// The request carried no usable credential for the session gate.
    Unauthorized,
    /// A collaborator this core depends on was unavailable.
    UpstreamFailure,
}

/// The HTTP-equivalent status class each kind renders as.
pub open spec fn spec_status_code(e: AuthError) -> u16 {
    match e {
        AuthError::RateLimitExceeded => 429,
        AuthError::CodeInvalid => 401,
        AuthError::TokenInvalid => 401,
        AuthError::Unauthorized => 401,
        AuthError::UpstreamFailure => 500,
    }
}

impl AuthError {
    pub fn status_code(&self) -> (r: u16)
        ensures
            r == spec_status_code(*self),
    {
        match self {
            AuthError::RateLimitExceeded => 429,
            AuthError::CodeInvalid => 401,
            AuthError::TokenInvalid => 401,
            AuthError::Unauthorized => 401,
            AuthError::UpstreamFailure => 500,
        }
    }

    /// The uniform human-readable message for the response envelope. Nothing
    /// in it says how close a guess came.
    pub fn public_message(&self) -> (m: &'static str)
        ensures
            *self == AuthError::RateLimitExceeded ==> m@ == "too many requests"@,
            *self == AuthError::CodeInvalid ==> m@ == "invalid contact or code"@,
            *self == AuthError::TokenInvalid ==> m@ == "unauthorized"@,
            *self == AuthError::Unauthorized ==> m@ == "unauthorized"@,
            *self == AuthError::UpstreamFailure ==> m@ == "server error"@,
    {
        match self {
            AuthError::RateLimitExceeded => "too many requests",
            AuthError::CodeInvalid => "invalid contact or code",
            AuthError::TokenInvalid => "unauthorized",
            AuthError::Unauthorized => "unauthorized",
            AuthError::UpstreamFailure => "server error",
        }
    }
}

} // verus!
