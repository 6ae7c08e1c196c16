//! Session and abuse-control core: a fixed-window rate limiter, a store of
//! short-lived one-time verification codes, an issuer and verifier of signed
//! session tokens, a request-authentication gate, an append-only audit log,
//! and the login orchestration that composes them.

pub mod audit;
pub mod bytes;
pub mod codes;
pub mod crypto;
pub mod errors;
pub mod gate;
pub mod login;
pub mod ratelimit;
pub mod token;
