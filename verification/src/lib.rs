//! Request-gating core of an HTTP API gateway: bearer-token authentication,
//! a distributed sliding-window rate limiter with a signed bypass token, and
//! per-request correlation identifiers.

pub mod auth;
pub mod envelope;
pub mod errors;
pub mod headers;
pub mod limiter;
pub mod pager;
pub mod random;
pub mod request_id;
