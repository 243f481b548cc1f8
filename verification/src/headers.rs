//! The custom header names the gateway consumes and produces.

use vstd::prelude::*;

verus! {

pub const X_REQUEST_ID: &'static str = "X-Request-ID";

pub const X_REAL_IP: &'static str = "X-Real-IP";

pub const X_RATE_LIMIT_FORWARD: &'static str = "X-Rate-Limit-Forward";

pub const AUTHORIZATION: &'static str = "Authorization";

} // verus!
