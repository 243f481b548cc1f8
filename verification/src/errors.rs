//! The gateway's error outcomes and their JSON rendering:
//! `{"code":<status>,"message":<text>}`.

use vstd::prelude::*;
use vstd::string::*;
use crate::envelope::{ascii_chars_of, ascii_string};

verus! {

/// The decimal digits of `n`, as ASCII bytes.
pub open spec fn dec_bytes(n: nat) -> Seq<u8>
    decreases n,
{
    if n < 10 {
        seq![(48 + n) as u8]
    } else {
        dec_bytes(n / 10) + seq![(48 + n % 10) as u8]
    }
}

proof fn lemma_dec_bytes_digits(n: nat)
    ensures
        forall|i: int| 0 <= i < dec_bytes(n).len() ==> 48 <= #[trigger] dec_bytes(n)[i] <= 57,
    decreases n,
{
    if n >= 10 {
        lemma_dec_bytes_digits(n / 10);
        assert forall|i: int| 0 <= i < dec_bytes(n).len() implies 48 <= #[trigger] dec_bytes(n)[i]
            <= 57 by {
            if i < dec_bytes(n / 10).len() {
                assert(dec_bytes(n)[i] == dec_bytes(n / 10)[i]);
            }
        }
    }
}

/// The decimal form of an unsigned number.
pub fn u64_to_dec(n: u64) -> (r: Vec<u8>)
    ensures
        r@ == dec_bytes(n as nat),
    decreases n,
{
    if n < 10 {
        let mut v: Vec<u8> = Vec::new();
        v.push(48 + (n as u8));
        proof {
            assert(v@ =~= dec_bytes(n as nat));
        }
        v
    } else {
        let mut v = u64_to_dec(n / 10);
        v.push(48 + ((n % 10) as u8));
        proof {
            assert(v@ =~= dec_bytes((n / 10) as nat) + seq![(48 + (n as nat) % 10) as u8]);
        }
        v
    }
}

/// The textual reason for a status code the gateway produces, or the generic
/// text for any other.
pub open spec fn spec_reason(code: nat) -> Seq<char> {
    if code == 400 {
        "Bad Request"@
    } else if code == 401 {
        "Unauthorized"@
    } else if code == 403 {
        "Forbidden"@
    } else if code == 404 {
        "Not Found"@
    } else if code == 429 {
        "Too Many Requests"@
    } else if code == 500 {
        "Internal Server Error"@
    } else {
        "Unknown Error"@
    }
}

pub fn canonical_reason_or_unknown(code: u16) -> (r: &'static str)
    ensures
        r@ == spec_reason(code as nat),
{
    if code == 400 {
        "Bad Request"
    } else if code == 401 {
        "Unauthorized"
    } else if code == 403 {
        "Forbidden"
    } else if code == 404 {
        "Not Found"
    } else if code == 429 {
        "Too Many Requests"
    } else if code == 500 {
        "Internal Server Error"
    } else {
        "Unknown Error"
    }
}

pub uninterp spec fn json_escaped_raw(s: Seq<char>) -> Seq<char>;

/// Relies on `serde_json::to_string` on a string: its quoted, escaped JSON
/// text, a function of the characters alone (`to_string` of a string value
/// cannot fail).
#[verifier::external_body]
fn json_escape_string(s: &str) -> (r: String)
    ensures
        r@ == json_escaped_raw(s@),
{
    serde_json::to_string(s).unwrap_or_default()
}

/// The JSON error body: `{"code":<code>,"message":<message as JSON string>}`.
pub open spec fn spec_error_body(code: nat, message: Seq<char>) -> Seq<char> {
    "{\"code\":"@ + ascii_chars_of(dec_bytes(code)) + ",\"message\":"@ + json_escaped_raw(message)
        + "}"@
}

pub fn error_body(code: u16, message: &str) -> (r: String)
    ensures
        r@ == spec_error_body(code as nat, message@),
{
    let mut s = String::from_str("{\"code\":");
    let d = u64_to_dec(code as u64);
    proof {
        lemma_dec_bytes_digits(code as nat);
        assert(forall|i: int| 0 <= i < d@.len() ==> d@[i] < 128);
    }
    let ds = ascii_string(d);
    s.append(ds.as_str());
    s.append(",\"message\":");
    let escaped = json_escape_string(message);
    s.append(escaped.as_str());
    s.append("}");
    proof {
        assert(s@ =~= spec_error_body(code as nat, message@));
    }
    s
}

/// A status code, optionally refined by an application-level code.
#[derive(Clone, Copy, Debug)]
pub struct ErrorCode {
    pub status_code: u16,
    pub code: Option<u16>,
}

impl ErrorCode {
    pub fn from_status_code(status_code: u16) -> (r: ErrorCode)
        ensures
            r.status_code == status_code,
            r.code is None,
    {
        ErrorCode { status_code, code: None }
    }

    pub fn new_bad_request() -> (r: ErrorCode)
        ensures
            r.status_code == 400,
            r.code is None,
    {
        ErrorCode { status_code: 400, code: None }
    }

    pub fn new_internal_error() -> (r: ErrorCode)
        ensures
            r.status_code == 500,
            r.code is None,
    {
        ErrorCode { status_code: 500, code: None }
    }

    pub fn code(&mut self, code: u16)
        ensures
            final(self).status_code == old(self).status_code,
            final(self).code == Some(code),
    {
        self.code = Some(code);
    }
}

/// A gateway-generated error response.
#[derive(Debug)]
pub enum ErrorResponse {
    /// An uncategorized internal fault; its detail is logged, never echoed.
    InternalError(String),
    /// A categorized outcome with its status and an optional message.
    AppError { code: ErrorCode, message: Option<String> },
}

impl ErrorResponse {
    pub fn new_with_message(message: &str) -> (r: ErrorResponse)
        ensures
            r matches ErrorResponse::AppError { code, message: m } && code.status_code == 400
                && code.code is None && (m matches Some(s) && s@ == message@),
    {
        ErrorResponse::AppError {
            code: ErrorCode::from_status_code(400),
            message: Some(message.to_owned()),
        }
    }

    pub fn new_default() -> (r: ErrorResponse)
        ensures
            r matches ErrorResponse::AppError { code, message } && code.status_code == 400
                && code.code is None && message is None,
    {
        ErrorResponse::AppError { code: ErrorCode::from_status_code(400), message: None }
    }

    pub fn new(code: ErrorCode, message: Option<String>) -> (r: ErrorResponse)
        ensures
            r matches ErrorResponse::AppError { code: c, message: m } && c == code && m == message,
    {
        ErrorResponse::AppError { code, message }
    }

    pub fn new_with_status_code(status_code: u16) -> (r: ErrorResponse)
        ensures
            r matches ErrorResponse::AppError { code, message } && code.status_code == status_code
                && code.code is None && message is None,
    {
        ErrorResponse::AppError { code: ErrorCode::from_status_code(status_code), message: None }
    }

    pub fn new_forb() -> (r: ErrorResponse)
        ensures
            r matches ErrorResponse::AppError { code, message } && code.status_code == 403
                && code.code is None && message is None,
    {
        Self::new_with_status_code(403)
    }

    pub fn new_no_auth() -> (r: ErrorResponse)
        ensures
            r matches ErrorResponse::AppError { code, message } && code.status_code == 401
                && code.code is None && message is None,
    {
        Self::new_with_status_code(401)
    }

    /// The HTTP status and JSON body this response renders to: the given
    /// message, the status's canonical reason without one, and a generic
    /// internal error for an uncategorized fault.
    pub fn into_status_and_body(&self) -> (r: (u16, String))
        ensures
            (*self) matches ErrorResponse::InternalError(e) ==> r.0 == 500 && r.1@
                == spec_error_body(500, spec_reason(500)),
            (*self) matches ErrorResponse::AppError { code, message } ==> r.0 == code.status_code
                && (message matches Some(m) ==> r.1@ == spec_error_body(
                code.status_code as nat,
                m@,
            )) && (message is None ==> r.1@ == spec_error_body(
                code.status_code as nat,
                spec_reason(code.status_code as nat),
            )),
    {
        match self {
            ErrorResponse::InternalError(_) => {
                (500, error_body(500, canonical_reason_or_unknown(500)))
            },
            ErrorResponse::AppError { code, message } => {
                let status = code.status_code;
                match message {
                    Some(m) => (status, error_body(status, m.as_str())),
                    None => (status, error_body(status, canonical_reason_or_unknown(status))),
                }
            },
        }
    }
}

} // verus!
