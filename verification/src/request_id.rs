//! Correlation identifiers: one random, globally-unique tag per request.

use vstd::prelude::*;

verus! {

/// Relies on `uuid::Uuid::new_v4().to_string()`: the hyphenated textual form,
/// 36 characters; the value is random and nothing more is assumed of it.
#[verifier::external_body]
fn generate_uuid() -> (r: String)
    ensures
        r@.len() == 36,
{
    uuid::Uuid::new_v4().to_string()
}

/// The correlation header to attach: a fresh identifier for a request that
/// carries none, and nothing for a request that already has one.
pub fn correlation_id(existing: Option<&str>) -> (r: Option<String>)
    ensures
        existing is Some ==> r is None,
        existing is None ==> (r matches Some(id) && id@.len() == 36),
{
    match existing {
        Some(_) => None,
        None => Some(generate_uuid()),
    }
}

} // verus!
