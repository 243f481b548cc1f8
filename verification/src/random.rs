//! Random string helpers.

use vstd::prelude::*;
use rand::distr::Distribution;
use crate::envelope::{ascii_string, ascii_chars_of};

verus! {

pub open spec fn is_alphanumeric_byte(b: u8) -> bool {
    (48 <= b <= 57) || (65 <= b <= 90) || (97 <= b <= 122)
}

pub open spec fn is_numeric_byte(b: u8) -> bool {
    48 <= b <= 57
}

pub open spec fn is_alphanumeric_char(c: char) -> bool {
    (48 <= c as int <= 57) || (65 <= c as int <= 90) || (97 <= c as int <= 122)
}

pub open spec fn is_numeric_char(c: char) -> bool {
    48 <= c as int <= 57
}

/// Relies on rand's `Alphanumeric` distribution: a random byte out of
/// `0-9A-Za-z`; which one is random and nothing more is assumed.
#[verifier::external_body]
fn sample_alphanumeric() -> (r: u8)
    ensures
        is_alphanumeric_byte(r),
{
    rand::distr::Alphanumeric.sample(&mut rand::rng())
}

/// Relies on `rand::random_range`: a random byte of the given inclusive
/// range, here the ASCII digits; which one is random.
#[verifier::external_body]
fn sample_digit() -> (r: u8)
    ensures
        is_numeric_byte(r),
{
    rand::random_range(48..=57u8)
}

/// A random string of `len` alphanumeric characters.
pub fn next_random_alphanumeric(len: usize) -> (r: String)
    ensures
        r@.len() == len,
        forall|i: int| 0 <= i < r@.len() ==> is_alphanumeric_char(r@[i]),
{
    let mut v: Vec<u8> = Vec::new();
    let mut k: usize = 0;
    while k < len
        invariant
            v@.len() == k <= len,
            forall|i: int| 0 <= i < k ==> is_alphanumeric_byte(v@[i]),
        decreases len - k,
    {
        v.push(sample_alphanumeric());
        k += 1;
    }
    proof {
        assert(forall|i: int| 0 <= i < v@.len() ==> v@[i] < 128);
    }
    ascii_string(v)
}

/// A random string of `len` decimal digits.
pub fn next_random_numeric(len: usize) -> (r: String)
    ensures
        r@.len() == len,
        forall|i: int| 0 <= i < r@.len() ==> is_numeric_char(r@[i]),
{
    let mut v: Vec<u8> = Vec::new();
    let mut k: usize = 0;
    while k < len
        invariant
            v@.len() == k <= len,
            forall|i: int| 0 <= i < k ==> is_numeric_byte(v@[i]),
        decreases len - k,
    {
        v.push(sample_digit());
        k += 1;
    }
    proof {
        assert(forall|i: int| 0 <= i < v@.len() ==> v@[i] < 128);
    }
    ascii_string(v)
}

} // verus!
