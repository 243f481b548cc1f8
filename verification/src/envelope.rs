//! Tamper-evident, expiring, base64-transportable envelopes around serialized
//! payloads, keyed by a shared secret.
//!
//! Wire form of a sealed payload: `base64( hex(HMAC-SHA256(secret, payload)) ++ "@" ++ payload )`
//! where `payload = base64(plain)` and `plain` is the serialized content.

use vstd::prelude::*;
use vstd::string::*;
use base64::Engine;
use rand::Rng;
use crate::errors::{dec_bytes, u64_to_dec};

verus! {

/// The byte of `'@'`, which separates the signature from the payload.
pub const SIGNED_CONTENT_SEPARATOR: u8 = 64;

/// A lower-case hexadecimal digit, as `hex::encode` produces them.
pub open spec fn is_hex_byte(b: u8) -> bool {
    (48 <= b <= 57) || (97 <= b <= 102)
}

/// A byte of the URL-safe base64 alphabet (no padding).
pub open spec fn is_base64_byte(b: u8) -> bool {
    (65 <= b <= 90) || (97 <= b <= 122) || (48 <= b <= 57) || b == 45 || b == 95
}

pub open spec fn all_hex(s: Seq<u8>) -> bool {
    forall|i: int| 0 <= i < s.len() ==> is_hex_byte(s[i])
}

pub open spec fn all_base64(s: Seq<u8>) -> bool {
    forall|i: int| 0 <= i < s.len() ==> is_base64_byte(s[i])
}

/// Length of the padding-free base64 encoding of `n` bytes.
pub open spec fn base64_len(n: nat) -> nat {
    ((4 * n + 2) / 3) as nat
}

pub uninterp spec fn base64_encode_raw(b: Seq<u8>) -> Seq<u8>;

/// What `URL_SAFE_NO_PAD.encode` returns for `b`: alphabet bytes only, of the
/// fixed length `base64_len(b.len())`. The shape is forced here so that it is
/// available for every argument, not only those that were encoded at run time.
pub open spec fn base64_of(b: Seq<u8>) -> Seq<u8> {
    if base64_encode_raw(b).len() == base64_len(b.len()) && all_base64(base64_encode_raw(b)) {
        base64_encode_raw(b)
    } else {
        Seq::new(base64_len(b.len()), |i: int| 65u8)
    }
}

pub uninterp spec fn hmac_sha256_hex_raw(secret: Seq<u8>, msg: Seq<u8>) -> Seq<u8>;

/// What `hex(HMAC-SHA256(secret, msg))` is: 64 lower-case hex digits, a
/// function of key and message alone.
pub open spec fn hmac_hex_of(secret: Seq<u8>, msg: Seq<u8>) -> Seq<u8> {
    if hmac_sha256_hex_raw(secret, msg).len() == 64 && all_hex(hmac_sha256_hex_raw(secret, msg)) {
        hmac_sha256_hex_raw(secret, msg)
    } else {
        Seq::new(64, |i: int| 48u8)
    }
}

pub uninterp spec fn sha256_hex_raw(raw: Seq<u8>) -> Seq<u8>;

pub proof fn lemma_base64_shape(b: Seq<u8>)
    ensures
        base64_of(b).len() == base64_len(b.len()),
        all_base64(base64_of(b)),
        b.len() > 0 ==> base64_of(b).len() >= 2,
{
    if !(base64_encode_raw(b).len() == base64_len(b.len()) && all_base64(base64_encode_raw(b))) {
        assert(all_base64(Seq::new(base64_len(b.len()), |i: int| 65u8)));
    }
}

pub proof fn lemma_hmac_shape(secret: Seq<u8>, msg: Seq<u8>)
    ensures
        hmac_hex_of(secret, msg).len() == 64,
        all_hex(hmac_hex_of(secret, msg)),
{
    if !(hmac_sha256_hex_raw(secret, msg).len() == 64 && all_hex(hmac_sha256_hex_raw(secret, msg))) {
        assert(all_hex(Seq::new(64, |i: int| 48u8)));
    }
}

/// Relies on `base64::engine::general_purpose::URL_SAFE_NO_PAD.encode`:
/// the URL-safe alphabet without padding, four output bytes for three input bytes.
#[verifier::external_body]
fn base64_encode(b: &[u8]) -> (r: Vec<u8>)
    ensures
        r@ == base64_of(b@),
        r@ == base64_encode_raw(b@),
{
    base64::engine::general_purpose::URL_SAFE_NO_PAD.encode(b).into_bytes()
}

/// Relies on `URL_SAFE_NO_PAD.decode`: it accepts exactly the canonical
/// padding-free encodings (its config forbids padding and trailing bits) and
/// inverts the encoder.
#[verifier::external_body]
fn base64_decode(s: &[u8]) -> (r: Option<Vec<u8>>)
    ensures
        r matches Some(v) ==> s@ == base64_of(v@),
        r matches Some(v) ==> forall|b: Seq<u8>| s@ == base64_of(b) ==> v@ == b,
        r is None ==> forall|b: Seq<u8>| s@ != base64_of(b),
{
    base64::engine::general_purpose::URL_SAFE_NO_PAD.decode(s).ok()
}

/// Relies on `ring::hmac::sign` with `HMAC_SHA256` and on `hex::encode`:
/// 64 lower-case hex digits, a function of key and message alone.
#[verifier::external_body]
pub fn signing(raw: &[u8], secret: &[u8]) -> (r: Vec<u8>)
    ensures
        r@ == hmac_hex_of(secret@, raw@),
        r@ == hmac_sha256_hex_raw(secret@, raw@),
{
    let key = ring::hmac::Key::new(ring::hmac::HMAC_SHA256, secret);
    hex::encode(ring::hmac::sign(&key, raw).as_ref()).into_bytes()
}

/// Relies on `ring::digest::digest` with `SHA256` and on `hex::encode`:
/// a function of the input alone; a SHA-256 digest is 32 bytes, so its hex
/// text is 64 lower-case hex digits.
#[verifier::external_body]
pub fn signing_none_secret(raw: &[u8]) -> (r: Vec<u8>)
    ensures
        r@ == sha256_hex_raw(raw@),
        r@.len() == 64,
        all_hex(r@),
{
    hex::encode(ring::digest::digest(&ring::digest::SHA256, raw).as_ref()).into_bytes()
}

pub open spec fn ascii_chars_of(s: Seq<u8>) -> Seq<char> {
    s.map_values(|b: u8| b as char)
}

pub open spec fn all_ascii(s: Seq<u8>) -> bool {
    forall|i: int| 0 <= i < s.len() ==> s[i] < 128
}

/// Relies on `String::from_utf8`: bytes below 128 decode to exactly those
/// characters (and such input is always valid UTF-8).
#[verifier::external_body]
pub fn ascii_string(v: Vec<u8>) -> (r: String)
    requires
        all_ascii(v@),
    ensures
        r@ == ascii_chars_of(v@),
{
    String::from_utf8(v).unwrap_or_default()
}

/// Where the separator first occurs, or `v.len()` if it does not occur.
pub open spec fn first_sep(v: Seq<u8>) -> int
    decreases v.len(),
{
    if v.len() == 0 {
        0
    } else if v[0] == SIGNED_CONTENT_SEPARATOR {
        0
    } else {
        1 + first_sep(v.skip(1))
    }
}

/// The split yields exactly two non-empty fields.
pub open spec fn spec_split_ok(v: Seq<u8>) -> bool {
    0 < first_sep(v) < v.len() - 1
}

pub open spec fn spec_sig_of(v: Seq<u8>) -> Seq<u8> {
    v.subrange(0, first_sep(v))
}

pub open spec fn spec_payload_of(v: Seq<u8>) -> Seq<u8> {
    v.subrange(first_sep(v) + 1, v.len() as int)
}

proof fn lemma_first_sep_bounds(v: Seq<u8>)
    ensures
        0 <= first_sep(v) <= v.len(),
        first_sep(v) < v.len() ==> v[first_sep(v)] == SIGNED_CONTENT_SEPARATOR,
        forall|j: int| 0 <= j < first_sep(v) ==> v[j] != SIGNED_CONTENT_SEPARATOR,
    decreases v.len(),
{
    if v.len() > 0 && v[0] != SIGNED_CONTENT_SEPARATOR {
        lemma_first_sep_bounds(v.skip(1));
        assert forall|j: int| 0 <= j < first_sep(v) implies v[j] != SIGNED_CONTENT_SEPARATOR by {
            if j > 0 {
                assert(v.skip(1)[j - 1] == v[j]);
            }
        }
        assert(first_sep(v) < v.len() ==> v[first_sep(v)] == v.skip(1)[first_sep(v.skip(1))]);
    }
}

proof fn lemma_first_sep_is(v: Seq<u8>, i: int)
    requires
        0 <= i <= v.len(),
        i < v.len() ==> v[i] == SIGNED_CONTENT_SEPARATOR,
        forall|j: int| 0 <= j < i ==> v[j] != SIGNED_CONTENT_SEPARATOR,
        i == v.len() ==> forall|j: int| 0 <= j < v.len() ==> v[j] != SIGNED_CONTENT_SEPARATOR,
    ensures
        first_sep(v) == i,
{
    lemma_first_sep_bounds(v);
    if first_sep(v) < i {
        assert(v[first_sep(v)] == SIGNED_CONTENT_SEPARATOR);
    } else if i < first_sep(v) {
        assert(v[i] != SIGNED_CONTENT_SEPARATOR);
    }
}

/// The frame around an already-serialized payload: hex HMAC, separator, base64 payload.
pub open spec fn spec_framed(plain: Seq<u8>, secret: Seq<u8>) -> Seq<u8> {
    hmac_hex_of(secret, base64_of(plain)) + seq![SIGNED_CONTENT_SEPARATOR] + base64_of(plain)
}

/// The sealed, transport-safe form of a serialized payload.
pub open spec fn spec_sealed(plain: Seq<u8>, secret: Seq<u8>) -> Seq<u8> {
    base64_of(spec_framed(plain, secret))
}

pub proof fn lemma_framed_split(plain: Seq<u8>, secret: Seq<u8>)
    requires
        plain.len() > 0,
    ensures
        first_sep(spec_framed(plain, secret)) == 64,
        spec_split_ok(spec_framed(plain, secret)),
        spec_sig_of(spec_framed(plain, secret)) == hmac_hex_of(secret, base64_of(plain)),
        spec_payload_of(spec_framed(plain, secret)) == base64_of(plain),
{
    let v = spec_framed(plain, secret);
    lemma_hmac_shape(secret, base64_of(plain));
    lemma_base64_shape(plain);
    assert forall|j: int| 0 <= j < 64 implies v[j] != SIGNED_CONTENT_SEPARATOR by {
        assert(v[j] == hmac_hex_of(secret, base64_of(plain))[j]);
        assert(is_hex_byte(v[j]));
    }
    assert(v[64] == SIGNED_CONTENT_SEPARATOR);
    lemma_first_sep_is(v, 64);
    assert(spec_sig_of(v) =~= hmac_hex_of(secret, base64_of(plain)));
    assert(spec_payload_of(v) =~= base64_of(plain));
}

/// Byte-for-byte comparison.
pub fn bytes_eq(a: &[u8], b: &[u8]) -> (r: bool)
    ensures
        r == (a@ == b@),
{
    if a.len() != b.len() {
        assert(a@.len() != b@.len());
        return false;
    }
    let mut i: usize = 0;
    while i < a.len()
        invariant
            0 <= i <= a@.len(),
            a@.len() == b@.len(),
            forall|j: int| 0 <= j < i ==> a@[j] == b@[j],
        decreases a@.len() - i,
    {
        if a[i] != b[i] {
            return false;
        }
        i += 1;
    }
    proof {
        assert(a@ =~= b@);
    }
    true
}

/// The bytes of `v` from `a` (inclusive) to `b` (exclusive).
fn subvec(v: &[u8], a: usize, b: usize) -> (r: Vec<u8>)
    requires
        a <= b <= v@.len(),
    ensures
        r@ == v@.subrange(a as int, b as int),
{
    let mut r: Vec<u8> = Vec::new();
    let mut i: usize = a;
    while i < b
        invariant
            a <= i <= b <= v@.len(),
            r@ == v@.subrange(a as int, i as int),
        decreases b - i,
    {
        r.push(v[i]);
        i += 1;
        proof {
            assert(v@.subrange(a as int, i as int) =~= v@.subrange(a as int, i - 1).push(v@[i
                - 1]));
        }
    }
    r
}

#[derive(Clone, Copy, Debug, PartialEq, Eq, Structural)]
pub enum EnvelopeError {
    /// The transport decoding or the split did not yield two non-empty fields,
    /// or the payload could not be decoded.
    MalformedEnvelope,
    /// The recomputed HMAC differs from the transmitted one.
    InvalidSignature,
    /// The envelope was well-signed but its lifetime has passed.
    Expired,
}

/// Seal an already-serialized payload under `secret`.
pub fn seal_bytes(plain: &[u8], secret: &[u8]) -> (r: Vec<u8>)
    ensures
        r@ == spec_sealed(plain@, secret@),
{
    let payload = base64_encode(plain);
    let mut framed = signing(payload.as_slice(), secret);
    framed.push(SIGNED_CONTENT_SEPARATOR);
    let mut rest = payload;
    framed.append(&mut rest);
    proof {
        assert(framed@ =~= spec_framed(plain@, secret@));
    }
    base64_encode(framed.as_slice())
}

/// Index of the first separator byte, or the length if there is none.
fn find_sep(v: &[u8]) -> (r: usize)
    ensures
        r as int == first_sep(v@),
        r <= v@.len(),
{
    let mut i: usize = 0;
    while i < v.len()
        invariant
            0 <= i <= v@.len(),
            forall|j: int| 0 <= j < i ==> v@[j] != SIGNED_CONTENT_SEPARATOR,
        decreases v@.len() - i,
    {
        if v[i] == SIGNED_CONTENT_SEPARATOR {
            proof {
                lemma_first_sep_is(v@, i as int);
            }
            return i;
        }
        i += 1;
    }
    proof {
        lemma_first_sep_is(v@, i as int);
    }
    i
}

/// Check the signature of a sealed value and give the serialized payload back.
///
/// Exactly the payloads sealed under the same secret come back out; a missing
/// separator or empty field is malformed, a differing HMAC is an invalid
/// signature.
pub fn open_bytes(signed: &[u8], secret: &[u8]) -> (r: Result<Vec<u8>, EnvelopeError>)
    ensures
        r matches Ok(p) ==> signed@ == spec_sealed(p@, secret@),
        forall|plain: Seq<u8>|
            plain.len() > 0 && signed@ == spec_sealed(plain, secret@) ==> (r matches Ok(p) && p@
                == plain),
        forall|v: Seq<u8>|
            signed@ == base64_of(v) && !spec_split_ok(v) ==> r == Err::<
                Vec<u8>,
                EnvelopeError,
            >(EnvelopeError::MalformedEnvelope),
        forall|v: Seq<u8>|
            signed@ == base64_of(v) && spec_split_ok(v) && spec_sig_of(v) != hmac_hex_of(
                secret@,
                spec_payload_of(v),
            ) ==> r == Err::<Vec<u8>, EnvelopeError>(EnvelopeError::InvalidSignature),
        (forall|v: Seq<u8>| signed@ != base64_of(v)) ==> r == Err::<
            Vec<u8>,
            EnvelopeError,
        >(EnvelopeError::MalformedEnvelope),
{
    let framed_opt = base64_decode(signed);
    let framed = match framed_opt {
        Some(w) => w,
        None => {
            return Err(EnvelopeError::MalformedEnvelope);
        },
    };
    proof {
        assert forall|v: Seq<u8>| signed@ == base64_of(v) implies v == framed@ by {}
    }
    let n = framed.len();
    let i = find_sep(framed.as_slice());
    proof {
        lemma_first_sep_bounds(framed@);
    }
    if i == 0 || i >= n - 1 {
        proof {
            assert forall|plain: Seq<u8>|
                plain.len() > 0 && signed@ == spec_sealed(plain, secret@) implies false by {
                lemma_framed_split(plain, secret@);
            }
        }
        return Err(EnvelopeError::MalformedEnvelope);
    }
    let sig = subvec(framed.as_slice(), 0, i);
    let payload = subvec(framed.as_slice(), i + 1, n);
    proof {
        assert(sig@ == spec_sig_of(framed@));
        assert(payload@ == spec_payload_of(framed@));
    }
    let expected = signing(payload.as_slice(), secret);
    if !bytes_eq(sig.as_slice(), expected.as_slice()) {
        proof {
            assert forall|plain: Seq<u8>|
                plain.len() > 0 && signed@ == spec_sealed(plain, secret@) implies false by {
                lemma_framed_split(plain, secret@);
            }
        }
        return Err(EnvelopeError::InvalidSignature);
    }
    let plain_opt = base64_decode(payload.as_slice());
    match plain_opt {
        Some(p) => {
            proof {
                assert(framed@ =~= sig@ + seq![SIGNED_CONTENT_SEPARATOR] + payload@);
                assert(framed@ =~= spec_framed(p@, secret@));
                assert forall|plain: Seq<u8>|
                    plain.len() > 0 && signed@ == spec_sealed(plain, secret@) implies p@
                    == plain by {
                    lemma_framed_split(plain, secret@);
                    assert(payload@ == base64_of(plain));
                }
            }
            Ok(p)
        },
        None => {
            proof {
                assert forall|plain: Seq<u8>|
                    plain.len() > 0 && signed@ == spec_sealed(plain, secret@) implies false by {
                    lemma_framed_split(plain, secret@);
                    assert(payload@ == base64_of(plain));
                }
            }
            Err(EnvelopeError::MalformedEnvelope)
        },
    }
}

/// A tamper-evident, expiring envelope around a content string.
#[derive(Clone, Debug)]
pub struct SignedContent {
    pub content: String,
    pub signed_at: i64,
    pub expire: i64,
    pub nonce: u32,
    pub id: String,
}

/// The decimal text of an integer, with a leading minus for a negative one.
pub open spec fn dec_i64_bytes(n: int) -> Seq<u8> {
    if n < 0 {
        seq![45u8] + dec_bytes((0 - n) as nat)
    } else {
        dec_bytes(n as nat)
    }
}

fn i64_to_dec(n: i64) -> (r: Vec<u8>)
    ensures
        r@ == dec_i64_bytes(n as int),
{
    if n >= 0 {
        u64_to_dec(n as u64)
    } else {
        let m: u64 = if n == i64::MIN {
            9223372036854775808u64
        } else {
            (0i64 - n) as u64
        };
        proof {
            assert(m as nat == (0 - (n as int)) as nat);
        }
        let mut v: Vec<u8> = Vec::new();
        v.push(45);
        let mut rest = u64_to_dec(m);
        v.append(&mut rest);
        proof {
            assert(v@ =~= seq![45u8] + dec_bytes(m as nat));
        }
        v
    }
}

/// The envelope's JSON object: the fields in declaration order, the strings
/// in their escaped JSON form, the integers in decimal.
pub open spec fn envelope_json_of(
    content: Seq<char>,
    signed_at: i64,
    expire: i64,
    nonce: u32,
    id: Seq<char>,
) -> Seq<u8> {
    seq![123u8, 34u8, 99u8, 111u8, 110u8, 116u8, 101u8, 110u8, 116u8, 34u8, 58u8]  // {"content":
     + json_string_of(content)
        + seq![44u8, 34u8, 115u8, 105u8, 103u8, 110u8, 101u8, 100u8, 95u8, 97u8, 116u8, 34u8, 58u8]  // ,"signed_at":
     + dec_i64_bytes(signed_at as int)
        + seq![44u8, 34u8, 101u8, 120u8, 112u8, 105u8, 114u8, 101u8, 34u8, 58u8]  // ,"expire":
     + dec_i64_bytes(expire as int)
        + seq![44u8, 34u8, 110u8, 111u8, 110u8, 99u8, 101u8, 34u8, 58u8]  // ,"nonce":
     + dec_bytes(nonce as nat)
        + seq![44u8, 34u8, 105u8, 100u8, 34u8, 58u8]  // ,"id":
     + json_string_of(id)
        + seq![125u8]  // }
}

pub open spec fn spec_envelope_json(e: SignedContent) -> Seq<u8> {
    envelope_json_of(e.content@, e.signed_at, e.expire, e.nonce, e.id@)
}

/// The fields are the same, as values.
pub open spec fn envelope_eq(a: SignedContent, b: SignedContent) -> bool {
    &&& a.content@ == b.content@
    &&& a.signed_at == b.signed_at
    &&& a.expire == b.expire
    &&& a.nonce == b.nonce
    &&& a.id@ == b.id@
}

/// The envelope's JSON object, assembled byte by byte in the wire order; only
/// the two strings go through the trusted JSON string encoder.
fn envelope_to_json(e: &SignedContent) -> (r: Vec<u8>)
    ensures
        r@ == spec_envelope_json(*e),
{
    let mut v: Vec<u8> = Vec::new();
    v.push(123);
    v.push(34);
    v.push(99);
    v.push(111);
    v.push(110);
    v.push(116);
    v.push(101);
    v.push(110);
    v.push(116);
    v.push(34);
    v.push(58);
    proof {
        assert(v@ =~= seq![
            123u8, 34u8, 99u8, 111u8, 110u8, 116u8, 101u8, 110u8, 116u8, 34u8, 58u8,
        ]);
    }
    let mut content_json = json_encode_string(e.content.as_str());
    v.append(&mut content_json);
    let ghost s1 = v@;
    v.push(44);
    v.push(34);
    v.push(115);
    v.push(105);
    v.push(103);
    v.push(110);
    v.push(101);
    v.push(100);
    v.push(95);
    v.push(97);
    v.push(116);
    v.push(34);
    v.push(58);
    proof {
        assert(v@ =~= s1 + seq![
            44u8, 34u8, 115u8, 105u8, 103u8, 110u8, 101u8, 100u8, 95u8, 97u8, 116u8, 34u8, 58u8,
        ]);
    }
    let mut signed_at_dec = i64_to_dec(e.signed_at);
    v.append(&mut signed_at_dec);
    let ghost s2 = v@;
    v.push(44);
    v.push(34);
    v.push(101);
    v.push(120);
    v.push(112);
    v.push(105);
    v.push(114);
    v.push(101);
    v.push(34);
    v.push(58);
    proof {
        assert(v@ =~= s2 + seq![
            44u8, 34u8, 101u8, 120u8, 112u8, 105u8, 114u8, 101u8, 34u8, 58u8,
        ]);
    }
    let mut expire_dec = i64_to_dec(e.expire);
    v.append(&mut expire_dec);
    let ghost s3 = v@;
    v.push(44);
    v.push(34);
    v.push(110);
    v.push(111);
    v.push(110);
    v.push(99);
    v.push(101);
    v.push(34);
    v.push(58);
    proof {
        assert(v@ =~= s3 + seq![44u8, 34u8, 110u8, 111u8, 110u8, 99u8, 101u8, 34u8, 58u8]);
    }
    let mut nonce_dec = u64_to_dec(e.nonce as u64);
    v.append(&mut nonce_dec);
    let ghost s4 = v@;
    v.push(44);
    v.push(34);
    v.push(105);
    v.push(100);
    v.push(34);
    v.push(58);
    proof {
        assert(v@ =~= s4 + seq![44u8, 34u8, 105u8, 100u8, 34u8, 58u8]);
    }
    let mut id_json = json_encode_string(e.id.as_str());
    v.append(&mut id_json);
    v.push(125);
    proof {
        assert(v@ =~= spec_envelope_json(*e));
    }
    v
}

/// Relies on `serde_json::from_slice` via `serde_json::Value`: it parses back
/// every byte string of the envelope's JSON shape, to the same field values.
#[verifier::external_body]
fn envelope_from_json(b: &[u8]) -> (r: Option<SignedContent>)
    ensures
        r matches Some(e) ==> forall|c: Seq<char>, sa: i64, ex: i64, n: u32, id: Seq<char>|
            b@ == envelope_json_of(c, sa, ex, n, id) ==> e.content@ == c && e.signed_at == sa
                && e.expire == ex && e.nonce == n && e.id@ == id,
        r is None ==> forall|c: Seq<char>, sa: i64, ex: i64, n: u32, id: Seq<char>|
            b@ != envelope_json_of(c, sa, ex, n, id),
{
    let v: serde_json::Value = match serde_json::from_slice(b) {
        Ok(v) => v,
        Err(_) => return None,
    };
    Some(SignedContent {
        content: v.get("content")?.as_str()?.to_string(),
        signed_at: v.get("signed_at")?.as_i64()?,
        expire: v.get("expire")?.as_i64()?,
        nonce: u32::try_from(v.get("nonce")?.as_u64()?).ok()?,
        id: v.get("id")?.as_str()?.to_string(),
    })
}

/// Relies on `chrono::Utc::now().timestamp()`: the wall clock as Unix seconds.
/// Nothing is assumed of the value.
#[verifier::external_body]
pub fn now_seconds() -> i64 {
    chrono::Utc::now().timestamp()
}

/// Relies on `rand`: a random nonce. Nothing is assumed of the value.
#[verifier::external_body]
fn random_nonce() -> u32 {
    rand::rng().next_u32()
}

/// Relies on `xid::new`: a unique identifier, 20 characters in its text form.
#[verifier::external_body]
fn fresh_id() -> (r: String)
    ensures
        r@.len() == 20,
{
    xid::new().to_string()
}

/// `now >= signed_at + expire`, without overflowing the machine integers.
fn is_expired(signed_at: i64, expire: i64, now: i64) -> (r: bool)
    ensures
        r == (now >= signed_at + expire),
{
    match signed_at.checked_add(expire) {
        Some(s) => now >= s,
        None => expire <= 0,
    }
}

impl SignedContent {
    pub const DEFAULT_EXPIRATION: i64 = 30;

    /// A fresh envelope around `content`, valid for the default lifetime.
    pub fn new(content: String) -> (r: SignedContent)
        ensures
            r.content@ == content@,
            r.expire == Self::DEFAULT_EXPIRATION,
            r.id@.len() == 20,
    {
        Self::new_with_expire(content, Self::DEFAULT_EXPIRATION)
    }

    /// A fresh envelope around `content`, stamped with the current time, a
    /// random nonce and a unique identifier.
    pub fn new_with_expire(content: String, expire: i64) -> (r: SignedContent)
        ensures
            r.content@ == content@,
            r.expire == expire,
            r.id@.len() == 20,
    {
        SignedContent {
            signed_at: now_seconds(),
            expire,
            content,
            nonce: random_nonce(),
            id: fresh_id(),
        }
    }

    /// The sealed, base64-transportable form of this envelope under `secret`.
    pub fn to_signed_string(&self, secret: &str) -> (r: String)
        ensures
            r@ == ascii_chars_of(spec_sealed(spec_envelope_json(*self), secret.spec_bytes())),
    {
        let json = envelope_to_json(self);
        let sealed = seal_bytes(json.as_slice(), secret.as_bytes());
        proof {
            lemma_base64_shape(spec_framed(spec_envelope_json(*self), secret.spec_bytes()));
            assert forall|i: int| 0 <= i < sealed@.len() implies sealed@[i] < 128 by {
                assert(is_base64_byte(sealed@[i]));
            }
        }
        ascii_string(sealed)
    }

    /// Open a sealed envelope: check the signature, decode the fields, and
    /// reject it once its lifetime has passed. Every envelope sealed under the
    /// same secret comes back with its fields intact while it is unexpired,
    /// and with `Expired` afterwards; a signature mismatch is rejected as
    /// such, whatever the payload.
    pub fn parse(signed: &str, secret: &str, now: i64) -> (r: Result<SignedContent, EnvelopeError>)
        ensures
            r matches Ok(e) ==> (exists|p: Seq<u8>|
                signed.spec_bytes() == spec_sealed(p, secret.spec_bytes())) && now < e.signed_at
                + e.expire,
            forall|e: SignedContent|
                signed.spec_bytes() == spec_sealed(spec_envelope_json(e), secret.spec_bytes())
                    ==> (if now >= e.signed_at + e.expire {
                    r == Err::<SignedContent, EnvelopeError>(EnvelopeError::Expired)
                } else {
                    (r matches Ok(e2) && envelope_eq(e2, e))
                }),
            forall|v: Seq<u8>|
                signed.spec_bytes() == base64_of(v) && spec_split_ok(v) && spec_sig_of(v)
                    != hmac_hex_of(secret.spec_bytes(), spec_payload_of(v)) ==> r == Err::<
                    SignedContent,
                    EnvelopeError,
                >(EnvelopeError::InvalidSignature),
            forall|v: Seq<u8>|
                signed.spec_bytes() == base64_of(v) && !spec_split_ok(v) ==> r == Err::<
                    SignedContent,
                    EnvelopeError,
                >(EnvelopeError::MalformedEnvelope),
            (forall|v: Seq<u8>| signed.spec_bytes() != base64_of(v)) ==> r == Err::<
                SignedContent,
                EnvelopeError,
            >(EnvelopeError::MalformedEnvelope),
    {
        let plain = match open_bytes(signed.as_bytes(), secret.as_bytes()) {
            Ok(p) => p,
            Err(err) => {
                proof {
                    assert forall|e: SignedContent|
                        signed.spec_bytes() == spec_sealed(
                            spec_envelope_json(e),
                            secret.spec_bytes(),
                        ) implies false by {
                        assert(spec_envelope_json(e).len() > 0);
                    }
                }
                return Err(err);
            },
        };
        let envelope = match envelope_from_json(plain.as_slice()) {
            Some(e) => e,
            None => {
                proof {
                    assert forall|e: SignedContent|
                        signed.spec_bytes() == spec_sealed(
                            spec_envelope_json(e),
                            secret.spec_bytes(),
                        ) implies false by {
                        assert(spec_envelope_json(e).len() > 0);
                        assert(plain@ == spec_envelope_json(e));
                    }
                }
                return Err(EnvelopeError::MalformedEnvelope);
            },
        };
        if is_expired(envelope.signed_at, envelope.expire, now) {
            proof {
                assert forall|e: SignedContent|
                    signed.spec_bytes() == spec_sealed(spec_envelope_json(e), secret.spec_bytes())
                        && now < e.signed_at + e.expire implies false by {
                    assert(spec_envelope_json(e).len() > 0);
                    assert(plain@ == spec_envelope_json(e));
                }
            }
            return Err(EnvelopeError::Expired);
        }
        proof {
            assert forall|e: SignedContent|
                signed.spec_bytes() == spec_sealed(spec_envelope_json(e), secret.spec_bytes())
                    implies now < e.signed_at + e.expire && envelope_eq(envelope, e) by {
                assert(spec_envelope_json(e).len() > 0);
                assert(plain@ == spec_envelope_json(e));
            }
        }
        Ok(envelope)
    }
}

/// The padding-free, URL-safe base64 text of `raw`.
pub fn encode(raw: &[u8]) -> (r: String)
    ensures
        r@ == ascii_chars_of(base64_of(raw@)),
{
    let encoded = base64_encode(raw);
    proof {
        lemma_base64_shape(raw@);
        assert forall|i: int| 0 <= i < encoded@.len() implies encoded@[i] < 128 by {
            assert(is_base64_byte(encoded@[i]));
        }
    }
    ascii_string(encoded)
}

/// The bytes a padding-free, URL-safe base64 text stands for, and nothing for
/// any other text.
pub fn decode(encoded: &[u8]) -> (r: Option<Vec<u8>>)
    ensures
        r matches Some(v) ==> encoded@ == base64_of(v@),
        r matches Some(v) ==> forall|b: Seq<u8>| encoded@ == base64_of(b) ==> v@ == b,
        r is None ==> forall|b: Seq<u8>| encoded@ != base64_of(b),
{
    base64_decode(encoded)
}

pub uninterp spec fn json_string_raw(s: Seq<char>) -> Seq<u8>;

/// The JSON form of a string value: at least its two quote characters.
pub open spec fn json_string_of(s: Seq<char>) -> Seq<u8> {
    if json_string_raw(s).len() >= 2 {
        json_string_raw(s)
    } else {
        seq![34u8, 34u8]
    }
}

/// Relies on `serde_json::to_vec` on a string: its quoted, escaped JSON form.
#[verifier::external_body]
fn json_encode_string(s: &str) -> (r: Vec<u8>)
    ensures
        r@ == json_string_of(s@),
        r@ == json_string_raw(s@),
{
    serde_json::to_vec(s).unwrap_or_default()
}

/// Relies on `serde_json::from_slice`: it parses back every JSON string the
/// encoder produces, to the same characters.
#[verifier::external_body]
fn json_decode_string(b: &[u8]) -> (r: Option<String>)
    ensures
        r matches Some(t) ==> forall|s: Seq<char>| b@ == json_string_of(s) ==> t@ == s,
        r is None ==> forall|s: Seq<char>| b@ != json_string_of(s),
{
    serde_json::from_slice(b).ok()
}

/// Serialize a string value and seal it under `secret`.
pub fn signed_content(content: &str, secret: &str) -> (r: String)
    ensures
        r@ == ascii_chars_of(spec_sealed(json_string_of(content@), secret.spec_bytes())),
{
    let json = json_encode_string(content);
    let sealed = seal_bytes(json.as_slice(), secret.as_bytes());
    proof {
        lemma_base64_shape(spec_framed(json_string_of(content@), secret.spec_bytes()));
        assert forall|i: int| 0 <= i < sealed@.len() implies sealed@[i] < 128 by {
            assert(is_base64_byte(sealed@[i]));
        }
    }
    ascii_string(sealed)
}

/// Check a sealed string value and give the string back. Every value sealed
/// under the same secret comes back unchanged; a signature mismatch is
/// rejected as such.
pub fn parse_signed_content(signed: &str, secret: &str) -> (r: Result<String, EnvelopeError>)
    ensures
        r matches Ok(t) ==> exists|p: Seq<u8>|
            signed.spec_bytes() == spec_sealed(p, secret.spec_bytes()),
        forall|s: Seq<char>|
            signed.spec_bytes() == spec_sealed(json_string_of(s), secret.spec_bytes()) ==> (r
                matches Ok(t) && t@ == s),
        forall|v: Seq<u8>|
            signed.spec_bytes() == base64_of(v) && spec_split_ok(v) && spec_sig_of(v)
                != hmac_hex_of(secret.spec_bytes(), spec_payload_of(v)) ==> r == Err::<
                String,
                EnvelopeError,
            >(EnvelopeError::InvalidSignature),
        forall|v: Seq<u8>|
            signed.spec_bytes() == base64_of(v) && !spec_split_ok(v) ==> r == Err::<
                String,
                EnvelopeError,
            >(EnvelopeError::MalformedEnvelope),
        (forall|v: Seq<u8>| signed.spec_bytes() != base64_of(v)) ==> r == Err::<
            String,
            EnvelopeError,
        >(EnvelopeError::MalformedEnvelope),
{
    let plain = match open_bytes(signed.as_bytes(), secret.as_bytes()) {
        Ok(p) => p,
        Err(err) => {
            return Err(err);
        },
    };
    match json_decode_string(plain.as_slice()) {
        Some(t) => Ok(t),
        None => {
            proof {
                assert forall|s: Seq<char>|
                    signed.spec_bytes() == spec_sealed(json_string_of(s), secret.spec_bytes())
                        implies false by {
                    assert(plain@ == json_string_of(s));
                }
            }
            Err(EnvelopeError::MalformedEnvelope)
        },
    }
}

} // verus!
