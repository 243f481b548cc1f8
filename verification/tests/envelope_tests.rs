//! The signed-envelope codec, exercised with the real HMAC, hex, base64 and
//! JSON implementations linked in.

use gateway_core::envelope::{
    decode, encode, now_seconds, parse_signed_content, signed_content, signing,
    signing_none_secret, EnvelopeError, SignedContent,
};

#[test]
fn test_signature() {
    let raw = "string for signing";
    let secret = "secret";
    let _ = signing_none_secret(raw.as_bytes());
    let signed = signed_content(raw, secret);
    let parsed: String = parse_signed_content(&signed, secret).unwrap();
    assert_eq!(parsed, raw);
    let signed_content = SignedContent::new(raw.to_owned());
    let signed = signed_content.to_signed_string(secret);
    let parse: SignedContent = SignedContent::parse(&signed, secret, now_seconds()).unwrap();
    assert_eq!(parse.content, raw);
}

#[test]
fn envelope_round_trip_preserves_every_field() {
    let envelope = SignedContent {
        content: "/api/x".to_owned(),
        signed_at: 1_000,
        expire: 60,
        nonce: 7,
        id: "abcdefghij0123456789".to_owned(),
    };
    let signed = envelope.to_signed_string("a shared secret");
    let back = SignedContent::parse(&signed, "a shared secret", 1_030).unwrap();
    assert_eq!(back.content, "/api/x");
    assert_eq!(back.signed_at, 1_000);
    assert_eq!(back.expire, 60);
    assert_eq!(back.nonce, 7);
    assert_eq!(back.id, "abcdefghij0123456789");
}

#[test]
fn envelope_rejects_other_secret_with_invalid_signature() {
    let signed = signed_content("payload text", "secret one");
    let err = parse_signed_content(&signed, "secret two").unwrap_err();
    assert_eq!(err, EnvelopeError::InvalidSignature);
}

#[test]
fn envelope_rejects_expired_even_with_correct_signature() {
    let envelope = SignedContent {
        content: "/api/x".to_owned(),
        signed_at: 1_000,
        expire: 30,
        nonce: 0,
        id: "id".to_owned(),
    };
    let signed = envelope.to_signed_string("secret");
    assert_eq!(
        SignedContent::parse(&signed, "secret", 1_030).unwrap_err(),
        EnvelopeError::Expired
    );
    assert_eq!(
        SignedContent::parse(&signed, "secret", 2_000).unwrap_err(),
        EnvelopeError::Expired
    );
    assert!(SignedContent::parse(&signed, "secret", 1_029).is_ok());
}

#[test]
fn envelope_rejects_garbage_as_malformed() {
    assert_eq!(
        parse_signed_content("%%% not base64 %%%", "secret").unwrap_err(),
        EnvelopeError::MalformedEnvelope
    );
    // A sealed frame without any separator inside.
    let no_sep = encode(b"justonefieldwithoutseparator");
    assert_eq!(
        parse_signed_content(&no_sep, "secret").unwrap_err(),
        EnvelopeError::MalformedEnvelope
    );
}

#[test]
fn signing_is_hex_hmac_of_the_payload() {
    let sig = signing(b"some payload", b"key");
    assert_eq!(sig.len(), 64);
    assert!(sig.iter().all(|b| b.is_ascii_hexdigit()));
    // Differs for another key or payload.
    assert_ne!(sig, signing(b"some payload", b"other key"));
    assert_ne!(sig, signing(b"other payload", b"key"));
}

#[test]
fn base64_helpers_round_trip_and_reject() {
    let text = encode(b"\x00\xffbinary");
    assert_eq!(decode(text.as_bytes()).unwrap(), b"\x00\xffbinary".to_vec());
    // The wrapper really encodes: the text differs from its input.
    assert_eq!(encode(b"ab"), "YWI");
    assert_eq!(decode(b"YWI").unwrap(), b"ab".to_vec());
    assert!(decode(b"@@@").is_none());
}

#[test]
fn sha256_digest_is_hex_and_not_the_input() {
    let digest = signing_none_secret(b"string for signing");
    assert_eq!(digest.len(), 64);
    assert!(digest.iter().all(|b| b.is_ascii_hexdigit()));
    assert_ne!(digest, b"string for signing".to_vec());
}

#[test]
fn fresh_envelopes_carry_a_unique_twenty_character_id() {
    let a = SignedContent::new("x".to_owned());
    let b = SignedContent::new("x".to_owned());
    assert_eq!(a.id.len(), 20);
    assert_eq!(b.id.len(), 20);
    assert_ne!(a.id, b.id);
    assert_eq!(a.expire, SignedContent::DEFAULT_EXPIRATION);
}

#[test]
fn every_single_character_mutation_of_a_sealed_value_is_rejected() {
    let secret = "shared secret";
    let signed = signed_content("/api/x", secret);
    assert!(parse_signed_content(&signed, secret).is_ok());
    for i in 0..signed.len() {
        let mut bytes = signed.clone().into_bytes();
        bytes[i] = if bytes[i] == b'A' { b'B' } else { b'A' };
        let mutated = String::from_utf8(bytes).unwrap();
        if mutated == signed {
            continue;
        }
        assert!(
            parse_signed_content(&mutated, secret).is_err(),
            "mutation at {} was accepted",
            i
        );
    }
}

#[test]
fn envelope_round_trip_with_negative_and_extreme_timestamps() {
    let envelope = SignedContent {
        content: "c".to_owned(),
        signed_at: -100,
        expire: 200,
        nonce: u32::MAX,
        id: "i".to_owned(),
    };
    let signed = envelope.to_signed_string("k");
    let back = SignedContent::parse(&signed, "k", 99).unwrap();
    assert_eq!(back.signed_at, -100);
    assert_eq!(back.expire, 200);
    assert_eq!(back.nonce, u32::MAX);
    assert_eq!(
        SignedContent::parse(&signed, "k", 100).unwrap_err(),
        EnvelopeError::Expired
    );
    let extreme = SignedContent {
        content: String::new(),
        signed_at: i64::MIN,
        expire: i64::MAX,
        nonce: 0,
        id: String::new(),
    };
    let signed = extreme.to_signed_string("k");
    // signed_at + expire is -1 here, so the envelope expires at -1 already.
    let back = SignedContent::parse(&signed, "k", -2).unwrap();
    assert_eq!(back.signed_at, i64::MIN);
    assert_eq!(back.expire, i64::MAX);
    assert_eq!(back.content, "");
    assert_eq!(
        SignedContent::parse(&signed, "k", 0).unwrap_err(),
        EnvelopeError::Expired
    );
}
