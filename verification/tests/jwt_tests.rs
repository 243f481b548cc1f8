//! Bearer-token verification against real HS512 tokens minted with
//! jsonwebtoken.

use gateway_core::auth::{auth_conclude, auth_step, parse_token_user, AuthOutcome, AuthStep, TokenUser};
use gateway_core::errors::ErrorResponse;

fn claims(iss: serde_json::Value, exp: i64, user_id: i64) -> serde_json::Value {
    let mut cla = serde_json::Map::new();
    cla.insert("user_id".to_string(), serde_json::Value::from(user_id));
    let mut m = serde_json::Map::new();
    m.insert("iss".to_string(), iss);
    m.insert("exp".to_string(), serde_json::Value::from(exp));
    m.insert("iat".to_string(), serde_json::Value::from(0));
    m.insert("cla".to_string(), serde_json::Value::Object(cla));
    serde_json::Value::Object(m)
}

fn mint(body: &serde_json::Value, secret: &str) -> String {
    jsonwebtoken::encode(
        &jsonwebtoken::Header::new(jsonwebtoken::Algorithm::HS512),
        body,
        &jsonwebtoken::EncodingKey::from_secret(secret.as_bytes()),
    )
    .unwrap()
}

fn config() -> gateway_core::auth::JwtAuthConfig {
    gateway_core::auth::new("gateway".to_owned(), "token key".to_owned())
}

#[test]
fn valid_token_yields_its_own_identity() {
    let token = mint(&claims(serde_json::Value::from("gateway"), 1_000, 42), "token key");
    assert_eq!(
        parse_token_user(&config(), &token, 900),
        Some(TokenUser { user_id: 42 })
    );
    // Expiry is strict: accepted up to exp - 1, rejected from exp on.
    assert!(parse_token_user(&config(), &token, 999).is_some());
    assert!(parse_token_user(&config(), &token, 1_000).is_none());
    assert!(parse_token_user(&config(), &token, 2_000).is_none());
}

#[test]
fn wrong_issuer_is_rejected_despite_a_valid_signature() {
    let token = mint(&claims(serde_json::Value::from("someone else"), 1_000, 42), "token key");
    assert!(parse_token_user(&config(), &token, 900).is_none());
}

#[test]
fn array_valued_issuer_is_rejected() {
    // The issuer must equal the configured issuer exactly, as one string; a
    // token naming several issuers is not accepted for any of them.
    let iss = serde_json::Value::Array(vec![
        serde_json::Value::from("gateway"),
        serde_json::Value::from("someone else"),
    ]);
    let token = mint(&claims(iss, 1_000, 42), "token key");
    assert!(parse_token_user(&config(), &token, 900).is_none());
}

#[test]
fn wrong_secret_is_rejected() {
    let token = mint(&claims(serde_json::Value::from("gateway"), 1_000, 42), "another key");
    assert!(parse_token_user(&config(), &token, 900).is_none());
}

#[test]
fn every_single_character_mutation_of_a_valid_token_is_rejected() {
    let token = mint(&claims(serde_json::Value::from("gateway"), 1_000, 7), "token key");
    assert!(parse_token_user(&config(), &token, 900).is_some());
    for i in 0..token.len() {
        let mut bytes = token.clone().into_bytes();
        bytes[i] = if bytes[i] == b'A' { b'B' } else { b'A' };
        let mutated = String::from_utf8(bytes).unwrap();
        if mutated == token {
            continue;
        }
        assert!(
            parse_token_user(&config(), &mutated, 900).is_none(),
            "mutation at {} was accepted",
            i
        );
    }
}

#[test]
fn tampered_bearer_token_short_circuits_with_the_401_body() {
    let token = mint(&claims(serde_json::Value::from("gateway"), 1_000, 7), "token key");
    let mut bytes = token.clone().into_bytes();
    let last = bytes.len() - 1;
    bytes[last] = if bytes[last] == b'A' { b'B' } else { b'A' };
    let tampered = String::from_utf8(bytes).unwrap();
    let header = format!("Bearer {}", tampered);
    let (had_bearer, verified) = match auth_step(Some(&header)) {
        AuthStep::Verify(t) => (true, parse_token_user(&config(), &t, 900)),
        AuthStep::Pass => (false, None),
    };
    assert_eq!(auth_conclude(had_bearer, verified), AuthOutcome::Unauthorized);
    let (status, body) = ErrorResponse::new_with_status_code(401).into_status_and_body();
    assert_eq!(status, 401);
    assert_eq!(body, "{\"code\":401,\"message\":\"Unauthorized\"}");
}
