//! Authentication decisions, error bodies, pagination and the random helpers.

use gateway_core::auth::{
    auth_conclude, auth_step, extract_authentication_fields, AuthOutcome, AuthStep, TokenUser,
};
use gateway_core::errors::{error_body, ErrorResponse};
use gateway_core::pager::Pager;
use gateway_core::random::{next_random_alphanumeric, next_random_numeric};
use gateway_core::request_id::correlation_id;

#[test]
fn credential_header_splits_into_exactly_two_fields() {
    let (scheme, token) = extract_authentication_fields("Bearer abc.def.ghi").unwrap();
    assert_eq!(scheme, "Bearer");
    assert_eq!(token, "abc.def.ghi");
    assert!(extract_authentication_fields("Bearer").is_none());
    assert!(extract_authentication_fields("Bearer a b").is_none());
    assert!(extract_authentication_fields("").is_none());
}

#[test]
fn auth_step_recognizes_only_the_bearer_scheme() {
    match auth_step(Some("Bearer tok")) {
        AuthStep::Verify(t) => assert_eq!(t, "tok"),
        AuthStep::Pass => panic!("a bearer credential must be verified"),
    }
    assert!(matches!(auth_step(Some("Basic dXNlcg==")), AuthStep::Pass));
    assert!(matches!(auth_step(Some("malformed")), AuthStep::Pass));
    assert!(matches!(auth_step(None), AuthStep::Pass));
}

#[test]
fn auth_conclusion_short_circuits_only_failed_bearer_tokens() {
    assert_eq!(auth_conclude(false, None), AuthOutcome::PassThrough);
    assert_eq!(
        auth_conclude(true, Some(TokenUser { user_id: 9 })),
        AuthOutcome::Forward(TokenUser { user_id: 9 })
    );
    assert_eq!(auth_conclude(true, None), AuthOutcome::Unauthorized);
}

#[test]
fn unauthorized_and_not_found_bodies() {
    let (status, body) = ErrorResponse::new_with_status_code(401).into_status_and_body();
    assert_eq!(status, 401);
    assert_eq!(body, "{\"code\":401,\"message\":\"Unauthorized\"}");
    let (status, body) = ErrorResponse::new_with_status_code(404).into_status_and_body();
    assert_eq!(status, 404);
    assert_eq!(body, "{\"code\":404,\"message\":\"Not Found\"}");
    let (status, body) = ErrorResponse::new_with_status_code(429).into_status_and_body();
    assert_eq!(status, 429);
    assert_eq!(body, "{\"code\":429,\"message\":\"Too Many Requests\"}");
    let (status, body) = ErrorResponse::new_with_message("name is required").into_status_and_body();
    assert_eq!(status, 400);
    assert_eq!(body, "{\"code\":400,\"message\":\"name is required\"}");
    assert_eq!(error_body(500, "Internal Server Error"), "{\"code\":500,\"message\":\"Internal Server Error\"}");
}

#[test]
fn pager_offset_and_validation() {
    let pager = Pager::default();
    assert_eq!(pager.page_num, 1);
    assert_eq!(pager.page_size, 10);
    assert_eq!(pager.offset(), 0);
    let p2 = Pager { page_num: 3, page_size: 50 };
    assert!(p2.is_valid());
    assert_eq!(p2.offset(), 100);
    assert!(!Pager { page_num: 0, page_size: 10 }.is_valid());
    assert!(!Pager { page_num: 1, page_size: 51 }.is_valid());
}

#[test]
fn random_strings_have_the_right_shape() {
    let a = next_random_alphanumeric(32);
    assert_eq!(a.len(), 32);
    assert!(a.chars().all(|c| c.is_ascii_alphanumeric()));
    let n = next_random_numeric(6);
    assert_eq!(n.len(), 6);
    assert!(n.chars().all(|c| c.is_ascii_digit()));
    assert_eq!(next_random_alphanumeric(0), "");
}

#[test]
fn correlation_id_fills_only_missing_headers() {
    let fresh = correlation_id(None).unwrap();
    assert_eq!(fresh.len(), 36);
    assert!(correlation_id(Some(fresh.as_str())).is_none());
    let another = correlation_id(None).unwrap();
    assert_ne!(fresh, another);
}

#[test]
fn malformed_bearer_token_short_circuits_unauthorized() {
    let config = gateway_core::auth::new("gateway".to_owned(), "token key".to_owned());
    let (had_bearer, verified) = match auth_step(Some("Bearer not-a-real-token")) {
        AuthStep::Verify(token) => (true, gateway_core::auth::parse_token_user(&config, &token, 0)),
        AuthStep::Pass => (false, None),
    };
    assert!(had_bearer);
    assert!(verified.is_none());
    assert_eq!(auth_conclude(had_bearer, verified), AuthOutcome::Unauthorized);
}

#[test]
fn internal_faults_render_a_generic_500_body() {
    let (status, body) =
        ErrorResponse::InternalError("detail stays server-side".to_owned()).into_status_and_body();
    assert_eq!(status, 500);
    assert_eq!(body, "{\"code\":500,\"message\":\"Internal Server Error\"}");
}

#[test]
fn error_body_escapes_the_message_as_json() {
    assert_eq!(
        error_body(400, "say \"hi\" and \\ back"),
        "{\"code\":400,\"message\":\"say \\\"hi\\\" and \\\\ back\"}"
    );
    let (status, body) =
        ErrorResponse::new_with_message("a \"quoted\" name").into_status_and_body();
    assert_eq!(status, 400);
    assert_eq!(body, "{\"code\":400,\"message\":\"a \\\"quoted\\\" name\"}");
}
