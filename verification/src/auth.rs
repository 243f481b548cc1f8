//! Bearer-token authentication: credential-header inspection, token
//! verification through the symmetric-key verifier, and the resulting
//! pass-through / attach-identity / short-circuit decision.

use vstd::prelude::*;
use vstd::string::*;

verus! {

/// The identity a verified token carries.
#[derive(Clone, Copy, Debug, Default, Hash, PartialEq, Eq, Structural)]
pub struct TokenUser {
    pub user_id: i64,
}

/// The validator's configuration: the only accepted issuer and the HMAC key.
#[derive(Clone, Debug)]
pub struct JwtAuthConfig {
    pub issuer: String,
    pub secret: String,
}

pub fn new(issuer: String, secret: String) -> (r: JwtAuthConfig)
    ensures
        r.issuer@ == issuer@,
        r.secret@ == secret@,
{
    JwtAuthConfig { issuer, secret }
}

/// Where the single space of a two-field credential value stands, or the
/// length if there is no space.
pub open spec fn first_space(s: Seq<char>) -> int
    decreases s.len(),
{
    if s.len() == 0 {
        0
    } else if s[0] == ' ' {
        0
    } else {
        1 + first_space(s.skip(1))
    }
}

/// Exactly two space-separated fields: one space, anywhere.
pub open spec fn spec_two_fields(s: Seq<char>) -> bool {
    first_space(s) < s.len() && forall|j: int|
        first_space(s) < j < s.len() ==> (#[trigger] s[j]) != ' '
}

pub open spec fn spec_scheme_of(s: Seq<char>) -> Seq<char> {
    s.take(first_space(s))
}

pub open spec fn spec_token_of(s: Seq<char>) -> Seq<char> {
    s.skip(first_space(s) + 1)
}

proof fn lemma_first_space_bounds(s: Seq<char>)
    ensures
        0 <= first_space(s) <= s.len(),
        first_space(s) < s.len() ==> s[first_space(s)] == ' ',
        forall|j: int| 0 <= j < first_space(s) ==> s[j] != ' ',
    decreases s.len(),
{
    if s.len() > 0 && s[0] != ' ' {
        lemma_first_space_bounds(s.skip(1));
        assert forall|j: int| 0 <= j < first_space(s) implies s[j] != ' ' by {
            if j > 0 {
                assert(s.skip(1)[j - 1] == s[j]);
            }
        }
        assert(first_space(s) < s.len() ==> s[first_space(s)] == s.skip(1)[first_space(s.skip(1))]);
    }
}

proof fn lemma_first_space_is(s: Seq<char>, i: int)
    requires
        0 <= i <= s.len(),
        i < s.len() ==> s[i] == ' ',
        forall|j: int| 0 <= j < i ==> s[j] != ' ',
        i == s.len() ==> forall|j: int| 0 <= j < s.len() ==> s[j] != ' ',
    ensures
        first_space(s) == i,
{
    lemma_first_space_bounds(s);
    if first_space(s) < i {
        assert(s[first_space(s)] == ' ');
    } else if i < first_space(s) {
        assert(s[i] != ' ');
    }
}

/// Where the first space of `v` stands, or its length if there is none.
fn find_space(v: &str) -> (r: usize)
    ensures
        r as int == first_space(v@),
        r <= v@.len(),
{
    let n = v.unicode_len();
    let mut i: usize = 0;
    while i < n
        invariant
            0 <= i <= n == v@.len(),
            forall|j: int| 0 <= j < i ==> v@[j] != ' ',
        decreases n - i,
    {
        if v.get_char(i) == ' ' {
            proof {
                lemma_first_space_is(v@, i as int);
            }
            return i;
        }
        i += 1;
    }
    proof {
        lemma_first_space_is(v@, i as int);
    }
    i
}

/// The credential header's two fields, scheme and token, when it has exactly
/// that shape; nothing otherwise.
pub fn extract_authentication_fields(value: &str) -> (r: Option<(String, String)>)
    ensures
        r matches Some(f) ==> spec_two_fields(value@) && f.0@ == spec_scheme_of(value@) && f.1@
            == spec_token_of(value@),
        r is None ==> !spec_two_fields(value@),
{
    let n = value.unicode_len();
    let i = find_space(value);
    if i >= n {
        return None;
    }
    let mut j: usize = i + 1;
    while j < n
        invariant
            i < j <= n == value@.len(),
            i as int == first_space(value@),
            forall|k: int| i < k < j ==> value@[k] != ' ',
        decreases n - j,
    {
        if value.get_char(j) == ' ' {
            proof {
                if spec_two_fields(value@) {
                    assert(value@[j as int] != ' ');
                }
            }
            return None;
        }
        j += 1;
    }
    let scheme = value.substring_char(0, i).to_owned();
    let token = value.substring_char(i + 1, n).to_owned();
    proof {
        assert(scheme@ =~= spec_scheme_of(value@));
        assert(token@ =~= spec_token_of(value@));
    }
    Some((scheme, token))
}

/// What the validator does with a request before any token is verified.
#[derive(Debug)]
pub enum AuthStep {
    /// No credential, or an unrecognized or malformed one: the request passes
    /// through unauthenticated and the header stays untouched.
    Pass,
    /// A bearer credential: this token must be verified.
    Verify(String),
}

/// The bearer credential's token, where the header holds exactly two fields
/// under the recognized scheme; `Pass` in every other case.
pub fn auth_step(header: Option<&str>) -> (r: AuthStep)
    ensures
        header is None ==> r is Pass,
        header matches Some(h) ==> {
            if spec_two_fields(h@) && spec_scheme_of(h@) == "Bearer"@ {
                r matches AuthStep::Verify(t) && t@ == spec_token_of(h@)
            } else {
                r is Pass
            }
        },
{
    let value = match header {
        None => {
            return AuthStep::Pass;
        },
        Some(v) => v,
    };
    match extract_authentication_fields(value) {
        None => AuthStep::Pass,
        Some((scheme, token)) => {
            if crate::limiter::str_eq(scheme.as_str(), "Bearer") {
                AuthStep::Verify(token)
            } else {
                AuthStep::Pass
            }
        },
    }
}

/// Whether the token is a structurally valid JWT whose header names HS512,
/// whose payload parses as a JSON claims object, and whose HMAC-SHA512
/// signature verifies under the secret. A function of token and secret alone,
/// independent of any clock.
pub uninterp spec fn jwt_hs512_sig_ok(token: Seq<char>, secret: Seq<char>) -> bool;

/// The token's `iss` claim, where it carries exactly one as a single JSON
/// string; nothing for a missing or array-valued issuer.
pub uninterp spec fn jwt_issuer_of(token: Seq<char>) -> Option<Seq<char>>;

/// The token's `cla.user_id` claim as a 64-bit integer, where it carries one.
pub uninterp spec fn jwt_user_of(token: Seq<char>) -> Option<i64>;

/// The token's `exp` claim as a 64-bit integer, where it carries one.
pub uninterp spec fn jwt_exp_of(token: Seq<char>) -> Option<i64>;

/// Relies on `jsonwebtoken::decode` with HS512, with every claim check turned
/// off: it verifies only the signature (and the token's structure) and hands
/// the claims back as plain values — `cla.user_id`, `iss` (a single string;
/// an array-valued or missing issuer yields nothing) and `exp`. The result is
/// a function of token and secret alone; issuer equality and expiry are for
/// verified code to decide.
#[verifier::external_body]
fn jwt_decode_hs512(token: &str, secret: &str) -> (r: Option<(i64, String, i64)>)
    ensures
        r matches Some(c) ==> jwt_hs512_sig_ok(token@, secret@) && jwt_user_of(token@) == Some(c.0)
            && jwt_issuer_of(token@) == Some(c.1@) && jwt_exp_of(token@) == Some(c.2),
        r is None ==> !jwt_hs512_sig_ok(token@, secret@) || jwt_user_of(token@) is None
            || jwt_issuer_of(token@) is None || jwt_exp_of(token@) is None,
{
    let mut validation = jsonwebtoken::Validation::new(jsonwebtoken::Algorithm::HS512);
    validation.validate_exp = false;
    validation.validate_aud = false;
    validation.required_spec_claims = std::collections::HashSet::new();
    let key = jsonwebtoken::DecodingKey::from_secret(secret.as_bytes());
    let data = match jsonwebtoken::decode::<serde_json::Value>(token, &key, &validation) {
        Ok(d) => d,
        Err(_) => return None,
    };
    let user_id = data.claims.get("cla").and_then(|c| c.get("user_id")).and_then(|u| u.as_i64())?;
    let iss = data.claims.get("iss").and_then(|v| v.as_str())?.to_string();
    let exp = data.claims.get("exp").and_then(|v| v.as_i64())?;
    Some((user_id, iss, exp))
}

/// Verify a bearer token at time `now` and extract the caller's identity: a
/// token is accepted exactly when its HMAC-SHA512 signature verifies under
/// the configured key, its issuer is a single string equal to the configured
/// issuer, it carries a user claim, and its expiry lies strictly after `now`;
/// the attached identity is the token's own `cla.user_id` claim. Only the
/// signature check is trusted; issuer equality and expiry are decided here.
pub fn parse_token_user(config: &JwtAuthConfig, token: &str, now: i64) -> (r: Option<TokenUser>)
    ensures
        r matches Some(u) ==> jwt_user_of(token@) == Some(u.user_id),
        r is Some <==> (jwt_hs512_sig_ok(token@, config.secret@) && jwt_issuer_of(token@) == Some(
            config.issuer@,
        ) && jwt_user_of(token@) is Some && (jwt_exp_of(token@) matches Some(e) && e > now)),
{
    let claims = match jwt_decode_hs512(token, config.secret.as_str()) {
        Some(c) => c,
        None => {
            return None;
        },
    };
    let (user_id, iss, exp) = claims;
    if !crate::limiter::str_eq(iss.as_str(), config.issuer.as_str()) {
        return None;
    }
    if exp <= now {
        return None;
    }
    Some(TokenUser { user_id })
}

/// How the pipeline proceeds after the validator has looked at a request.
#[derive(Clone, Copy, Debug, PartialEq, Eq, Structural)]
pub enum AuthOutcome {
    /// Forward the request, with no identity attached; the header, if any,
    /// stays.
    PassThrough,
    /// Forward the request with this identity attached and the credential
    /// header removed.
    Forward(TokenUser),
    /// Short-circuit with an authentication failure.
    Unauthorized,
}

/// The validator's verdict, given whether a bearer token was present and what
/// the verifier said of it.
pub fn auth_conclude(had_bearer: bool, verified: Option<TokenUser>) -> (r: AuthOutcome)
    ensures
        !had_bearer ==> r == AuthOutcome::PassThrough,
        had_bearer ==> (verified matches Some(u) ==> r == AuthOutcome::Forward(u)),
        had_bearer && verified is None ==> r == AuthOutcome::Unauthorized,
{
    if !had_bearer {
        AuthOutcome::PassThrough
    } else {
        match verified {
            Some(u) => AuthOutcome::Forward(u),
            None => AuthOutcome::Unauthorized,
        }
    }
}

} // verus!
