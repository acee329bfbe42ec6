//! Bearer tokens for the HTTP layer: issuing a signed token for an account
//! and reading the account back out of one.  Both lean on the jsonwebtoken
//! crate.

use vstd::prelude::*;

verus! {

/// The claims a token carries: the account it stands for and its expiry,
/// as seconds since the epoch.
#[allow(non_snake_case)]
pub struct Claims {
    pub userId: i32,
    pub exp: usize,
}

/// A bearer token, as peeled off an authorization header.
pub struct Token(pub String);

/// The signed token encoding the given claims under the fixed signing key.
/// A function of the claims alone.
pub uninterp spec fn jwt_token_of(user_id: int, exp: int) -> Seq<char>;

/// Issue a token for the claims.
///
/// Relies on jsonwebtoken's `encode` with the default header: HMAC signing
/// over a fixed serialization, deterministic in the claims.
#[verifier::external_body]
pub fn create_jwt(claims: &Claims) -> (r: Option<String>)
    ensures
        r matches Some(token) ==> token@ == jwt_token_of(
            claims.userId as int,
            claims.exp as int,
        ),
{
    let encoding_key = jsonwebtoken::EncodingKey::from_secret(b"secret_key");
    let mut payload = serde_json::Map::new();
    payload.insert("userId".to_string(), serde_json::Value::from(claims.userId));
    payload.insert("exp".to_string(), serde_json::Value::from(claims.exp as u64));
    jsonwebtoken::encode(
        &jsonwebtoken::Header::default(),
        &serde_json::Value::Object(payload),
        &encoding_key,
    ).ok()
}

/// Read the account out of a token, if it verifies.
///
/// Relies on jsonwebtoken's `decode` with the default validation: the
/// signature is checked against the fixed key and the expiry against the
/// clock, so nothing is promised of the outcome.
#[verifier::external_body]
pub fn validate_jwt(token: &str) -> (r: Option<i32>) {
    let decoding_key = jsonwebtoken::DecodingKey::from_secret(b"secret_key");
    let validation = jsonwebtoken::Validation::default();
    match jsonwebtoken::decode::<serde_json::Value>(token, &decoding_key, &validation) {
        Ok(data) => data.claims.get("userId").and_then(|v| v.as_i64()).and_then(
            |v| i32::try_from(v).ok(),
        ),
        Err(_) => None,
    }
}

} // verus!
