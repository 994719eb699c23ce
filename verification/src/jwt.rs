//! Signed bearer credentials: minting and validating HS256 tokens that
//! carry a subject, a namespace and an expiry.

use vstd::prelude::*;

use crate::auth::AuthError;

verus! {

/// The claims a bearer credential carries.
pub struct Claims {
    pub sub: String,
    pub namespace: String,
    pub exp: u64,
}

/// How long a freshly minted credential lives, in seconds.
pub const TOKEN_LIFETIME: u64 = 3600;

/// What HS256 signing returns for these claims under a secret: the
/// token is a function of the secret and the claims alone.
pub uninterp spec fn jwt_token_of(
    secret: Seq<char>,
    sub: Seq<char>,
    namespace: Seq<char>,
    exp: u64,
) -> Seq<char>;

/// What HS256 verification recovers from a token under a secret: the
/// `(sub, namespace, exp)` claims when the signature checks and the
/// claims are well-formed, nothing otherwise. Expiry is judged
/// separately, so the result depends on the secret and token alone.
pub uninterp spec fn jwt_claims_of(secret: Seq<char>, token: Seq<char>) -> Option<
    (Seq<char>, Seq<char>, u64),
>;

/// Relies on `jsonwebtoken::encode` with the default HS256 header: the
/// token is deterministic in the secret and the claims, and decoding it
/// under the same secret recovers exactly those claims.
#[verifier::external_body]
fn hs256_sign(secret: &str, sub: &String, namespace: &String, exp: u64) -> (r: String)
    ensures
        r@ == jwt_token_of(secret@, sub@, namespace@, exp),
        jwt_claims_of(secret@, r@) == Some((sub@, namespace@, exp)),
{
    let mut claims = serde_json::Map::new();
    claims.insert("sub".to_string(), serde_json::Value::String(sub.clone()));
    claims.insert("namespace".to_string(), serde_json::Value::String(namespace.clone()));
    claims.insert("exp".to_string(), serde_json::Value::from(exp));
    let key = jsonwebtoken::EncodingKey::from_secret(secret.as_bytes());
    let header = jsonwebtoken::Header::default();
    jsonwebtoken::encode(&header, &serde_json::Value::Object(claims), &key).unwrap()
}

/// Relies on `jsonwebtoken::decode` with HS256 and expiry validation
/// turned off, so the outcome depends on the secret and the token
/// alone: it verifies the signature and hands back the `sub`,
/// `namespace` and `exp` claims.
#[verifier::external_body]
fn hs256_verify(secret: &str, token: &str) -> (r: Option<(String, String, u64)>)
    ensures
        match r {
            Some(c) => jwt_claims_of(secret@, token@) == Some((c.0@, c.1@, c.2)),
            None => jwt_claims_of(secret@, token@) is None,
        },
{
    let key = jsonwebtoken::DecodingKey::from_secret(secret.as_bytes());
    let mut validation = jsonwebtoken::Validation::default();
    validation.validate_exp = false;
    let data = jsonwebtoken::decode::<serde_json::Value>(token, &key, &validation).ok()?;
    let sub = data.claims.get("sub")?.as_str()?.to_string();
    let namespace = data.claims.get("namespace")?.as_str()?.to_string();
    let exp = data.claims.get("exp")?.as_u64()?;
    Some((sub, namespace, exp))
}

/// Mint a credential for `(user_id, namespace)` that expires one hour
/// past `now`.
pub fn generate_token(user_id: &String, namespace: &String, secret: &str, now: u64) -> (r: String)
    requires
        now <= u64::MAX - TOKEN_LIFETIME,
    ensures
        r@ == jwt_token_of(secret@, user_id@, namespace@, (now + TOKEN_LIFETIME) as u64),
        jwt_claims_of(secret@, r@) == Some(
            (user_id@, namespace@, (now + TOKEN_LIFETIME) as u64),
        ),
{
    hs256_sign(secret, user_id, namespace, now + TOKEN_LIFETIME)
}

/// Validate a credential against the secret and the clock: the claims
/// come back exactly when the signature checks and the expiry is still
/// ahead of `now`.
pub fn validate_token(token: &str, secret: &str, now: u64) -> (r: Result<Claims, AuthError>)
    ensures
        match r {
            Ok(c) => {
                &&& jwt_claims_of(secret@, token@) == Some((c.sub@, c.namespace@, c.exp))
                &&& c.exp > now
            },
            Err(e) => {
                &&& e == AuthError::Unauthorized
                &&& match jwt_claims_of(secret@, token@) {
                    Some(c) => c.2 <= now,
                    None => true,
                }
            },
        },
{
    match hs256_verify(secret, token) {
        Some(c) => {
            if c.2 > now {
                Ok(Claims { sub: c.0, namespace: c.1, exp: c.2 })
            } else {
                Err(AuthError::Unauthorized)
            }
        },
        None => Err(AuthError::Unauthorized),
    }
}

} // verus!
