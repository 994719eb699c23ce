use bifrost::auth::{
    authorize_bearer, bearer_token, check_api_key, create_token, namespace_valid, AuthError,
};
use bifrost::jwt::{generate_token, validate_token};

const SECRET: &str = "test-signing-secret";

#[test]
fn token_round_trip() {
    let user = String::from("u-1");
    let ns = String::from("acme");
    let token = generate_token(&user, &ns, SECRET, 1000);
    let claims = validate_token(token.as_str(), SECRET, 1000).unwrap();
    assert_eq!(claims.sub, "u-1");
    assert_eq!(claims.namespace, "acme");
    assert_eq!(claims.exp, 4600);
}

#[test]
fn expired_token_rejected() {
    let user = String::from("u-1");
    let ns = String::from("acme");
    let token = generate_token(&user, &ns, SECRET, 1000);
    // exp is 4600: still good one second before, refused from then on.
    assert!(validate_token(token.as_str(), SECRET, 4599).is_ok());
    assert!(matches!(
        validate_token(token.as_str(), SECRET, 4600),
        Err(AuthError::Unauthorized)
    ));
}

#[test]
fn forged_token_rejected() {
    let user = String::from("u-1");
    let ns = String::from("acme");
    let token = generate_token(&user, &ns, SECRET, 1000);
    assert!(matches!(
        validate_token(token.as_str(), "another-signing-secret", 1000),
        Err(AuthError::Unauthorized)
    ));
    assert!(matches!(
        validate_token("not.a.token", SECRET, 1000),
        Err(AuthError::Unauthorized)
    ));
}

#[test]
fn create_token_rejects_empty_user_id() {
    let user = String::new();
    let ns = String::from("acme");
    assert!(matches!(
        create_token(&user, &ns, SECRET, 1000),
        Err(AuthError::ValidationError)
    ));
}

#[test]
fn create_token_rejects_bad_namespace() {
    let user = String::from("u-1");
    for bad in ["", "ac me", "acme!", "a/b", "caf\u{00e9}"] {
        let ns = String::from(bad);
        assert!(matches!(
            create_token(&user, &ns, SECRET, 1000),
            Err(AuthError::ValidationError)
        ));
    }
}

#[test]
fn create_token_accepts_good_namespace() {
    let user = String::from("u-1");
    for good in ["acme", "a-b-1", "X", "tenant-42"] {
        let ns = String::from(good);
        let jwt = create_token(&user, &ns, SECRET, 1000).unwrap();
        let claims = validate_token(jwt.as_str(), SECRET, 1000).unwrap();
        assert_eq!(claims.namespace, good);
        assert_eq!(claims.exp, 4600);
    }
}

#[test]
fn namespace_character_class() {
    assert!(namespace_valid("acme"));
    assert!(namespace_valid("a-b-1"));
    assert!(!namespace_valid(""));
    assert!(!namespace_valid("a b"));
    assert!(!namespace_valid("a_b"));
}

#[test]
fn bearer_scheme_parsing() {
    assert_eq!(bearer_token("Bearer abc"), Some(String::from("abc")));
    assert_eq!(bearer_token("Bearer "), Some(String::new()));
    assert_eq!(bearer_token("bearer abc"), None);
    assert_eq!(bearer_token("Basic abc"), None);
    assert_eq!(bearer_token("Bear"), None);
}

/// A request with no Authorization header is refused by the bearer policy
/// alone: no storage backend is ever consulted — the policy takes none.
#[test]
fn missing_header_is_unauthorized() {
    assert!(matches!(
        authorize_bearer(None, SECRET, 0),
        Err(AuthError::Unauthorized)
    ));
}

#[test]
fn bearer_policy_accepts_its_own_tokens() {
    let user = String::from("u-1");
    let ns = String::from("acme");
    let token = generate_token(&user, &ns, SECRET, 1000);
    let header = format!("Bearer {token}");
    let claims = authorize_bearer(Some(&header), SECRET, 1000).unwrap();
    assert_eq!(claims.namespace, "acme");
    assert_eq!(claims.sub, "u-1");
}

#[test]
fn api_key_comparison() {
    let expected = String::from("k-123");
    let right = String::from("k-123");
    let wrong = String::from("k-124");
    assert!(check_api_key(Some(&right), &expected));
    assert!(!check_api_key(Some(&wrong), &expected));
    assert!(!check_api_key(None, &expected));
}
