use bartender::store::User;
use bartender::tokens::{JWTState, TokenError, TokenManager};
use jsonwebtoken::{decode, Algorithm, DecodingKey, Validation};

fn manager(secret: &str) -> TokenManager {
    TokenManager::new(JWTState {
        secret: secret.to_string(),
        access_token_expiration: 300,
        refresh_token_expiration: 3600,
    })
}

fn user(id: &str) -> User {
    User {
        id: id.to_string(),
        username: "u".to_string(),
        email: "u@x.com".to_string(),
        password_hash: "h".to_string(),
    }
}

const ID: &str = "0e3eff51-79f5-4b85-b5a4-b8c6bbd4a3c5";

#[test]
fn issue_then_validate_roundtrip() {
    let tm = manager("round-secret");
    let now: u64 = 1_700_000_000;
    let token = tm.generate_access_token(&user(ID), now);
    let claims = tm.validate_token(&token, now).unwrap();
    assert_eq!(claims.sub, ID);
    assert_eq!(claims.exp, now + 300);
}

#[test]
fn expired_token_rejected_even_with_valid_signature() {
    let tm = manager("exp-secret");
    let now: u64 = 1_700_000_000;
    let token = tm.generate_access_token(&user(ID), now);
    // the instant the expiry is reached, the token no longer validates
    let r = tm.validate_token(&token, now + 300);
    assert_eq!(r.unwrap_err(), TokenError::Expired);
}

#[test]
fn token_signed_with_other_secret_rejected() {
    let ours = manager("secret-one");
    let theirs = manager("secret-two");
    let now: u64 = 1_700_000_000;
    let token = theirs.generate_access_token(&user(ID), now);
    let r = ours.validate_token(&token, now);
    assert_eq!(r.unwrap_err(), TokenError::InvalidSignature);
}

#[test]
fn tampered_token_rejected() {
    let tm = manager("tamper-secret");
    let now: u64 = 1_700_000_000;
    let token = tm.generate_access_token(&user(ID), now);
    let mut bytes = token.into_bytes();
    let last = bytes.len() - 1;
    bytes[last] = if bytes[last] == b'A' { b'B' } else { b'A' };
    let tampered = String::from_utf8(bytes).unwrap();
    let r = tm.validate_token(&tampered, now);
    assert_eq!(r.unwrap_err(), TokenError::InvalidSignature);
}

#[test]
fn garbage_tokens_rejected() {
    let tm = manager("g-secret");
    let now: u64 = 1_700_000_000;
    for bad in ["", "x", "a.b", "a.b.c", "...."] {
        assert_eq!(tm.validate_token(bad, now).unwrap_err(), TokenError::InvalidSignature);
    }
}

#[test]
fn issued_token_decodes_under_jsonwebtoken() {
    // the compact serialization interoperates: the jsonwebtoken crate
    // accepts the token under the same secret and reads the same claims
    let tm = manager("interop-secret");
    let now = chrono::Utc::now().timestamp() as u64;
    let token = tm.generate_access_token(&user(ID), now);
    let data = decode::<serde_json::Value>(
        &token,
        &DecodingKey::from_secret(b"interop-secret"),
        &Validation::new(Algorithm::HS256),
    )
    .unwrap();
    assert_eq!(data.claims.get("sub").and_then(|v| v.as_str()), Some(ID));
    assert_eq!(data.claims.get("exp").and_then(|v| v.as_u64()), Some(now + 300));
}

#[test]
fn refresh_token_uses_longer_lifetime() {
    let tm = manager("life-secret");
    let now: u64 = 1_700_000_000;
    let access = tm.generate_access_token(&user(ID), now);
    let refresh = tm.generate_refresh_token(&user(ID), now);
    assert_eq!(tm.validate_token(&access, now).unwrap().exp, now + 300);
    assert_eq!(tm.validate_token(&refresh, now).unwrap().exp, now + 3600);
    // a refresh token passes validation as a bearer credential too
    assert!(tm.validate_token(&refresh, now + 1000).is_ok());
}

#[test]
fn decode_jwt_yields_authenticated_user() {
    let tm = manager("d-secret");
    let now: u64 = 1_700_000_000;
    let token = tm.generate_access_token(&user(ID), now);
    let authed = tm.decode_jwt(&token, now).unwrap();
    assert_eq!(authed.id, ID);
}

#[test]
fn accessor_methods_report_configuration() {
    let tm = manager("a-secret");
    assert_eq!(tm.access_token_expiration(), 300);
    assert_eq!(tm.refresh_token_expiration(), 3600);
}
