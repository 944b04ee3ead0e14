use bartender::payload::{LoginPayload, RefreshPayload, RegisterPayload};
use bartender::service::{AuthError, AuthService};
use bartender::store::CredentialStore;
use bartender::tokens::{JWTState, TokenManager};

fn service(secret: &str, access: u64, refresh: u64) -> AuthService {
    let tm = TokenManager::new(JWTState {
        secret: secret.to_string(),
        access_token_expiration: access,
        refresh_token_expiration: refresh,
    });
    AuthService::new(CredentialStore::new(), tm)
}

fn register_payload(username: &str, email: &str, password: &str) -> RegisterPayload {
    RegisterPayload {
        username: username.to_string(),
        email: email.to_string(),
        password: password.to_string(),
    }
}

#[test]
fn scenario_register_login_validate_refresh() {
    let mut svc = service("scenario-secret", 60, 3600);
    let now: u64 = 1_700_000_000;

    // register -> created
    assert!(svc.register(register_payload("alice", "a@x.com", "Secret1!")).is_ok());

    // login -> a token pair whose expires_in is the configured access duration
    let login = LoginPayload { username: "alice".to_string(), password: "Secret1!".to_string() };
    let pair = svc.login(&login, now).unwrap();
    assert_eq!(pair.expires_in, 60);
    assert_eq!(pair.token_type, "Bearer");

    // validate(access_token) -> subject is alice's stored id
    let answer = svc.validate(&pair.access_token, now + 1).unwrap();
    let alice = svc.store.find_by_username("alice").unwrap();
    assert_eq!(answer.user_id, alice.id);
    assert_eq!(answer.message, "Token is valid");

    // after the access duration elapses the access token is rejected
    assert!(matches!(
        svc.validate(&pair.access_token, now + 60),
        Err(AuthError::InvalidOrExpiredToken)
    ));

    // refresh -> a new pair that validates, with a different refresh token
    let refresh = RefreshPayload { refresh_token: pair.refresh_token.clone() };
    let pair2 = svc.refresh(&refresh, now + 60).unwrap();
    let answer2 = svc.validate(&pair2.access_token, now + 61).unwrap();
    assert_eq!(answer2.user_id, alice.id);
    assert_ne!(pair2.refresh_token, pair.refresh_token);
}

#[test]
fn duplicate_username_registers_once() {
    let mut svc = service("dup-secret", 60, 3600);
    assert!(svc.register(register_payload("bob", "bob@x.com", "Secret1!")).is_ok());
    let second = svc.register(register_payload("bob", "other@x.com", "Secret1!"));
    assert!(matches!(second, Err(AuthError::AlreadyExists)));
}

#[test]
fn duplicate_email_registers_once() {
    let mut svc = service("dup-secret", 60, 3600);
    assert!(svc.register(register_payload("carol", "c@x.com", "Secret1!")).is_ok());
    let second = svc.register(register_payload("carla", "c@x.com", "Secret1!"));
    assert!(matches!(second, Err(AuthError::AlreadyExists)));
}

#[test]
fn wrong_password_and_unknown_user_are_indistinguishable() {
    let mut svc = service("login-secret", 60, 3600);
    assert!(svc.register(register_payload("dave", "d@x.com", "Secret1!")).is_ok());
    let now: u64 = 1_700_000_000;

    let wrong_password = svc.login(
        &LoginPayload { username: "dave".to_string(), password: "Wrong1!!".to_string() },
        now,
    );
    let unknown_user = svc.login(
        &LoginPayload { username: "nobody".to_string(), password: "Secret1!".to_string() },
        now,
    );
    assert!(matches!(wrong_password, Err(AuthError::InvalidCredentials)));
    assert!(matches!(unknown_user, Err(AuthError::InvalidCredentials)));
}

#[test]
fn register_rejects_malformed_input() {
    let mut svc = service("reg-secret", 60, 3600);

    // short username
    let r = svc.register(register_payload("ab", "a@x.com", "Secret1!"));
    match r {
        Err(AuthError::ValidationFailed(errors)) => {
            assert!(errors.iter().any(|e| e.field == "username"));
        },
        _ => panic!("expected a validation failure"),
    }

    // bad email
    let r = svc.register(register_payload("abcd", "not-an-email", "Secret1!"));
    match r {
        Err(AuthError::ValidationFailed(errors)) => {
            assert!(errors.iter().any(|e| e.field == "email"));
        },
        _ => panic!("expected a validation failure"),
    }

    // short password, and no special character
    let r = svc.register(register_payload("abcd", "a@x.com", "Short"));
    match r {
        Err(AuthError::ValidationFailed(errors)) => {
            assert!(errors.iter().any(|e| e.field == "password"
                && e.message == "Password must be at least 8 characters long"));
            assert!(errors.iter().any(|e| e.field == "password"
                && e.message == "Password must contain at least one special character"));
        },
        _ => panic!("expected a validation failure"),
    }

    // nothing was stored
    assert!(svc.store.find_by_username("ab").is_err());
    assert!(svc.store.find_by_username("abcd").is_err());
}

#[test]
fn refresh_with_garbage_token_rejected() {
    let svc = service("r-secret", 60, 3600);
    let r = svc.refresh(
        &RefreshPayload { refresh_token: "not.a.token".to_string() },
        1_700_000_000,
    );
    assert!(matches!(r, Err(AuthError::InvalidOrExpiredToken)));
}

#[test]
fn refresh_with_empty_token_is_validation_failure() {
    let svc = service("r-secret", 60, 3600);
    let r = svc.refresh(&RefreshPayload { refresh_token: "".to_string() }, 1_700_000_000);
    match r {
        Err(AuthError::ValidationFailed(errors)) => {
            assert_eq!(errors.len(), 1);
            assert_eq!(errors[0].field, "refresh_token");
        },
        _ => panic!("expected a validation failure"),
    }
}

#[test]
fn refresh_for_deleted_identity_is_user_not_found() {
    // issue under one store, refresh against another with the same secret
    let mut issuing = service("shared-secret", 60, 3600);
    assert!(issuing.register(register_payload("erin", "e@x.com", "Secret1!")).is_ok());
    let now: u64 = 1_700_000_000;
    let pair = issuing
        .login(&LoginPayload { username: "erin".to_string(), password: "Secret1!".to_string() }, now)
        .unwrap();

    let empty = service("shared-secret", 60, 3600);
    let r = empty.refresh(&RefreshPayload { refresh_token: pair.refresh_token }, now);
    assert!(matches!(r, Err(AuthError::UserNotFound)));
}

#[test]
fn login_at_timestamp_limit_is_internal() {
    let mut svc = service("edge-secret", 60, 3600);
    assert!(svc.register(register_payload("fred", "f@x.com", "Secret1!")).is_ok());
    let r = svc.login(
        &LoginPayload { username: "fred".to_string(), password: "Secret1!".to_string() },
        u64::MAX - 1,
    );
    assert!(matches!(r, Err(AuthError::Internal)));
}

#[test]
fn login_rejects_short_username() {
    let svc = service("v-secret", 60, 3600);
    let r = svc.login(
        &LoginPayload { username: "ab".to_string(), password: "Secret1!".to_string() },
        1_700_000_000,
    );
    match r {
        Err(AuthError::ValidationFailed(errors)) => {
            assert_eq!(errors.len(), 1);
            assert_eq!(errors[0].field, "username");
        },
        _ => panic!("expected a validation failure"),
    }
}

#[test]
fn validate_subject_is_an_identifier() {
    let mut svc = service("id-secret", 60, 3600);
    assert!(svc.register(register_payload("gina", "g@x.com", "Secret1!")).is_ok());
    let now: u64 = 1_700_000_000;
    let pair = svc
        .login(&LoginPayload { username: "gina".to_string(), password: "Secret1!".to_string() }, now)
        .unwrap();
    let answer = svc.validate(&pair.access_token, now).unwrap();
    assert!(uuid::Uuid::parse_str(&answer.user_id).is_ok());
}
