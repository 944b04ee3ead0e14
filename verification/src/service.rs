//! The authentication service: register, login, refresh and validate, as
//! stateless transactions over the credential store, the password hasher and
//! the token manager. Every collaborator failure is mapped here into one
//! closed error taxonomy; no raw storage or hasher error crosses out.
use vstd::prelude::*;

use crate::claims::sub_chars_wf;
use crate::password::verifies;
use crate::payload::{
    field_errors_view, spec_register_errors, FieldError, LoginPayload, RefreshPayload,
    RegisterPayload,
};
use crate::store::{
    is_uuid_string, lemma_uuid_sub_wf, uuid_parse_ok, CredentialStore, User, UserModel,
};
use crate::strutil::bytes_as_chars;
use crate::tokens::{spec_validate, token_bytes, TokenManager};
use vstd::string::StringExecFns;
use vstd::string::StringSliceAdditionalSpecFns;
use vstd::utf8::encode_utf8;

verus! {

/// The closed error taxonomy of the service boundary.
#[derive(Debug)]
pub enum AuthError {
    /// The caller's input is malformed; field-level detail attached.
    ValidationFailed(Vec<FieldError>),
    /// Registration hit a username or email already taken.
    AlreadyExists,
    /// Login failed — deliberately silent on whether the username exists.
    InvalidCredentials,
    /// The presented token is forged, malformed or past its expiry.
    InvalidOrExpiredToken,
    /// The token was valid but its identity no longer exists.
    UserNotFound,
    /// A collaborator fault unrelated to the caller's input.
    Internal,
}

/// The pair of tokens a successful login or refresh hands out. Never
/// persisted: a pure response value.
pub struct AccessTokens {
    pub access_token: String,
    pub refresh_token: String,
    pub token_type: String,
    pub expires_in: u64,
}

/// The answer of a successful validation: the token's subject.
pub struct ValidateResponse {
    pub user_id: String,
    pub message: String,
}

/// Whether login for this username and password is denied, and with what:
/// an unknown username and a wrong password yield one and the same value,
/// so the response shape reveals nothing about which it was.
pub open spec fn spec_login_denial(
    s: CredentialStore,
    username: Seq<char>,
    password: Seq<char>,
) -> Option<AuthError> {
    if !s.has_username(username) {
        Some(AuthError::InvalidCredentials)
    } else if !verifies(password, s.records()[s.username_index(username)].password_hash@) {
        Some(AuthError::InvalidCredentials)
    } else {
        None
    }
}

/// What a freshly issued token pair for `user` at instant `now` looks like,
/// relative to a token manager.
pub open spec fn tokens_for(tm: TokenManager, id: Seq<char>, now: u64, t: AccessTokens) -> bool {
    &&& encode_utf8(t.access_token@) == token_bytes(
        tm.secret_bytes(),
        encode_utf8(id),
        (now + tm.spec_access_expiration()) as u64,
    )
    &&& encode_utf8(t.refresh_token@) == token_bytes(
        tm.secret_bytes(),
        encode_utf8(id),
        (now + tm.spec_refresh_expiration()) as u64,
    )
    &&& t.token_type@ == "Bearer"@
    &&& t.expires_in == tm.spec_access_expiration()
}

/// Issue the response pair for an identity: a fresh access token and a
/// fresh refresh token under the configured lifetimes, the fixed scheme
/// name, and the access lifetime as `expires_in`. Fails as `Internal` only
/// when an expiry would not fit the timestamp range.
pub fn generate_tokens(tm: &TokenManager, user: &User, now: u64) -> (r: Result<
    AccessTokens,
    AuthError,
>)
    requires
        sub_chars_wf(user.id@),
    ensures
        now + tm.spec_access_expiration() <= u64::MAX && now + tm.spec_refresh_expiration()
            <= u64::MAX ==> (r matches Ok(t) && tokens_for(*tm, user.id@, now, t)),
        r is Ok ==> now + tm.spec_access_expiration() <= u64::MAX && now
            + tm.spec_refresh_expiration() <= u64::MAX,
        r is Err ==> (r matches Err(e) && e is Internal && (now + tm.spec_access_expiration()
            > u64::MAX || now + tm.spec_refresh_expiration() > u64::MAX)),
{
    let access_expiration = tm.access_token_expiration();
    let refresh_expiration = tm.refresh_token_expiration();
    if now > u64::MAX - access_expiration || now > u64::MAX - refresh_expiration {
        return Err(AuthError::Internal);
    }
    let access_token = tm.generate_access_token(user, now);
    let refresh_token = tm.generate_refresh_token(user, now);
    Ok(
        AccessTokens {
            access_token,
            refresh_token,
            token_type: String::from_str("Bearer"),
            expires_in: access_expiration,
        },
    )
}

/// The four-operation authentication service over its collaborators.
pub struct AuthService {
    pub store: CredentialStore,
    pub token_manager: TokenManager,
}

impl AuthService {
    pub fn new(store: CredentialStore, token_manager: TokenManager) -> (r: Self)
        ensures
            r.store == store,
            r.token_manager == token_manager,
    {
        AuthService { store, token_manager }
    }

    /// Register a new identity. `Ok` is "created": the store gained exactly
    /// one record carrying the requested username and email, a fresh
    /// identifier, and the password's hash — never the password. Malformed
    /// input is rejected with field detail and the store untouched; a taken
    /// username or email answers `AlreadyExists`; only a hasher fault or an
    /// identifier collision, both independent of the caller's input,
    /// answer `Internal`.
    pub fn register(&mut self, payload: RegisterPayload) -> (r: Result<(), AuthError>)
        requires
            old(self).store.wf(),
        ensures
            final(self).store.wf(),
            final(self).token_manager == old(self).token_manager,
            !payload.spec_valid() <==> (r matches Err(e) && e matches
                AuthError::ValidationFailed(_)),
            r matches Err(e) ==> (e matches AuthError::ValidationFailed(v)
                ==> field_errors_view(v@) == spec_register_errors(
                payload.username@,
                payload.email@,
                payload.password@,
            ) && final(self).store.records() == old(self).store.records()),
            !payload.spec_valid() ==> final(self).store.records() == old(self).store.records(),
            r is Ok ==> payload.spec_valid() && !old(self).store.has_username(payload.username@)
                && !old(self).store.has_email(payload.email@) && (exists|m: UserModel|
                final(self).store.records() == old(self).store.records().push(m)
                    && #[trigger] m.username@ == payload.username@ && m.email@ == payload.email@
                    && is_uuid_string(m.id@) && crate::password::hashed_from(
                    m.password_hash@,
                    payload.password@,
                )),
            (r matches Err(e) && e is AlreadyExists) ==> payload.spec_valid() && (old(self).store.has_username(payload.username@) || old(self).store.has_email(payload.email@))
                && final(self).store.records() == old(self).store.records(),
            (r matches Err(e) && e is Internal) ==> payload.spec_valid() && final(self).store.records() == old(self).store.records(),
            (r matches Err(e) && (e is AlreadyExists || e is Internal || e matches
                AuthError::ValidationFailed(_))) || r is Ok,
            payload.spec_valid() && (old(self).store.has_username(payload.username@) || old(self).store.has_email(payload.email@)) ==> (r matches Err(e) && (e is AlreadyExists
                || e is Internal)),
    {
        if let Err(v) = payload.validation() {
            return Err(AuthError::ValidationFailed(v));
        }
        let ghost uname = payload.username@;
        let ghost mail = payload.email@;
        let user = match User::try_from(payload) {
            Ok(u) => u,
            Err(_) => {
                return Err(AuthError::Internal);
            },
        };
        let model = UserModel::from(user);
        let ghost m = model;
        match self.store.create(model) {
            Ok(()) => {
                proof {
                    assert(final(self).store.records() == old(self).store.records().push(m)
                        && m.username@ == uname && m.email@ == mail);
                }
                Ok(())
            },
            Err(e) => {
                if e.is_user_already_exists() {
                    Err(AuthError::AlreadyExists)
                } else {
                    Err(AuthError::Internal)
                }
            },
        }
    }

    /// Log an identity in. Malformed input is rejected with field detail.
    /// An unknown username and a wrong password answer with one and the
    /// same `InvalidCredentials` value. A correct username and password
    /// yield a fresh token pair for the stored identity; only an expiry
    /// beyond the timestamp range answers `Internal`.
    pub fn login(&self, payload: &LoginPayload, now: u64) -> (r: Result<AccessTokens, AuthError>)
        requires
            self.store.wf(),
        ensures
            !payload.spec_valid() <==> (r matches Err(e) && e matches
                AuthError::ValidationFailed(v) && v@.len() == 1 && v@[0].field@ == "username"@),
            payload.spec_valid() ==> (spec_login_denial(
                self.store,
                payload.username@,
                payload.password@,
            ) matches Some(d) ==> r == Err::<AccessTokens, AuthError>(d)),
            r is Ok ==> now + self.token_manager.spec_access_expiration() <= u64::MAX && now
                + self.token_manager.spec_refresh_expiration() <= u64::MAX,
            payload.spec_valid() && spec_login_denial(
                self.store,
                payload.username@,
                payload.password@,
            ) is None ==> {
                let id = self.store.records()[self.store.username_index(payload.username@)].id@;
                &&& (now + self.token_manager.spec_access_expiration() <= u64::MAX && now
                    + self.token_manager.spec_refresh_expiration() <= u64::MAX ==> (r matches Ok(
                    t,
                ) && tokens_for(self.token_manager, id, now, t)))
                &&& (r is Err ==> (r matches Err(e) && e is Internal))
            },
    {
        if let Err(v) = payload.validate() {
            return Err(AuthError::ValidationFailed(v));
        }
        let model = match self.store.find_by_username(payload.username.as_str()) {
            Ok(m) => m,
            Err(_) => {
                return Err(AuthError::InvalidCredentials);
            },
        };
        let ghost idx = self.store.username_index(payload.username@);
        proof {
            assert(self.store.records()[idx].username@ == payload.username@);
        }
        let user = User::from(model);
        proof {
            assert(user.password_hash@ == self.store.records()[idx].password_hash@);
            assert(user.id@ == self.store.records()[idx].id@);
        }
        if !crate::password::verify(&payload.password, &user.password_hash) {
            return Err(AuthError::InvalidCredentials);
        }
        proof {
            lemma_uuid_sub_wf(user.id@);
        }
        generate_tokens(&self.token_manager, &user, now)
    }

    /// Rotate a refresh token. A token that does not validate — forged,
    /// malformed or expired — or whose subject is not an identifier answers
    /// `InvalidOrExpiredToken`; a valid token whose identity is gone
    /// answers `UserNotFound` (distinct: the token itself was good); a
    /// valid token for a present identity yields a brand-new pair, the
    /// presented token never reused.
    pub fn refresh(&self, payload: &RefreshPayload, now: u64) -> (r: Result<
        AccessTokens,
        AuthError,
    >)
        requires
            self.store.wf(),
        ensures
            !payload.spec_valid() <==> (r matches Err(e) && e matches
                AuthError::ValidationFailed(v) && v@.len() == 1 && v@[0].field@
                == "refresh_token"@),
            payload.spec_valid() && spec_validate(
                self.token_manager.secret_bytes(),
                encode_utf8(payload.refresh_token@),
                now,
            ) is Err ==> r == Err::<AccessTokens, AuthError>(AuthError::InvalidOrExpiredToken),
            r is Ok ==> now + self.token_manager.spec_access_expiration() <= u64::MAX && now
                + self.token_manager.spec_refresh_expiration() <= u64::MAX,
            payload.spec_valid() ==> (spec_validate(
                self.token_manager.secret_bytes(),
                encode_utf8(payload.refresh_token@),
                now,
            ) matches Ok(p) ==> {
                let sub = bytes_as_chars(p.0);
                &&& (!crate::store::uuid_parsable(sub) ==> r == Err::<AccessTokens, AuthError>(
                    AuthError::InvalidOrExpiredToken,
                ))
                &&& (crate::store::uuid_parsable(sub) && !self.store.has_id(sub) ==> r == Err::<
                    AccessTokens,
                    AuthError,
                >(AuthError::UserNotFound))
                &&& (crate::store::uuid_parsable(sub) && self.store.has_id(sub) ==> {
                    let id = self.store.records()[self.store.id_index(sub)].id@;
                    &&& (now + self.token_manager.spec_access_expiration() <= u64::MAX && now
                        + self.token_manager.spec_refresh_expiration() <= u64::MAX ==> (r matches
                    Ok(t) && tokens_for(self.token_manager, id, now, t)))
                    &&& (r is Err ==> (r matches Err(e) && e is Internal))
                })
            }),
    {
        if let Err(v) = payload.validate() {
            return Err(AuthError::ValidationFailed(v));
        }
        let claims = match self.token_manager.validate_token(payload.refresh_token.as_str(), now) {
            Ok(c) => c,
            Err(_) => {
                return Err(AuthError::InvalidOrExpiredToken);
            },
        };
        if !uuid_parse_ok(claims.sub.as_str()) {
            return Err(AuthError::InvalidOrExpiredToken);
        }
        let model = match self.store.find_by_id(claims.sub.as_str()) {
            Ok(m) => m,
            Err(_) => {
                return Err(AuthError::UserNotFound);
            },
        };
        let ghost idx = self.store.id_index(claims.sub@);
        proof {
            assert(self.store.records()[idx].id@ == claims.sub@);
        }
        let user = User::from(model);
        proof {
            assert(user.id@ == self.store.records()[idx].id@);
            lemma_uuid_sub_wf(user.id@);
        }
        generate_tokens(&self.token_manager, &user, now)
    }

    /// Validate a bearer token: its subject when the signature verifies
    /// under the current secret and the expiry has not passed, else
    /// `InvalidOrExpiredToken`. Never consults the store: a deleted
    /// identity stays valid until its token expires, by design.
    pub fn validate(&self, bearer_token: &str, now: u64) -> (r: Result<ValidateResponse, AuthError>)
        ensures
            match spec_validate(self.token_manager.secret_bytes(), bearer_token.spec_bytes(), now) {
                Ok(p) => r matches Ok(v) && v.user_id@ == bytes_as_chars(p.0) && v.message@
                    == "Token is valid"@,
                Err(_) => r == Err::<ValidateResponse, AuthError>(AuthError::InvalidOrExpiredToken),
            },
    {
        match self.token_manager.validate_token(bearer_token, now) {
            Ok(claims) => Ok(
                ValidateResponse {
                    user_id: claims.sub,
                    message: String::from_str("Token is valid"),
                },
            ),
            Err(_) => Err(AuthError::InvalidOrExpiredToken),
        }
    }
}

/// A successful registration leaves its username present in the store — so
/// a second registration of the same username cannot succeed again: by
/// `register`'s contract it answers `AlreadyExists` (or `Internal`, when
/// the hasher itself fails), never a second success.
pub proof fn lemma_registered_username_present(
    s0: CredentialStore,
    s1: CredentialStore,
    m: UserModel,
)
    requires
        s1.records() == s0.records().push(m),
    ensures
        s1.has_username(m.username@),
        s1.has_email(m.email@),
{
    let n = s0.records().len() as int;
    assert(s1.records()[n].username@ == m.username@);
    assert(s1.records()[n].email@ == m.email@);
}

/// A login denied for an unknown username and one denied for a wrong
/// password produce one and the same answer: the denial value carries no
/// trace of which of the two it was.
pub proof fn lemma_login_denial_indistinguishable(
    s: CredentialStore,
    u1: Seq<char>,
    p1: Seq<char>,
    u2: Seq<char>,
    p2: Seq<char>,
)
    requires
        !s.has_username(u1),
        s.has_username(u2),
        !verifies(p2, s.records()[s.username_index(u2)].password_hash@),
    ensures
        spec_login_denial(s, u1, p1) == spec_login_denial(s, u2, p2),
        spec_login_denial(s, u1, p1) == Some(AuthError::InvalidCredentials),
{
}

} // verus!
