//! Signed bearer tokens: compact `header.claims.signature` serialization over
//! HMAC-SHA256, issuance for an identity with a chosen lifetime, and stateless
//! validation that accepts a token exactly when its signature matches the
//! current secret and its expiry has not passed.
use vstd::prelude::*;

use crate::b64::{
    b64_decode_bytes, b64_encode_bytes, b64url_decode, b64url_encode, is_b64_byte,
    lemma_encode_alphabet,
};
use crate::claims::{
    claims_json_bytes, claims_to_json, parse_claims, parse_claims_bytes, sub_bytes_wf, Claims,
};
use crate::store::User;
use crate::strutil::{bytes_as_chars, lemma_ascii_bytes_chars, string_bytes, string_from_ascii};
use vstd::string::StringSliceAdditionalSpecFns;

verus! {

/// Configuration for token signing: the symmetric secret and the two
/// lifetimes, in seconds, for access and refresh tokens.
pub struct JWTState {
    pub secret: String,
    pub access_token_expiration: u64,
    pub refresh_token_expiration: u64,
}

/// The subject a validated token vouches for.
#[derive(Debug, Clone)]
pub struct AuthenticatedUser {
    pub id: String,
}

/// A successfully authenticated caller, as an extractor-style wrapper.
#[derive(Debug, Clone)]
pub struct JwtAuth(pub AuthenticatedUser);

/// Why a token was rejected: the signature (or the token's very shape) does
/// not verify against the current secret, or the expiry has passed.
#[derive(Debug, PartialEq, Eq, Structural, Clone, Copy)]
pub enum TokenError {
    InvalidSignature,
    Expired,
}

/// The HMAC-SHA256 tag of a message under a secret, in base64url form, as
/// the jsonwebtoken crate computes it. A pure function of its arguments.
pub uninterp spec fn hs256_sig_of(secret: Seq<u8>, message: Seq<u8>) -> Seq<u8>;

/// Relies on `jsonwebtoken::crypto::sign` with `Algorithm::HS256` and a
/// secret-bytes key: the result is the base64url (unpadded) encoding of the
/// 32-byte HMAC-SHA256 tag — 43 alphabet characters — and signing never
/// fails for an HMAC key.
#[verifier::external_body]
fn hs256_sign(secret: &Vec<u8>, message: &Vec<u8>) -> (r: Vec<u8>)
    ensures
        r@ == hs256_sig_of(secret@, message@),
        r@.len() == 43,
        forall|i: int| 0 <= i < r@.len() ==> is_b64_byte(#[trigger] r@[i]),
{
    let key = jsonwebtoken::EncodingKey::from_secret(secret.as_slice());
    let sig = jsonwebtoken::crypto::sign(message.as_slice(), &key, jsonwebtoken::Algorithm::HS256)
        .expect("HMAC signing does not fail");
    sig.into_bytes()
}

/// The fixed token header `{"alg":"HS256","typ":"JWT"}`.
pub open spec fn header_json() -> Seq<u8> {
    seq![
        123u8, 34u8, 97u8, 108u8, 103u8, 34u8, 58u8, 34u8, 72u8, 83u8, 50u8, 53u8, 54u8, 34u8,
        44u8, 34u8, 116u8, 121u8, 112u8, 34u8, 58u8, 34u8, 74u8, 87u8, 84u8, 34u8, 125u8,
    ]
}

/// The part of a token that is signed: encoded header, dot, encoded claims.
pub open spec fn signing_input(sub: Seq<u8>, exp: u64) -> Seq<u8> {
    b64_encode_bytes(header_json()) + seq![46u8] + b64_encode_bytes(claims_json_bytes(sub, exp))
}

/// The full token issued under a secret for a subject and an expiry.
pub open spec fn token_bytes(secret: Seq<u8>, sub: Seq<u8>, exp: u64) -> Seq<u8> {
    signing_input(sub, exp) + seq![46u8] + hs256_sig_of(secret, signing_input(sub, exp))
}

/// The position of the first `.` at or after `i`.
pub open spec fn first_dot(s: Seq<u8>, i: int) -> Option<int>
    decreases s.len() - i when 0 <= i <= s.len()
{
    if i >= s.len() {
        None
    } else if s[i] == 46 {
        Some(i)
    } else {
        first_dot(s, i + 1)
    }
}

/// What validation of a token under a secret at an instant returns: the
/// subject and expiry exactly when the token has the issued shape, its
/// signature is the current secret's tag over its first two segments, and
/// its expiry lies strictly in the future; the matching rejection otherwise.
pub open spec fn spec_validate(secret: Seq<u8>, token: Seq<u8>, now: u64) -> Result<
    (Seq<u8>, u64),
    TokenError,
> {
    match first_dot(token, 0) {
        None => Err(TokenError::InvalidSignature),
        Some(d1) => match first_dot(token, d1 + 1) {
            None => Err(TokenError::InvalidSignature),
            Some(d2) => {
                if token.subrange(0, d1) != b64_encode_bytes(header_json()) {
                    Err(TokenError::InvalidSignature)
                } else if token.subrange(d2 + 1, token.len() as int) != hs256_sig_of(
                    secret,
                    token.subrange(0, d2),
                ) {
                    Err(TokenError::InvalidSignature)
                } else {
                    match b64_decode_bytes(token.subrange(d1 + 1, d2)) {
                        None => Err(TokenError::InvalidSignature),
                        Some(pj) => match parse_claims_bytes(pj) {
                            None => Err(TokenError::InvalidSignature),
                            Some((sub, exp)) => if exp <= now {
                                Err(TokenError::Expired)
                            } else {
                                Ok((sub, exp))
                            },
                        },
                    }
                }
            },
        },
    }
}

/// A scan that found no dot before `k`, and a dot at `k`, pins `first_dot`.
pub proof fn lemma_first_dot_at(s: Seq<u8>, i: int, k: int)
    requires
        0 <= i <= k < s.len(),
        forall|j: int| i <= j < k ==> s[j] != 46,
        s[k] == 46,
    ensures
        first_dot(s, i) == Some(k),
    decreases k - i,
{
    if i < k {
        lemma_first_dot_at(s, i + 1, k);
    }
}

/// A scan that found no dot from `i` on pins `first_dot` to `None`.
pub proof fn lemma_first_dot_none(s: Seq<u8>, i: int)
    requires
        0 <= i <= s.len(),
        forall|j: int| i <= j < s.len() ==> s[j] != 46,
    ensures
        first_dot(s, i) is None,
    decreases s.len() - i,
{
    if i < s.len() {
        lemma_first_dot_none(s, i + 1);
    }
}

/// The issued token splits back into exactly the segments it was built from:
/// its first dot ends the encoded header, its second ends the encoded claims,
/// and what follows is the signature over everything before it.
pub proof fn lemma_token_shape(secret: Seq<u8>, sub: Seq<u8>, exp: u64)
    ensures
        ({
            let t = token_bytes(secret, sub, exp);
            let a = b64_encode_bytes(header_json());
            let b = b64_encode_bytes(claims_json_bytes(sub, exp));
            let d1 = a.len() as int;
            let d2 = a.len() + 1 + b.len() as int;
            &&& first_dot(t, 0) == Some(d1)
            &&& first_dot(t, d1 + 1) == Some(d2)
            &&& t.subrange(0, d1) == a
            &&& t.subrange(d1 + 1, d2) == b
            &&& t.subrange(0, d2) == signing_input(sub, exp)
            &&& t.subrange(d2 + 1, t.len() as int) == hs256_sig_of(secret, signing_input(sub, exp))
        }),
{
    let t = token_bytes(secret, sub, exp);
    let a = b64_encode_bytes(header_json());
    let b = b64_encode_bytes(claims_json_bytes(sub, exp));
    let s = hs256_sig_of(secret, signing_input(sub, exp));
    let d1 = a.len() as int;
    let d2 = a.len() + 1 + b.len() as int;
    lemma_encode_alphabet(header_json());
    lemma_encode_alphabet(claims_json_bytes(sub, exp));
    assert(t =~= a + seq![46u8] + b + seq![46u8] + s);
    assert(forall|j: int| 0 <= j < d1 ==> t[j] == #[trigger] a[j]);
    assert(forall|j: int| 0 <= j < d1 ==> #[trigger] t[j] != 46) by {
        assert(forall|j: int| 0 <= j < d1 ==> is_b64_byte(#[trigger] a[j]));
    }
    assert(t[d1] == 46);
    lemma_first_dot_at(t, 0, d1);
    assert(forall|j: int| d1 + 1 <= j < d2 ==> t[j] == #[trigger] b[j - (d1 + 1)]);
    assert(forall|j: int| d1 + 1 <= j < d2 ==> #[trigger] t[j] != 46) by {
        assert(forall|j: int| 0 <= j < b.len() ==> is_b64_byte(#[trigger] b[j]));
    }
    assert(t[d2] == 46);
    lemma_first_dot_at(t, d1 + 1, d2);
    assert(t.subrange(0, d1) =~= a);
    assert(t.subrange(d1 + 1, d2) =~= b);
    assert(t.subrange(0, d2) =~= signing_input(sub, exp));
    assert(t.subrange(d2 + 1, t.len() as int) =~= s);
}

/// Issuing a token and validating it immediately — under the same secret,
/// before its expiry — yields back exactly the subject it was issued for.
pub proof fn lemma_issue_then_validate(secret: Seq<u8>, sub: Seq<u8>, exp: u64, now: u64)
    requires
        sub_bytes_wf(sub),
        now < exp,
    ensures
        spec_validate(secret, token_bytes(secret, sub, exp), now) == Ok::<
            (Seq<u8>, u64),
            TokenError,
        >((sub, exp)),
{
    lemma_token_shape(secret, sub, exp);
    crate::b64::lemma_b64_roundtrip(claims_json_bytes(sub, exp));
    crate::claims::lemma_claims_roundtrip(sub, exp);
}

/// A token whose expiry has passed is rejected as expired, although its
/// signature is genuine.
pub proof fn lemma_expired_rejected(secret: Seq<u8>, sub: Seq<u8>, exp: u64, now: u64)
    requires
        sub_bytes_wf(sub),
        exp <= now,
    ensures
        spec_validate(secret, token_bytes(secret, sub, exp), now) == Err::<
            (Seq<u8>, u64),
            TokenError,
        >(TokenError::Expired),
{
    lemma_token_shape(secret, sub, exp);
    crate::b64::lemma_b64_roundtrip(claims_json_bytes(sub, exp));
    crate::claims::lemma_claims_roundtrip(sub, exp);
}

/// A token signed under a different secret is rejected, whenever the two
/// secrets' tags differ on this message — which is the point of a MAC.
pub proof fn lemma_wrong_secret_rejected(
    ours: Seq<u8>,
    theirs: Seq<u8>,
    sub: Seq<u8>,
    exp: u64,
    now: u64,
)
    requires
        hs256_sig_of(theirs, signing_input(sub, exp)) != hs256_sig_of(
            ours,
            signing_input(sub, exp),
        ),
    ensures
        spec_validate(ours, token_bytes(theirs, sub, exp), now) == Err::<
            (Seq<u8>, u64),
            TokenError,
        >(TokenError::InvalidSignature),
{
    lemma_token_shape(theirs, sub, exp);
}

/// Rotation really rotates: two tokens for one subject under one secret
/// differ whenever their expiries differ — so the pair issued on refresh
/// never repeats the presented refresh token once the clock has advanced.
pub proof fn lemma_distinct_expiry_distinct_token(secret: Seq<u8>, sub: Seq<u8>, e1: u64, e2: u64)
    requires
        sub_bytes_wf(sub),
        e1 != e2,
    ensures
        token_bytes(secret, sub, e1) != token_bytes(secret, sub, e2),
{
    if token_bytes(secret, sub, e1) == token_bytes(secret, sub, e2) {
        if e1 > 0 && e2 > 0 {
            lemma_issue_then_validate(secret, sub, e1, 0);
            lemma_issue_then_validate(secret, sub, e2, 0);
        } else if e1 == 0 {
            lemma_expired_rejected(secret, sub, e1, 0);
            lemma_issue_then_validate(secret, sub, e2, 0);
        } else {
            lemma_issue_then_validate(secret, sub, e1, 0);
            lemma_expired_rejected(secret, sub, e2, 0);
        }
    }
}

/// The fixed token header, as bytes.
fn header_json_vec() -> (r: Vec<u8>)
    ensures
        r@ == header_json(),
{
    let mut out: Vec<u8> = Vec::new();
    out.push(123);
    out.push(34);
    out.push(97);
    out.push(108);
    out.push(103);
    out.push(34);
    out.push(58);
    out.push(34);
    out.push(72);
    out.push(83);
    out.push(50);
    out.push(53);
    out.push(54);
    out.push(34);
    out.push(44);
    out.push(34);
    out.push(116);
    out.push(121);
    out.push(112);
    out.push(34);
    out.push(58);
    out.push(34);
    out.push(74);
    out.push(87);
    out.push(84);
    out.push(34);
    out.push(125);
    proof {
        assert(out@ =~= header_json());
    }
    out
}

/// Assemble and sign a token. Every byte of the result is ASCII.
fn build_token(secret: &Vec<u8>, sub: &Vec<u8>, exp: u64) -> (r: Vec<u8>)
    ensures
        r@ == token_bytes(secret@, sub@, exp),
        forall|i: int| 0 <= i < r@.len() ==> #[trigger] r@[i] < 128,
{
    let header = header_json_vec();
    let mut msg = b64url_encode(&header);
    msg.push(46);
    let cj = claims_to_json(sub, exp);
    let mut ec = b64url_encode(&cj);
    msg.append(&mut ec);
    proof {
        assert(msg@ =~= signing_input(sub@, exp));
    }
    let sig = hs256_sign(secret, &msg);
    let mut tok = msg;
    tok.push(46);
    let mut sig2 = sig;
    tok.append(&mut sig2);
    proof {
        assert(tok@ =~= token_bytes(secret@, sub@, exp));
        lemma_encode_alphabet(header_json());
        lemma_encode_alphabet(claims_json_bytes(sub@, exp));
        assert forall|i: int| 0 <= i < tok@.len() implies #[trigger] tok@[i] < 128 by {
            let a = b64_encode_bytes(header_json());
            let b = b64_encode_bytes(claims_json_bytes(sub@, exp));
            let d1 = a.len() as int;
            let d2 = a.len() + 1 + b.len() as int;
            if i < d1 {
                assert(tok@[i] == a[i] && is_b64_byte(a[i]));
            } else if i == d1 || i == d2 {
            } else if i < d2 {
                assert(tok@[i] == b[i - (d1 + 1)] && is_b64_byte(b[i - (d1 + 1)]));
            } else {
                assert(is_b64_byte(tok@[i]));
            }
        }
    }
    tok
}

/// Equality of two byte vectors.
fn bytes_eq(a: &Vec<u8>, b: &Vec<u8>) -> (r: bool)
    ensures
        r == (a@ == b@),
{
    if a.len() != b.len() {
        return false;
    }
    let n = a.len();
    let mut i: usize = 0;
    while i < n
        invariant
            i <= n,
            n == a@.len() == b@.len(),
            forall|j: int| 0 <= j < i ==> a@[j] == b@[j],
        decreases n - i,
    {
        if a[i] != b[i] {
            return false;
        }
        i = i + 1;
    }
    proof {
        assert(a@ =~= b@);
    }
    true
}

/// The bytes of `v` from `lo` (inclusive) to `hi` (exclusive).
fn subvec(v: &Vec<u8>, lo: usize, hi: usize) -> (r: Vec<u8>)
    requires
        lo <= hi <= v@.len(),
    ensures
        r@ == v@.subrange(lo as int, hi as int),
{
    let mut out: Vec<u8> = Vec::new();
    let mut i: usize = lo;
    while i < hi
        invariant
            lo <= i <= hi <= v@.len(),
            out@ =~= v@.subrange(lo as int, i as int),
        decreases hi - i,
    {
        out.push(v[i]);
        proof {
            assert(v@.subrange(lo as int, i + 1) =~= v@.subrange(lo as int, i as int).push(
                v@[i as int],
            ));
        }
        i = i + 1;
    }
    out
}

/// Owns the signing secret and the two token lifetimes. Carries no other
/// state: safe to share read-only among concurrent callers.
pub struct TokenManager {
    secret: Vec<u8>,
    access_token_expiration: u64,
    refresh_token_expiration: u64,
}

impl TokenManager {
    /// The signing secret in effect, fixed at construction.
    pub closed spec fn secret_bytes(&self) -> Seq<u8> {
        self.secret@
    }

    /// The configured access-token lifetime, in seconds.
    pub closed spec fn spec_access_expiration(&self) -> u64 {
        self.access_token_expiration
    }

    /// The configured refresh-token lifetime, in seconds.
    pub closed spec fn spec_refresh_expiration(&self) -> u64 {
        self.refresh_token_expiration
    }

    pub fn access_token_expiration(&self) -> (r: u64)
        ensures
            r == self.spec_access_expiration(),
    {
        self.access_token_expiration
    }

    pub fn refresh_token_expiration(&self) -> (r: u64)
        ensures
            r == self.spec_refresh_expiration(),
    {
        self.refresh_token_expiration
    }

    pub fn new(jwt_state: JWTState) -> (r: Self)
        ensures
            r.secret_bytes() == vstd::utf8::encode_utf8(jwt_state.secret@),
            r.spec_access_expiration() == jwt_state.access_token_expiration,
            r.spec_refresh_expiration() == jwt_state.refresh_token_expiration,
    {
        let secret = string_bytes(jwt_state.secret.as_str());
        TokenManager {
            secret,
            access_token_expiration: jwt_state.access_token_expiration,
            refresh_token_expiration: jwt_state.refresh_token_expiration,
        }
    }

    /// Sign a token for an identity, expiring `duration` seconds after `now`.
    fn generate_token(&self, user: &User, now: u64, duration: u64) -> (r: String)
        requires
            crate::claims::sub_chars_wf(user.id@),
            now + duration <= u64::MAX,
        ensures
            r@ == bytes_as_chars(
                token_bytes(
                    self.secret_bytes(),
                    vstd::utf8::encode_utf8(user.id@),
                    (now + duration) as u64,
                ),
            ),
            vstd::utf8::encode_utf8(r@) == token_bytes(
                self.secret_bytes(),
                vstd::utf8::encode_utf8(user.id@),
                (now + duration) as u64,
            ),
    {
        let sub = string_bytes(user.id.as_str());
        let exp = now + duration;
        let tok = build_token(&self.secret, &sub, exp);
        let s = string_from_ascii(&tok);
        proof {
            lemma_ascii_bytes_chars(tok@);
        }
        s
    }

    /// Issue an access token: claims carry the identity's id as subject and
    /// an expiry of `now` plus the configured access lifetime.
    pub fn generate_access_token(&self, user: &User, now: u64) -> (r: String)
        requires
            crate::claims::sub_chars_wf(user.id@),
            now + self.spec_access_expiration() <= u64::MAX,
        ensures
            vstd::utf8::encode_utf8(r@) == token_bytes(
                self.secret_bytes(),
                vstd::utf8::encode_utf8(user.id@),
                (now + self.spec_access_expiration()) as u64,
            ),
    {
        self.generate_token(user, now, self.access_token_expiration)
    }

    /// Issue a refresh token: the same shape, under the longer configured
    /// lifetime. Nothing but the caller's bookkeeping tells the two apart.
    pub fn generate_refresh_token(&self, user: &User, now: u64) -> (r: String)
        requires
            crate::claims::sub_chars_wf(user.id@),
            now + self.spec_refresh_expiration() <= u64::MAX,
        ensures
            vstd::utf8::encode_utf8(r@) == token_bytes(
                self.secret_bytes(),
                vstd::utf8::encode_utf8(user.id@),
                (now + self.spec_refresh_expiration()) as u64,
            ),
    {
        self.generate_token(user, now, self.refresh_token_expiration)
    }

    /// Validate a bearer token at instant `now`: its claims exactly when the
    /// signature verifies under the current secret and the expiry is still
    /// in the future; the classified rejection otherwise. A token whose
    /// header is not this library's fixed HS256 header is rejected outright,
    /// so no other algorithm can be smuggled past the boundary.
    pub fn validate_token(&self, token: &str, now: u64) -> (r: Result<Claims, TokenError>)
        ensures
            match r {
                Ok(c) => {
                    &&& spec_validate(self.secret_bytes(), token.spec_bytes(), now) matches Ok(p)
                    &&& c.sub@ == bytes_as_chars(p.0)
                    &&& c.exp == p.1
                },
                Err(e) => spec_validate(self.secret_bytes(), token.spec_bytes(), now) == Err::<
                    (Seq<u8>, u64),
                    TokenError,
                >(e),
            },
    {
        let t = string_bytes(token);
        let n = t.len();
        // first dot: end of the encoded header
        let mut d1: usize = 0;
        while d1 < n && t[d1] != 46
            invariant
                d1 <= n,
                n == t@.len(),
                forall|j: int| 0 <= j < d1 ==> t@[j] != 46,
            decreases n - d1,
        {
            d1 = d1 + 1;
        }
        if d1 == n {
            proof {
                lemma_first_dot_none(t@, 0);
            }
            return Err(TokenError::InvalidSignature);
        }
        proof {
            lemma_first_dot_at(t@, 0, d1 as int);
        }
        // second dot: end of the encoded claims
        let mut d2: usize = d1 + 1;
        while d2 < n && t[d2] != 46
            invariant
                d1 + 1 <= d2 <= n,
                n == t@.len(),
                forall|j: int| d1 + 1 <= j < d2 ==> t@[j] != 46,
            decreases n - d2,
        {
            d2 = d2 + 1;
        }
        if d2 == n {
            proof {
                lemma_first_dot_none(t@, d1 + 1);
            }
            return Err(TokenError::InvalidSignature);
        }
        proof {
            lemma_first_dot_at(t@, d1 + 1, d2 as int);
        }
        // the header must be exactly the one this library signs
        let header = header_json_vec();
        let expected_header = b64url_encode(&header);
        let seg0 = subvec(&t, 0, d1);
        if !bytes_eq(&seg0, &expected_header) {
            return Err(TokenError::InvalidSignature);
        }
        // the signature must be the current secret's tag over the message
        let msg = subvec(&t, 0, d2);
        let expected_sig = hs256_sign(&self.secret, &msg);
        let sig = subvec(&t, d2 + 1, n);
        if !bytes_eq(&sig, &expected_sig) {
            return Err(TokenError::InvalidSignature);
        }
        // decode and parse the claims
        let seg1 = subvec(&t, d1 + 1, d2);
        let pj = match b64url_decode(&seg1) {
            Some(p) => p,
            None => {
                return Err(TokenError::InvalidSignature);
            },
        };
        let (sub, exp) = match parse_claims(&pj) {
            Some(p) => p,
            None => {
                return Err(TokenError::InvalidSignature);
            },
        };
        // the expiry must still be in the future
        if exp <= now {
            return Err(TokenError::Expired);
        }
        let sub_str = string_from_ascii(&sub);
        Ok(Claims { sub: sub_str, exp })
    }

    /// Validate a bearer token and hand back the authenticated caller.
    pub fn decode_jwt(&self, token: &str, now: u64) -> (r: Result<AuthenticatedUser, TokenError>)
        ensures
            match r {
                Ok(u) => {
                    &&& spec_validate(self.secret_bytes(), token.spec_bytes(), now) matches Ok(p)
                    &&& u.id@ == bytes_as_chars(p.0)
                },
                Err(e) => spec_validate(self.secret_bytes(), token.spec_bytes(), now) == Err::<
                    (Seq<u8>, u64),
                    TokenError,
                >(e),
            },
    {
        match self.validate_token(token, now) {
            Ok(claims) => Ok(AuthenticatedUser { id: claims.sub }),
            Err(e) => Err(e),
        }
    }
}

impl Claims {
    /// The claims for an identity: its id as subject, expiring `duration`
    /// seconds after `now`.
    pub fn from_user(user: &User, now: u64, duration: u64) -> (r: Claims)
        requires
            now + duration <= u64::MAX,
        ensures
            r.sub@ == user.id@,
            r.exp == now + duration,
    {
        Claims { sub: user.id.clone(), exp: now + duration }
    }
}

} // verus!
