//! One-way salted password hashing and verification, over the bcrypt crate.
//! Verification is a pure function of the password and the stored hash;
//! hashing draws a fresh salt, so two hashes of one password differ, yet
//! both verify it and nothing else.
use vstd::prelude::*;

use vstd::utf8::encode_utf8;

verus! {

/// Whether bcrypt's check accepts a password (as UTF-8 bytes) against a
/// stored hash string: the hash parses, and the digest recomputed from the
/// password with the hash's own cost and salt matches. Deterministic.
pub uninterp spec fn bcrypt_matches(password: Seq<u8>, hash: Seq<char>) -> bool;

/// The bytes bcrypt actually keys on: the first 72 bytes of the password,
/// followed by one terminating zero byte while room remains.
pub open spec fn bcrypt_key(password: Seq<u8>) -> Seq<u8> {
    if password.len() >= 72 {
        password.take(72)
    } else {
        password.push(0u8)
    }
}

/// Hashing failed inside the hasher itself — the operating system could not
/// supply salt entropy. Never caused by the password's value.
#[derive(Debug, PartialEq, Eq, Structural, Clone, Copy)]
pub struct HashingError;

/// A stored hash that hashing `p` could have produced: it accepts exactly
/// the passwords whose key bytes equal `p`'s.
pub open spec fn hashed_from(h: Seq<char>, p: Seq<char>) -> bool {
    forall|q: Seq<u8>| #[trigger] bcrypt_matches(q, h) == (bcrypt_key(q) == bcrypt_key(
        encode_utf8(p),
    ))
}

/// Relies on `bcrypt::hash` with `DEFAULT_COST`: on success the returned
/// hash string verifies exactly the passwords whose key bytes (72-byte
/// truncation, zero-terminated) equal this password's — that a password
/// hash accepts only the hashed password is the property the crate exists
/// for. Fails only when the operating system yields no randomness for the
/// salt; the password's value never causes a failure.
#[verifier::external_body]
fn bcrypt_hash(plain: &String) -> (r: Result<String, HashingError>)
    ensures
        r matches Ok(h) ==> hashed_from(h@, plain@),
{
    match bcrypt::hash(plain.as_str(), bcrypt::DEFAULT_COST) {
        Ok(h) => Ok(h),
        Err(_) => Err(HashingError),
    }
}

/// Relies on `bcrypt::verify`: true exactly when the hash parses and the
/// recomputed digest matches. A malformed hash, or the crate's error, is
/// `false` — a caller cannot tell a wrong password from a hasher fault.
#[verifier::external_body]
fn bcrypt_check(plain: &String, hashed: &String) -> (r: bool)
    ensures
        r == bcrypt_matches(encode_utf8(plain@), hashed@),
{
    bcrypt::verify(plain.as_str(), hashed.as_str()).unwrap_or(false)
}

/// Hash a password under a fresh random salt, at the fixed default cost.
/// On success the result verifies this password and no other (up to
/// bcrypt's 72-byte key truncation).
pub fn hash(plaintext: &String) -> (r: Result<String, HashingError>)
    ensures
        r matches Ok(h) ==> hashed_from(h@, plaintext@) && verifies(plaintext@, h@),
{
    let r = bcrypt_hash(plaintext);
    r
}

/// Whether a password verifies against a stored hash.
pub open spec fn verifies(password: Seq<char>, hash: Seq<char>) -> bool {
    bcrypt_matches(encode_utf8(password), hash)
}

/// Check a password against a stored hash, in constant time within the
/// hasher. `false` on mismatch and on any internal fault alike.
pub fn verify(plaintext: &String, hashed: &String) -> (r: bool)
    ensures
        r == verifies(plaintext@, hashed@),
{
    bcrypt_check(plaintext, hashed)
}

/// A password always verifies against any hash of itself.
pub proof fn lemma_verify_own_hash(p: Seq<char>, h: Seq<char>)
    requires
        hashed_from(h, p),
    ensures
        verifies(p, h),
{
    assert(bcrypt_matches(encode_utf8(p), h) == (bcrypt_key(encode_utf8(p)) == bcrypt_key(
        encode_utf8(p),
    )));
}

/// Two distinct ASCII passwords within bcrypt's 72-byte key window have
/// distinct key bytes.
pub proof fn lemma_keys_differ(p: Seq<char>, q: Seq<char>)
    requires
        vstd::utf8::is_ascii_chars(p),
        vstd::utf8::is_ascii_chars(q),
        p.len() <= 71,
        q.len() <= 71,
        p != q,
    ensures
        bcrypt_key(encode_utf8(p)) != bcrypt_key(encode_utf8(q)),
{
    vstd::utf8::is_ascii_chars_encode_utf8(p);
    vstd::utf8::is_ascii_chars_encode_utf8(q);
    let bp = encode_utf8(p);
    let bq = encode_utf8(q);
    if bp == bq {
        assert(p =~= q) by {
            assert(p.len() == bp.len() && q.len() == bq.len());
            assert forall|i: int| 0 <= i < p.len() implies p[i] == q[i] by {
                assert(p[i] as u8 == bp[i]);
                assert(q[i] as u8 == bq[i]);
                assert((p[i] as u32) < 128 && (q[i] as u32) < 128) by {
                    assert('\0' <= p[i] <= '\u{7f}');
                    assert('\0' <= q[i] <= '\u{7f}');
                }
            }
        }
    }
    assert(bp != bq);
    if bcrypt_key(bp) == bcrypt_key(bq) {
        assert(bp.push(0u8) =~= bq.push(0u8));
        assert(bp =~= bq) by {
            assert(bp.len() == bq.len());
            assert(forall|i: int| 0 <= i < bp.len() ==> #[trigger] bp[i] == bp.push(0u8)[i]);
            assert(forall|i: int| 0 <= i < bq.len() ==> #[trigger] bq[i] == bq.push(0u8)[i]);
        }
    }
}

/// Distinct passwords do not verify against each other's hashes: a hash of
/// `p` rejects any different ASCII password `q` within bcrypt's 72-byte key
/// window. (Passwords differing only past that window are the exception.)
pub proof fn lemma_verify_rejects_other(p: Seq<char>, q: Seq<char>, h: Seq<char>)
    requires
        hashed_from(h, p),
        vstd::utf8::is_ascii_chars(p),
        vstd::utf8::is_ascii_chars(q),
        p.len() <= 71,
        q.len() <= 71,
        p != q,
    ensures
        !verifies(q, h),
{
    lemma_keys_differ(p, q);
    assert(bcrypt_matches(encode_utf8(q), h) == (bcrypt_key(encode_utf8(q)) == bcrypt_key(
        encode_utf8(p),
    )));
}

} // verus!
