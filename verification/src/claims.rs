//! The claims carried by a signed token — a subject identifier and an expiry
//! timestamp — with their canonical JSON serialization `{"sub":"…","exp":N}`
//! and a parser that accepts exactly that shape.
use vstd::prelude::*;

verus! {

/// The structured payload embedded in every issued token.
#[derive(Debug)]
pub struct Claims {
    /// The identity the token was issued to, as an opaque identifier string.
    pub sub: String,
    /// Expiry as a unix timestamp in seconds: the token is good strictly
    /// before this instant.
    pub exp: u64,
}

/// Subject bytes that serialize without escaping: printable ASCII with the
/// quote and backslash excluded. Every identifier this library generates
/// satisfies this.
pub open spec fn sub_bytes_wf(sub: Seq<u8>) -> bool {
    forall|i: int| 0 <= i < sub.len() ==> 32 <= #[trigger] sub[i] < 127 && sub[i] != 34 && sub[i]
        != 92
}

/// The character-level counterpart of `sub_bytes_wf`: printable ASCII with
/// quote and backslash excluded.
pub open spec fn sub_chars_wf(s: Seq<char>) -> bool {
    forall|i: int|
        #![trigger s[i]]
        0 <= i < s.len() ==> (' ' <= s[i] && s[i] <= '~' && s[i] != '"' && s[i] != '\\')
}

/// The decimal digits of a number, most significant first.
pub open spec fn dec_u64(n: u64) -> Seq<u8>
    decreases n,
{
    if n < 10 {
        seq![(48 + n) as u8]
    } else {
        dec_u64((n / 10) as u64) + seq![(48 + n % 10) as u8]
    }
}

pub open spec fn is_digit(c: u8) -> bool {
    48 <= c <= 57
}

/// The value of a digit string, most significant first.
pub open spec fn digits_val(s: Seq<u8>) -> int
    decreases s.len(),
{
    if s.len() == 0 {
        0
    } else {
        digits_val(s.take(s.len() - 1)) * 10 + (s.last() - 48)
    }
}

/// Parse a canonical decimal `u64`: at least one digit, no leading zero
/// (except `0` itself), value within range.
pub open spec fn parse_exp(s: Seq<u8>) -> Option<u64> {
    if s.len() >= 1 && (forall|i: int| 0 <= i < s.len() ==> is_digit(#[trigger] s[i])) && (s[0]
        != 48 || s.len() == 1) && digits_val(s) <= u64::MAX {
        Some(digits_val(s) as u64)
    } else {
        None
    }
}

/// `{"sub":"`
pub open spec fn json_prefix() -> Seq<u8> {
    seq![123u8, 34u8, 115u8, 117u8, 98u8, 34u8, 58u8, 34u8]
}

/// `","exp":`
pub open spec fn json_mid() -> Seq<u8> {
    seq![34u8, 44u8, 34u8, 101u8, 120u8, 112u8, 34u8, 58u8]
}

/// The canonical claims document for a subject and an expiry.
pub open spec fn claims_json_bytes(sub: Seq<u8>, exp: u64) -> Seq<u8> {
    json_prefix() + sub + json_mid() + dec_u64(exp) + seq![125u8]
}

/// The position of the first `"` at or after `i`.
pub open spec fn first_quote(s: Seq<u8>, i: int) -> Option<int>
    decreases s.len() - i when 0 <= i <= s.len()
{
    if i >= s.len() {
        None
    } else if s[i] == 34 {
        Some(i)
    } else {
        first_quote(s, i + 1)
    }
}

/// Parse a canonical claims document; `None` on anything but the exact shape
/// this library serializes.
pub open spec fn parse_claims_bytes(s: Seq<u8>) -> Option<(Seq<u8>, u64)> {
    if s.len() < 8 || s.subrange(0, 8) != json_prefix() {
        None
    } else {
        match first_quote(s, 8) {
            None => None,
            Some(q) => {
                let sub = s.subrange(8, q);
                if !sub_bytes_wf(sub) {
                    None
                } else if q + 8 >= s.len() || s.subrange(q, q + 8) != json_mid() {
                    None
                } else if s.last() != 125 {
                    None
                } else {
                    match parse_exp(s.subrange(q + 8, s.len() - 1)) {
                        None => None,
                        Some(exp) => Some((sub, exp)),
                    }
                }
            },
        }
    }
}

/// The digits of a number are digits, start without a superfluous zero, and
/// evaluate back to the number.
pub proof fn lemma_dec_props(n: u64)
    ensures
        dec_u64(n).len() >= 1,
        forall|i: int| 0 <= i < dec_u64(n).len() ==> is_digit(#[trigger] dec_u64(n)[i]),
        dec_u64(n)[0] != 48 || n < 10,
        digits_val(dec_u64(n)) == n,
    decreases n,
{
    if n < 10 {
        assert(digits_val(dec_u64(n)) == n) by {
            assert(dec_u64(n) =~= seq![(48 + n) as u8]);
            assert(dec_u64(n).take(0) =~= Seq::<u8>::empty());
            assert(digits_val(Seq::<u8>::empty()) == 0);
        }
    } else {
        lemma_dec_props((n / 10) as u64);
        let a = dec_u64((n / 10) as u64);
        let d = (48 + n % 10) as u8;
        assert(dec_u64(n) =~= a + seq![d]);
        assert((a + seq![d]).take(a.len() as int) =~= a);
        assert((a + seq![d]).last() == d);
        assert(digits_val(dec_u64(n)) == digits_val(a) * 10 + (n % 10));
        assert(digits_val(a) * 10 + n % 10 == n) by {
            assert(digits_val(a) == n / 10);
        }
        assert(dec_u64(n)[0] == a[0]);
    }
}

/// Round trip for the decimal codec: parsing the digits of `n` yields `n`.
pub proof fn lemma_dec_roundtrip(n: u64)
    ensures
        parse_exp(dec_u64(n)) == Some(n),
{
    lemma_dec_props(n);
    if n < 10 {
        assert(dec_u64(n).len() == 1);
    }
}

/// A scan that found no quote before `k`, and a quote at `k`, pins down
/// `first_quote`.
pub proof fn lemma_first_quote_at(s: Seq<u8>, i: int, k: int)
    requires
        0 <= i <= k < s.len(),
        forall|j: int| i <= j < k ==> s[j] != 34,
        s[k] == 34,
    ensures
        first_quote(s, i) == Some(k),
    decreases k - i,
{
    if i < k {
        lemma_first_quote_at(s, i + 1, k);
    }
}

/// A scan that found no quote anywhere from `i` on pins `first_quote` to
/// `None`.
pub proof fn lemma_first_quote_none(s: Seq<u8>, i: int)
    requires
        0 <= i <= s.len(),
        forall|j: int| i <= j < s.len() ==> s[j] != 34,
    ensures
        first_quote(s, i) is None,
    decreases s.len() - i,
{
    if i < s.len() {
        lemma_first_quote_none(s, i + 1);
    }
}

/// Round trip for the claims codec: a well-formed subject and any expiry
/// serialize to a document that parses back to exactly them.
pub proof fn lemma_claims_roundtrip(sub: Seq<u8>, exp: u64)
    requires
        sub_bytes_wf(sub),
    ensures
        parse_claims_bytes(claims_json_bytes(sub, exp)) == Some((sub, exp)),
{
    let s = claims_json_bytes(sub, exp);
    let d = dec_u64(exp);
    lemma_dec_props(exp);
    let q = 8 + sub.len() as int;
    assert(s.len() == 8 + sub.len() + 8 + d.len() + 1);
    assert(s.subrange(0, 8) =~= json_prefix());
    assert(forall|j: int| 8 <= j < q ==> s[j] == sub[j - 8] && #[trigger] s[j] != 34);
    assert(s[q] == 34) by {
        assert(s[q] == json_mid()[0]);
    }
    lemma_first_quote_at(s, 8, q);
    assert(s.subrange(8, q) =~= sub);
    assert(s.subrange(q, q + 8) =~= json_mid());
    assert(s.last() == 125);
    assert(s.subrange(q + 8, s.len() - 1) =~= d);
    lemma_dec_roundtrip(exp);
}

/// Append the decimal digits of `n` to a byte vector.
pub fn push_dec(n: u64, out: &mut Vec<u8>)
    ensures
        final(out)@ == old(out)@ + dec_u64(n),
    decreases n,
{
    if n < 10 {
        out.push(48 + n as u8);
        proof {
            assert(out@ =~= old(out)@ + dec_u64(n));
        }
    } else {
        let ghost pre = out@;
        push_dec(n / 10, out);
        out.push(48 + (n % 10) as u8);
        proof {
            assert(out@ =~= pre + (dec_u64((n / 10) as u64) + seq![(48 + n % 10) as u8]));
        }
    }
}

/// Serialize the canonical claims document for a subject and an expiry.
pub fn claims_to_json(sub: &Vec<u8>, exp: u64) -> (r: Vec<u8>)
    ensures
        r@ == claims_json_bytes(sub@, exp),
{
    let mut out: Vec<u8> = Vec::new();
    out.push(123);
    out.push(34);
    out.push(115);
    out.push(117);
    out.push(98);
    out.push(34);
    out.push(58);
    out.push(34);
    proof {
        assert(out@ =~= json_prefix());
    }
    let ghost after_prefix = out@;
    out.extend_from_slice(sub.as_slice());
    proof {
        assert(out@ =~= json_prefix() + sub@);
    }
    out.push(34);
    out.push(44);
    out.push(34);
    out.push(101);
    out.push(120);
    out.push(112);
    out.push(34);
    out.push(58);
    proof {
        assert(out@ =~= json_prefix() + sub@ + json_mid());
    }
    let ghost before_digits = out@;
    push_dec(exp, &mut out);
    out.push(125);
    proof {
        assert(out@ =~= ((json_prefix() + sub@ + json_mid()) + dec_u64(exp)) + seq![125u8]);
        assert(((json_prefix() + sub@ + json_mid()) + dec_u64(exp)) + seq![125u8]
            =~= claims_json_bytes(sub@, exp));
    }
    out
}

/// Parse a canonical claims document: the subject bytes and the expiry, or
/// `None` for any other input.
#[verifier::loop_isolation(false)]
pub fn parse_claims(s: &Vec<u8>) -> (r: Option<(Vec<u8>, u64)>)
    ensures
        match r {
            Some(p) => parse_claims_bytes(s@) == Some((p.0@, p.1)),
            None => parse_claims_bytes(s@) is None,
        },
{
    let n = s.len();
    if n < 8 {
        proof {
            assert(s@.len() < 8);
        }
        return None;
    }
    if !(s[0] == 123 && s[1] == 34 && s[2] == 115 && s[3] == 117 && s[4] == 98 && s[5] == 34
        && s[6] == 58 && s[7] == 34) {
        proof {
            assert(s@.subrange(0, 8) != json_prefix()) by {
                if s@.subrange(0, 8) == json_prefix() {
                    assert(s@[0] == json_prefix()[0] && s@[1] == json_prefix()[1] && s@[2]
                        == json_prefix()[2] && s@[3] == json_prefix()[3] && s@[4]
                        == json_prefix()[4] && s@[5] == json_prefix()[5] && s@[6]
                        == json_prefix()[6] && s@[7] == json_prefix()[7]);
                }
            }
        }
        return None;
    }
    proof {
        assert(s@.subrange(0, 8) =~= json_prefix());
    }
    // scan for the quote that closes the subject
    let mut q: usize = 8;
    while q < n && s[q] != 34
        invariant
            8 <= q <= n,
            n == s@.len(),
            forall|j: int| 8 <= j < q ==> s@[j] != 34,
        decreases n - q,
    {
        q = q + 1;
    }
    if q == n {
        proof {
            lemma_first_quote_none(s@, 8);
        }
        return None;
    }
    proof {
        lemma_first_quote_at(s@, 8, q as int);
    }
    // the subject bytes, checked for well-formedness
    let mut sub: Vec<u8> = Vec::new();
    let mut i: usize = 8;
    while i < q
        invariant
            8 <= i <= q < n,
            n == s@.len(),
            sub@ =~= s@.subrange(8, i as int),
            forall|j: int| 0 <= j < sub@.len() ==> 32 <= #[trigger] sub@[j] < 127 && sub@[j] != 34
                && sub@[j] != 92,
        decreases q - i,
    {
        let b = s[i];
        if !(32 <= b && b < 127) || b == 34 || b == 92 {
            proof {
                assert(s@.subrange(8, q as int)[i - 8] == b);
                assert(!sub_bytes_wf(s@.subrange(8, q as int)));
            }
            return None;
        }
        sub.push(b);
        proof {
            assert(s@.subrange(8, i + 1) =~= s@.subrange(8, i as int).push(b));
        }
        i = i + 1;
    }
    proof {
        assert(sub@ =~= s@.subrange(8, q as int));
        assert(sub_bytes_wf(s@.subrange(8, q as int)));
    }
    // the fixed `","exp":` separator
    if n - q < 9 {
        proof {
            assert(q + 8 >= s@.len());
        }
        return None;
    }
    if !(s[q + 1] == 44 && s[q + 2] == 34 && s[q + 3] == 101 && s[q + 4] == 120 && s[q + 5] == 112
        && s[q + 6] == 34 && s[q + 7] == 58) {
        proof {
            assert(s@.subrange(q as int, q + 8) != json_mid()) by {
                if s@.subrange(q as int, q + 8) == json_mid() {
                    assert(s@[q + 1] == json_mid()[1] && s@[q + 2] == json_mid()[2] && s@[q + 3]
                        == json_mid()[3] && s@[q + 4] == json_mid()[4] && s@[q + 5]
                        == json_mid()[5] && s@[q + 6] == json_mid()[6] && s@[q + 7]
                        == json_mid()[7]);
                }
            }
        }
        return None;
    }
    proof {
        assert(s@.subrange(q as int, q + 8) =~= json_mid());
    }
    if s[n - 1] != 125 {
        return None;
    }
    // the expiry digits
    let lo = q + 8;
    let hi = n - 1;
    let ghost dg = s@.subrange(lo as int, hi as int);
    if lo >= hi {
        proof {
            assert(dg.len() == 0);
        }
        return None;
    }
    if s[lo] == 48 && hi - lo > 1 {
        proof {
            assert(dg[0] == 48 && dg.len() > 1);
        }
        return None;
    }
    let mut acc: u64 = 0;
    let mut k: usize = lo;
    while k < hi
        invariant
            lo <= k <= hi < n,
            n == s@.len(),
            hi == n - 1,
            dg =~= s@.subrange(lo as int, hi as int),
            forall|j: int| lo <= j < k ==> is_digit(#[trigger] s@[j]),
            acc == digits_val(dg.take(k - lo)),
        decreases hi - k,
    {
        let b = s[k];
        if !(48 <= b && b <= 57) {
            proof {
                assert(dg[k - lo] == b);
                assert(!is_digit(dg[k - lo]));
            }
            return None;
        }
        let d = b - 48;
        if acc > (u64::MAX - d as u64) / 10 {
            proof {
                assert(dg.take(k - lo + 1).last() == b);
                assert(dg.take(k - lo + 1).take(k - lo) =~= dg.take(k - lo));
                assert(digits_val(dg.take(k - lo + 1)) == acc * 10 + d);
                assert(acc * 10 + d > u64::MAX) by {
                    assert(acc >= (u64::MAX - d as u64) / 10 + 1);
                    assert(acc * 10 >= ((u64::MAX - d as u64) / 10 + 1) * 10);
                }
                if forall|j: int| 0 <= j < dg.len() ==> is_digit(#[trigger] dg[j]) {
                    lemma_digits_val_grows(dg, k - lo + 1);
                    assert(digits_val(dg) > u64::MAX);
                }
            }
            return None;
        }
        proof {
            assert(acc * 10 + d <= u64::MAX) by {
                assert(acc <= (u64::MAX - d as u64) / 10);
                assert(acc * 10 <= ((u64::MAX - d as u64) / 10) * 10);
            }
            assert(dg.take(k - lo + 1).last() == b);
            assert(dg.take(k - lo + 1).take(k - lo) =~= dg.take(k - lo));
        }
        acc = acc * 10 + d as u64;
        k = k + 1;
    }
    proof {
        assert(dg.take(hi - lo) =~= dg);
        assert(forall|j: int| 0 <= j < dg.len() ==> is_digit(#[trigger] dg[j]));
        assert(dg[0] != 48 || dg.len() == 1);
        assert(parse_exp(dg) == Some(acc));
    }
    Some((sub, acc))
}

/// A digit string is worth at least its own prefix scaled up: once a prefix
/// overflows, the whole string does.
pub proof fn lemma_digits_val_grows(s: Seq<u8>, k: int)
    requires
        0 <= k <= s.len(),
        forall|i: int| 0 <= i < s.len() ==> is_digit(#[trigger] s[i]),
    ensures
        digits_val(s) >= digits_val(s.take(k)),
        digits_val(s) >= 0,
    decreases s.len() - k,
{
    lemma_digits_val_nonneg(s);
    if k < s.len() {
        lemma_digits_val_grows(s, k + 1);
        lemma_digits_val_nonneg(s.take(k));
        assert(s.take(k + 1).take(k) =~= s.take(k));
        assert(digits_val(s.take(k + 1)) == digits_val(s.take(k)) * 10 + (s.take(k + 1).last()
            - 48));
        assert(s.take(k + 1).last() == s[k]);
        assert(digits_val(s.take(k)) * 10 >= digits_val(s.take(k))) by {
            lemma_digits_val_nonneg(s.take(k));
        }
    } else {
        assert(s.take(k) =~= s);
    }
}

/// The value of a digit string is never negative.
pub proof fn lemma_digits_val_nonneg(s: Seq<u8>)
    requires
        forall|i: int| 0 <= i < s.len() ==> is_digit(#[trigger] s[i]),
    ensures
        digits_val(s) >= 0,
    decreases s.len(),
{
    if s.len() > 0 {
        assert(forall|i: int| 0 <= i < s.take(s.len() - 1).len() ==> is_digit(
            #[trigger] s.take(s.len() - 1)[i],
        ));
        lemma_digits_val_nonneg(s.take(s.len() - 1));
    }
}

} // verus!
