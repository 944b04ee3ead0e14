//! Base64url (no padding) over byte sequences, as used by the compact token
//! serialization: the alphabet `A-Z a-z 0-9 - _`, canonical encodings only
//! (a non-zero trailing-bit remainder is rejected on decode).
use vstd::prelude::*;

verus! {

/// The encoding byte for a six-bit value.
pub open spec fn b64_char_of(v: int) -> u8
    recommends
        0 <= v < 64,
{
    if v < 26 {
        (65 + v) as u8  // 'A'..='Z'
    } else if v < 52 {
        (97 + v - 26) as u8  // 'a'..='z'
    } else if v < 62 {
        (48 + v - 52) as u8  // '0'..='9'
    } else if v == 62 {
        45u8  // '-'
    } else {
        95u8  // '_'
    }
}

/// Whether a byte is in the base64url alphabet.
pub open spec fn is_b64_byte(c: u8) -> bool {
    (65 <= c <= 90) || (97 <= c <= 122) || (48 <= c <= 57) || c == 45 || c == 95
}

/// The six-bit value of an alphabet byte.
pub open spec fn sextet_of(c: u8) -> int
    recommends
        is_b64_byte(c),
{
    if 65 <= c <= 90 {
        c - 65
    } else if 97 <= c <= 122 {
        c - 97 + 26
    } else if 48 <= c <= 57 {
        c - 48 + 52
    } else if c == 45 {
        62
    } else {
        63
    }
}

pub open spec fn enc3(b0: u8, b1: u8, b2: u8) -> Seq<u8> {
    seq![
        b64_char_of(b0 as int / 4),
        b64_char_of((b0 as int % 4) * 16 + b1 as int / 16),
        b64_char_of((b1 as int % 16) * 4 + b2 as int / 64),
        b64_char_of(b2 as int % 64),
    ]
}

pub open spec fn enc2(b0: u8, b1: u8) -> Seq<u8> {
    seq![
        b64_char_of(b0 as int / 4),
        b64_char_of((b0 as int % 4) * 16 + b1 as int / 16),
        b64_char_of((b1 as int % 16) * 4),
    ]
}

pub open spec fn enc1(b0: u8) -> Seq<u8> {
    seq![b64_char_of(b0 as int / 4), b64_char_of((b0 as int % 4) * 16)]
}

/// The base64url encoding of a byte sequence, three input bytes at a time.
pub open spec fn b64_encode_bytes(s: Seq<u8>) -> Seq<u8>
    decreases s.len(),
{
    if s.len() == 0 {
        Seq::<u8>::empty()
    } else if s.len() == 1 {
        enc1(s[0])
    } else if s.len() == 2 {
        enc2(s[0], s[1])
    } else {
        enc3(s[0], s[1], s[2]) + b64_encode_bytes(s.skip(3))
    }
}

pub open spec fn dec4(c0: u8, c1: u8, c2: u8, c3: u8) -> Seq<u8> {
    seq![
        (sextet_of(c0) * 4 + sextet_of(c1) / 16) as u8,
        ((sextet_of(c1) % 16) * 16 + sextet_of(c2) / 4) as u8,
        ((sextet_of(c2) % 4) * 64 + sextet_of(c3)) as u8,
    ]
}

/// The decoding of a base64url sequence: `None` for a byte outside the
/// alphabet, a lone trailing character, or non-zero trailing bits.
pub open spec fn b64_decode_bytes(s: Seq<u8>) -> Option<Seq<u8>>
    decreases s.len(),
{
    if s.len() == 0 {
        Some(Seq::<u8>::empty())
    } else if s.len() == 1 {
        None
    } else if s.len() == 2 {
        if is_b64_byte(s[0]) && is_b64_byte(s[1]) && sextet_of(s[1]) % 16 == 0 {
            Some(seq![(sextet_of(s[0]) * 4 + sextet_of(s[1]) / 16) as u8])
        } else {
            None
        }
    } else if s.len() == 3 {
        if is_b64_byte(s[0]) && is_b64_byte(s[1]) && is_b64_byte(s[2]) && sextet_of(s[2]) % 4
            == 0 {
            Some(
                seq![
                    (sextet_of(s[0]) * 4 + sextet_of(s[1]) / 16) as u8,
                    ((sextet_of(s[1]) % 16) * 16 + sextet_of(s[2]) / 4) as u8,
                ],
            )
        } else {
            None
        }
    } else {
        if is_b64_byte(s[0]) && is_b64_byte(s[1]) && is_b64_byte(s[2]) && is_b64_byte(s[3]) {
            match b64_decode_bytes(s.skip(4)) {
                Some(rest) => Some(dec4(s[0], s[1], s[2], s[3]) + rest),
                None => None,
            }
        } else {
            None
        }
    }
}

/// A valid six-bit value encodes to an alphabet byte, and decodes back.
pub proof fn lemma_char_of_in_alphabet(v: int)
    requires
        0 <= v < 64,
    ensures
        is_b64_byte(b64_char_of(v)),
        sextet_of(b64_char_of(v)) == v,
{
}

/// Every byte of an encoding lies in the base64url alphabet; in particular
/// the encoding never contains a `.`.
pub proof fn lemma_encode_alphabet(s: Seq<u8>)
    ensures
        forall|i: int|
            0 <= i < b64_encode_bytes(s).len() ==> is_b64_byte(#[trigger] b64_encode_bytes(s)[i]),
    decreases s.len(),
{
    let e = b64_encode_bytes(s);
    if s.len() == 0 {
    } else if s.len() == 1 {
        let b0: u8 = s[0];
        lemma_char_of_in_alphabet(b0 as int / 4);
        lemma_char_of_in_alphabet((b0 as int % 4) * 16);
        assert(e =~= enc1(b0));
        assert(forall|i: int| 0 <= i < e.len() ==> is_b64_byte(#[trigger] e[i])) by {
            assert(e[0] == b64_char_of(b0 as int / 4));
            assert(e[1] == b64_char_of((b0 as int % 4) * 16));
        }
    } else if s.len() == 2 {
        let b0: u8 = s[0];
        let b1: u8 = s[1];
        lemma_char_of_in_alphabet(b0 as int / 4);
        lemma_char_of_in_alphabet((b0 as int % 4) * 16 + b1 as int / 16);
        lemma_char_of_in_alphabet((b1 as int % 16) * 4);
        assert(e =~= enc2(b0, b1));
        assert(forall|i: int| 0 <= i < e.len() ==> is_b64_byte(#[trigger] e[i])) by {
            assert(e[0] == b64_char_of(b0 as int / 4));
            assert(e[1] == b64_char_of((b0 as int % 4) * 16 + b1 as int / 16));
            assert(e[2] == b64_char_of((b1 as int % 16) * 4));
        }
    } else {
        let b0: u8 = s[0];
        let b1: u8 = s[1];
        let b2: u8 = s[2];
        lemma_encode_alphabet(s.skip(3));
        lemma_char_of_in_alphabet(b0 as int / 4);
        lemma_char_of_in_alphabet((b0 as int % 4) * 16 + b1 as int / 16);
        lemma_char_of_in_alphabet((b1 as int % 16) * 4 + b2 as int / 64);
        lemma_char_of_in_alphabet(b2 as int % 64);
        let rest: Seq<u8> = b64_encode_bytes(s.skip(3));
        assert(e =~= enc3(b0, b1, b2) + rest);
        assert(forall|i: int| 0 <= i < e.len() ==> is_b64_byte(#[trigger] e[i])) by {
            assert(e[0] == b64_char_of(b0 as int / 4));
            assert(e[1] == b64_char_of((b0 as int % 4) * 16 + b1 as int / 16));
            assert(e[2] == b64_char_of((b1 as int % 16) * 4 + b2 as int / 64));
            assert(e[3] == b64_char_of(b2 as int % 64));
            assert(forall|i: int| 4 <= i < e.len() ==> e[i] == #[trigger] rest[i - 4]);
        }
    }
}

/// The length of an encoding: four bytes for every three, rounded up.
pub proof fn lemma_encode_len(s: Seq<u8>)
    ensures
        b64_encode_bytes(s).len() == 4 * (s.len() / 3) + (if s.len() % 3 == 0 {
            0int
        } else {
            s.len() as int % 3 + 1
        }),
    decreases s.len(),
{
    if s.len() >= 3 {
        lemma_encode_len(s.skip(3));
    }
}

/// Decoding inverts encoding: base64url is lossless on every byte sequence.
pub proof fn lemma_b64_roundtrip(s: Seq<u8>)
    ensures
        b64_decode_bytes(b64_encode_bytes(s)) == Some(s),
    decreases s.len(),
{
    let e = b64_encode_bytes(s);
    if s.len() == 0 {
        assert(e =~= Seq::<u8>::empty());
        assert(b64_decode_bytes(e) == Some(s)) by {
            assert(Seq::<u8>::empty() =~= s);
        }
    } else if s.len() == 1 {
        let b0: u8 = s[0];
        assert(b64_decode_bytes(e) == Some(seq![b0])) by {
            assert(sextet_of(b64_char_of(b0 as int / 4)) == b0 as int / 4);
            assert(sextet_of(b64_char_of((b0 as int % 4) * 16)) == (b0 as int % 4) * 16);
            assert(((b0 as int % 4) * 16) % 16 == 0);
            assert((b0 as int / 4) * 4 + ((b0 as int % 4) * 16) / 16 == b0);
        }
        assert(seq![b0] =~= s);
    } else if s.len() == 2 {
        let b0: u8 = s[0];
        let b1: u8 = s[1];
        let v0: int = b0 as int / 4;
        let v1: int = (b0 as int % 4) * 16 + b1 as int / 16;
        let v2: int = (b1 as int % 16) * 4;
        assert(sextet_of(b64_char_of(v0)) == v0);
        assert(sextet_of(b64_char_of(v1)) == v1);
        assert(sextet_of(b64_char_of(v2)) == v2);
        assert(v2 % 4 == 0);
        assert(v0 * 4 + v1 / 16 == b0) by {
            assert(v1 / 16 == b0 % 4);
        }
        assert((v1 % 16) * 16 + v2 / 4 == b1) by {
            assert(v1 % 16 == b1 / 16);
            assert(v2 / 4 == b1 % 16);
        }
        assert(b64_decode_bytes(e) == Some(seq![b0, b1]));
        assert(seq![b0, b1] =~= s);
    } else {
        let b0: u8 = s[0];
        let b1: u8 = s[1];
        let b2: u8 = s[2];
        let v0: int = b0 as int / 4;
        let v1: int = (b0 as int % 4) * 16 + b1 as int / 16;
        let v2: int = (b1 as int % 16) * 4 + b2 as int / 64;
        let v3: int = b2 as int % 64;
        let rest: Seq<u8> = b64_encode_bytes(s.skip(3));
        lemma_b64_roundtrip(s.skip(3));
        lemma_encode_alphabet(s.skip(3));
        lemma_encode_len(s.skip(3));
        assert(e =~= enc3(b0, b1, b2) + rest);
        assert(e.len() >= 4);
        assert(e[0] == b64_char_of(v0) && e[1] == b64_char_of(v1) && e[2] == b64_char_of(v2)
            && e[3] == b64_char_of(v3));
        assert(sextet_of(b64_char_of(v0)) == v0);
        assert(sextet_of(b64_char_of(v1)) == v1);
        assert(sextet_of(b64_char_of(v2)) == v2);
        assert(sextet_of(b64_char_of(v3)) == v3);
        assert(e.skip(4) =~= rest);
        assert(v0 * 4 + v1 / 16 == b0) by {
            assert(v1 / 16 == b0 % 4);
        }
        assert((v1 % 16) * 16 + v2 / 4 == b1) by {
            assert(v1 % 16 == b1 / 16);
            assert(v2 / 4 == b1 % 16);
        }
        assert((v2 % 4) * 64 + v3 == b2) by {
            assert(v2 % 4 == b2 / 64);
        }
        assert(dec4(e[0], e[1], e[2], e[3]) =~= seq![b0, b1, b2]);
        assert(b64_decode_bytes(e) == Some(seq![b0, b1, b2] + s.skip(3)));
        assert(seq![b0, b1, b2] + s.skip(3) =~= s);
    }
}

/// Encoding distributes over a block boundary: a prefix of whole three-byte
/// groups encodes independently of what follows it.
pub proof fn lemma_encode_append(s: Seq<u8>, t: Seq<u8>)
    requires
        s.len() % 3 == 0,
    ensures
        b64_encode_bytes(s + t) == b64_encode_bytes(s) + b64_encode_bytes(t),
    decreases s.len(),
{
    if s.len() == 0 {
        assert(s + t =~= t);
        assert(b64_encode_bytes(s) + b64_encode_bytes(t) =~= b64_encode_bytes(t));
    } else {
        let u: Seq<u8> = s + t;
        assert(u.len() >= 3);
        assert(u[0] == s[0] && u[1] == s[1] && u[2] == s[2]);
        lemma_encode_append(s.skip(3), t);
        assert(u.skip(3) =~= s.skip(3) + t);
        assert(b64_encode_bytes(s) =~= enc3(s[0], s[1], s[2]) + b64_encode_bytes(s.skip(3)));
        assert(b64_encode_bytes(u) =~= enc3(s[0], s[1], s[2]) + (b64_encode_bytes(s.skip(3))
            + b64_encode_bytes(t)));
        assert(enc3(s[0], s[1], s[2]) + (b64_encode_bytes(s.skip(3)) + b64_encode_bytes(t))
            =~= (enc3(s[0], s[1], s[2]) + b64_encode_bytes(s.skip(3))) + b64_encode_bytes(t));
    }
}

/// Base64url-encode a byte vector.
pub fn b64url_encode(input: &Vec<u8>) -> (r: Vec<u8>)
    ensures
        r@ == b64_encode_bytes(input@),
{
    let n = input.len();
    let mut out: Vec<u8> = Vec::new();
    let mut i: usize = 0;
    proof {
        assert(input@.take(0) =~= Seq::<u8>::empty());
    }
    while n - i >= 3
        invariant
            i <= n,
            i % 3 == 0,
            n == input@.len(),
            out@ == b64_encode_bytes(input@.take(i as int)),
        decreases n - i,
    {
        let b0 = input[i];
        let b1 = input[i + 1];
        let b2 = input[i + 2];
        out.push(sextet_char(b0 / 4));
        out.push(sextet_char((b0 % 4) * 16 + b1 / 16));
        out.push(sextet_char((b1 % 16) * 4 + b2 / 64));
        out.push(sextet_char(b2 % 64));
        proof {
            let pre: Seq<u8> = input@.take(i as int);
            let blk: Seq<u8> = input@.subrange(i as int, i + 3);
            lemma_encode_append(pre, blk);
            assert(pre + blk =~= input@.take(i + 3));
            assert(b64_encode_bytes(blk) =~= enc3(b0, b1, b2)) by {
                assert(blk.len() == 3);
                assert(blk[0] == b0 && blk[1] == b1 && blk[2] == b2);
                assert(blk.skip(3) =~= Seq::<u8>::empty());
                assert(b64_encode_bytes(Seq::<u8>::empty()) =~= Seq::<u8>::empty());
                assert(enc3(b0, b1, b2) + Seq::<u8>::empty() =~= enc3(b0, b1, b2));
            }
            assert(out@ =~= b64_encode_bytes(pre) + enc3(b0, b1, b2));
        }
        i = i + 3;
    }
    if n - i == 1 {
        let b0 = input[i];
        out.push(sextet_char(b0 / 4));
        out.push(sextet_char((b0 % 4) * 16));
        proof {
            let pre: Seq<u8> = input@.take(i as int);
            let blk: Seq<u8> = input@.subrange(i as int, n as int);
            lemma_encode_append(pre, blk);
            assert(pre + blk =~= input@);
            assert(b64_encode_bytes(blk) =~= enc1(b0)) by {
                assert(blk.len() == 1);
                assert(blk[0] == b0);
            }
            assert(out@ =~= b64_encode_bytes(pre) + enc1(b0));
        }
    } else if n - i == 2 {
        let b0 = input[i];
        let b1 = input[i + 1];
        out.push(sextet_char(b0 / 4));
        out.push(sextet_char((b0 % 4) * 16 + b1 / 16));
        out.push(sextet_char((b1 % 16) * 4));
        proof {
            let pre: Seq<u8> = input@.take(i as int);
            let blk: Seq<u8> = input@.subrange(i as int, n as int);
            lemma_encode_append(pre, blk);
            assert(pre + blk =~= input@);
            assert(b64_encode_bytes(blk) =~= enc2(b0, b1)) by {
                assert(blk.len() == 2);
                assert(blk[0] == b0 && blk[1] == b1);
            }
            assert(out@ =~= b64_encode_bytes(pre) + enc2(b0, b1));
        }
    } else {
        proof {
            assert(input@.take(i as int) =~= input@);
        }
    }
    out
}

/// The encoding byte for a six-bit value.
fn sextet_char(v: u8) -> (r: u8)
    requires
        0 <= v < 64,
    ensures
        r == b64_char_of(v as int),
{
    if v < 26 {
        65 + v
    } else if v < 52 {
        97 + (v - 26)
    } else if v < 62 {
        48 + (v - 52)
    } else if v == 62 {
        45
    } else {
        95
    }
}

/// The six-bit value of an alphabet byte, or 255 for a byte outside it.
fn sextet_value(c: u8) -> (r: u8)
    ensures
        is_b64_byte(c) ==> r == sextet_of(c),
        !is_b64_byte(c) ==> r == 255,
{
    if 65 <= c && c <= 90 {
        c - 65
    } else if 97 <= c && c <= 122 {
        c - 97 + 26
    } else if 48 <= c && c <= 57 {
        c - 48 + 52
    } else if c == 45 {
        62
    } else if c == 95 {
        63
    } else {
        255
    }
}

/// Base64url-decode a byte vector; `None` on any non-canonical input.
pub fn b64url_decode(input: &Vec<u8>) -> (r: Option<Vec<u8>>)
    ensures
        match r {
            Some(out) => b64_decode_bytes(input@) == Some(out@),
            None => b64_decode_bytes(input@) is None,
        },
{
    let n = input.len();
    let mut out: Vec<u8> = Vec::new();
    let mut i: usize = 0;
    proof {
        assert(input@.skip(0) =~= input@);
        match b64_decode_bytes(input@) {
            Some(r2) => {
                assert(Seq::<u8>::empty() + r2 =~= r2);
            },
            None => {},
        }
    }
    while n - i >= 4
        invariant
            i <= n,
            n == input@.len(),
            b64_decode_bytes(input@) == (match b64_decode_bytes(input@.skip(i as int)) {
                Some(r2) => Some(out@ + r2),
                None => None::<Seq<u8>>,
            }),
        decreases n - i,
    {
        let c0 = sextet_value(input[i]);
        let c1 = sextet_value(input[i + 1]);
        let c2 = sextet_value(input[i + 2]);
        let c3 = sextet_value(input[i + 3]);
        if c0 == 255 || c1 == 255 || c2 == 255 || c3 == 255 {
            proof {
                assert(b64_decode_bytes(input@.skip(i as int)) is None);
            }
            return None;
        }
        let ghost pre_out = out@;
        out.push(c0 * 4 + c1 / 16);
        out.push((c1 % 16) * 16 + c2 / 4);
        out.push((c2 % 4) * 64 + c3);
        proof {
            let sk: Seq<u8> = input@.skip(i as int);
            assert(sk.len() >= 4);
            assert(sk[0] == input@[i as int] && sk[1] == input@[i + 1] && sk[2] == input@[i + 2]
                && sk[3] == input@[i + 3]);
            assert(sk.skip(4) =~= input@.skip(i + 4));
            assert(out@ =~= pre_out + dec4(sk[0], sk[1], sk[2], sk[3]));
            match b64_decode_bytes(input@.skip(i + 4)) {
                Some(r2) => {
                    assert(pre_out + (dec4(sk[0], sk[1], sk[2], sk[3]) + r2) =~= out@ + r2);
                },
                None => {},
            }
        }
        i = i + 4;
    }
    let rem = n - i;
    if rem == 0 {
        proof {
            assert(input@.skip(i as int) =~= Seq::<u8>::empty());
            assert(out@ + Seq::<u8>::empty() =~= out@);
        }
        Some(out)
    } else if rem == 1 {
        None
    } else if rem == 2 {
        let c0 = sextet_value(input[i]);
        let c1 = sextet_value(input[i + 1]);
        if c0 == 255 || c1 == 255 || c1 % 16 != 0 {
            return None;
        }
        let ghost pre_out = out@;
        out.push(c0 * 4 + c1 / 16);
        proof {
            let sk: Seq<u8> = input@.skip(i as int);
            assert(sk.len() == 2);
            assert(sk[0] == input@[i as int] && sk[1] == input@[i + 1]);
            assert(out@ =~= pre_out + seq![(sextet_of(sk[0]) * 4 + sextet_of(sk[1]) / 16) as u8]);
        }
        Some(out)
    } else {
        let c0 = sextet_value(input[i]);
        let c1 = sextet_value(input[i + 1]);
        let c2 = sextet_value(input[i + 2]);
        if c0 == 255 || c1 == 255 || c2 == 255 || c2 % 4 != 0 {
            return None;
        }
        let ghost pre_out = out@;
        out.push(c0 * 4 + c1 / 16);
        out.push((c1 % 16) * 16 + c2 / 4);
        proof {
            let sk: Seq<u8> = input@.skip(i as int);
            assert(sk.len() == 3);
            assert(sk[0] == input@[i as int] && sk[1] == input@[i + 1] && sk[2] == input@[i + 2]);
            assert(out@ =~= pre_out + seq![
                (sextet_of(sk[0]) * 4 + sextet_of(sk[1]) / 16) as u8,
                ((sextet_of(sk[1]) % 16) * 16 + sextet_of(sk[2]) / 4) as u8,
            ]);
        }
        Some(out)
    }
}

} // verus!
