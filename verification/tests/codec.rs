use bartender::b64::{b64url_decode, b64url_encode};
use bartender::claims::{claims_to_json, parse_claims};

#[test]
fn b64_known_values() {
    // unpadded url-safe alphabet
    let cases: [(&[u8], &str); 5] = [
        (b"", ""),
        (b"f", "Zg"),
        (b"fo", "Zm8"),
        (b"foo", "Zm9v"),
        (b"\xfb\xff\xfe", "-__-"),
    ];
    for (input, expected) in cases {
        let out = b64url_encode(&input.to_vec());
        assert_eq!(String::from_utf8(out).unwrap(), expected);
    }
}

#[test]
fn b64_roundtrip_bytes() {
    let data: Vec<u8> = (0u8..=255).collect();
    let encoded = b64url_encode(&data);
    let decoded = b64url_decode(&encoded).unwrap();
    assert_eq!(decoded, data);
}

#[test]
fn b64_rejects_non_canonical_input() {
    // a lone trailing character, a byte outside the alphabet, padding
    assert!(b64url_decode(&b"A".to_vec()).is_none());
    assert!(b64url_decode(&b"Zg==".to_vec()).is_none());
    assert!(b64url_decode(&b"Z\xffg".to_vec()).is_none());
    // non-zero trailing bits: "Zh" decodes the same byte as "Zg" would,
    // but only the canonical form is accepted
    assert!(b64url_decode(&b"Zh".to_vec()).is_none());
    assert!(b64url_decode(&b"Zg".to_vec()).is_some());
}

#[test]
fn claims_serialize_shape() {
    let json = claims_to_json(&b"abc".to_vec(), 123);
    assert_eq!(String::from_utf8(json).unwrap(), "{\"sub\":\"abc\",\"exp\":123}");
}

#[test]
fn claims_roundtrip() {
    let json = claims_to_json(&b"0e3eff51-79f5-4b85-b5a4-b8c6bbd4a3c5".to_vec(), u64::MAX);
    let (sub, exp) = parse_claims(&json).unwrap();
    assert_eq!(sub, b"0e3eff51-79f5-4b85-b5a4-b8c6bbd4a3c5".to_vec());
    assert_eq!(exp, u64::MAX);
}

#[test]
fn claims_parse_rejects_other_shapes() {
    let bad: [&[u8]; 6] = [
        b"",
        b"{}",
        b"{\"sub\":\"a\"}",
        b"{\"sub\":\"a\",\"exp\":01}",
        b"{\"sub\":\"a\",\"exp\":18446744073709551616}",
        b"{\"exp\":1,\"sub\":\"a\"}",
    ];
    for input in bad {
        assert!(parse_claims(&input.to_vec()).is_none(), "accepted: {:?}", input);
    }
}

#[test]
fn claims_agree_with_serde_json() {
    // the canonical document is plain JSON: serde_json reads it back
    let json = claims_to_json(&b"abc".to_vec(), 42);
    let v: serde_json::Value = serde_json::from_slice(&json).unwrap();
    assert_eq!(v.get("sub").and_then(|s| s.as_str()), Some("abc"));
    assert_eq!(v.get("exp").and_then(|e| e.as_u64()), Some(42));
}
