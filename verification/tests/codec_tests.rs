use tienda_auth::base64url::{b64_decode, b64_encode};
use tienda_auth::numerals::{i32_to_dec, parse_i32, parse_u64, u64_to_dec};
use tienda_auth::password::{hash_password, verify_password};

#[test]
fn decimal_rendering_known_values() {
    assert_eq!(u64_to_dec(0), b"0".to_vec());
    assert_eq!(u64_to_dec(7), b"7".to_vec());
    assert_eq!(u64_to_dec(86400), b"86400".to_vec());
    assert_eq!(u64_to_dec(u64::MAX), b"18446744073709551615".to_vec());
    assert_eq!(i32_to_dec(-1), b"-1".to_vec());
    assert_eq!(i32_to_dec(i32::MIN), b"-2147483648".to_vec());
    assert_eq!(i32_to_dec(i32::MAX), b"2147483647".to_vec());
}

#[test]
fn decimal_parse_round_trips_and_bounds() {
    for n in [0u64, 1, 9, 10, 12345, u64::MAX] {
        let v = u64_to_dec(n);
        let end = v.len();
        assert_eq!(parse_u64(&v, 0, end), Some(n));
    }
    for n in [i32::MIN, -7, 0, 42, i32::MAX] {
        let v = i32_to_dec(n);
        let end = v.len();
        assert_eq!(parse_i32(&v, 0, end), Some(n));
    }
    // one past u64::MAX
    let too_big = b"18446744073709551616".to_vec();
    let end = too_big.len();
    assert_eq!(parse_u64(&too_big, 0, end), None);
    let not_digits = b"12a4".to_vec();
    assert_eq!(parse_u64(&not_digits, 0, 4), None);
    let empty: Vec<u8> = Vec::new();
    assert_eq!(parse_u64(&empty, 0, 0), None);
    let lone_minus = b"-".to_vec();
    assert_eq!(parse_i32(&lone_minus, 0, 1), None);
    let too_negative = b"-2147483649".to_vec();
    let end = too_negative.len();
    assert_eq!(parse_i32(&too_negative, 0, end), None);
}

#[test]
fn base64url_known_vectors() {
    let cases: &[(&[u8], &[u8])] = &[
        (b"", b""),
        (b"M", b"TQ"),
        (b"Ma", b"TWE"),
        (b"Man", b"TWFu"),
        (b"Many hands make light work.", b"TWFueSBoYW5kcyBtYWtlIGxpZ2h0IHdvcmsu"),
        (&[0xfb, 0xff], b"-_8"),
        (&[0xff, 0xff, 0xfe], b"___-"),
    ];
    for (plain, encoded) in cases {
        let v = plain.to_vec();
        assert_eq!(b64_encode(&v), encoded.to_vec());
    }
}

#[test]
fn base64url_decode_inverts_encode() {
    let inputs: &[&[u8]] = &[b"", b"a", b"ab", b"abc", b"abcd", &[0, 255, 7, 128, 63, 1, 2]];
    for input in inputs {
        let v = input.to_vec();
        let enc = b64_encode(&v);
        let end = enc.len();
        assert_eq!(b64_decode(&enc, 0, end), Some(v));
    }
    // a length that unpadded base64 never produces
    let bad = b"A".to_vec();
    assert_eq!(b64_decode(&bad, 0, 1), None);
    // a byte outside the alphabet
    let bad = b"TW=u".to_vec();
    assert_eq!(b64_decode(&bad, 0, 4), None);
}

#[test]
fn hash_password_produces_verifiable_hash() {
    let hash = hash_password("hunter2").unwrap();
    assert!(hash.starts_with("$2"));
    assert!(verify_password(&hash, "hunter2"));
    assert!(!verify_password(&hash, "hunter3"));
}

#[test]
fn verify_password_plaintext_mode() {
    assert!(verify_password("plain", "plain"));
    assert!(!verify_password("plain", "plaiN"));
    assert!(verify_password("", ""));
    assert!(!verify_password("", "x"));
    // a $2 prefix routes through bcrypt, so a malformed hash never
    // matches, not even itself
    assert!(!verify_password("$2notahash", "$2notahash"));
}
