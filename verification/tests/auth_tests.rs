use mles::auth::{parse_hex, verify_auth};
use mles::num::parse_u64;
use siphasher::sip::SipHasher;
use std::hash::Hasher;

#[test]
fn test_verify_auth_no_key_no_auth() {
    assert!(verify_auth("user1", "chan1", None, None));
}

#[test]
fn test_verify_auth_with_key_and_matching_auth() {
    let uid = "user1";
    let channel = "chan1";
    let key = Some("secret");
    let mut hasher = SipHasher::new();
    hasher.write(uid.as_bytes());
    hasher.write(channel.as_bytes());
    hasher.write("secret".as_bytes());
    let hash = hasher.finish();
    let auth_str = format!("{:x}", hash);

    assert!(verify_auth(uid, channel, Some(&auth_str), key));
}

#[test]
fn test_verify_auth_with_key_requires_auth() {
    assert!(!verify_auth("u", "c", None, Some("k")));
}

#[test]
fn test_verify_auth_with_wrong_auth_fails() {
    assert!(!verify_auth("user", "chan", Some("deadbeef"), Some("secret")));
}

#[test]
fn verify_auth_upper_case_hex_accepted() {
    let mut hasher = SipHasher::new();
    hasher.write(b"u");
    hasher.write(b"c");
    hasher.write(b"k");
    let auth = format!("{:X}", hasher.finish());
    assert!(verify_auth("u", "c", Some(&auth), Some("k")));
}

#[test]
fn verify_auth_without_key_checks_given_auth() {
    assert!(!verify_auth("u", "c", Some("zz"), None));
    let mut hasher = SipHasher::new();
    hasher.write(b"u");
    hasher.write(b"c");
    let auth = format!("{:x}", hasher.finish());
    assert!(verify_auth("u", "c", Some(&auth), None));
}

#[test]
fn parse_hex_cases() {
    assert_eq!(parse_hex("ff"), Some(255));
    assert_eq!(parse_hex("+10"), Some(16));
    assert_eq!(parse_hex("DeadBeef"), Some(0xdeadbeef));
    assert_eq!(parse_hex("ffffffffffffffff"), Some(u64::MAX));
    assert_eq!(parse_hex("10000000000000000"), None);
    assert_eq!(parse_hex(""), None);
    assert_eq!(parse_hex("+"), None);
    assert_eq!(parse_hex("-1"), None);
    assert_eq!(parse_hex("1g"), None);
    for s in ["0", "abc", "+7f", "00000000000000000001"] {
        assert_eq!(parse_hex(s), u64::from_str_radix(s, 16).ok());
    }
}

#[test]
fn parse_decimal_like_std() {
    for s in ["0", "42", "+42", "18446744073709551615", "18446744073709551616", "", "+", "-1", "4a", "ff"] {
        assert_eq!(parse_u64(s, 10), s.parse::<u64>().ok(), "{}", s);
    }
    assert_eq!(parse_u64("z", 36), Some(35));
    assert_eq!(parse_u64("101", 2), Some(5));
}
