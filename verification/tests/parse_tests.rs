use pw_roundtrip::parse::{parse_u32, parse_usize, str_eq};

#[test]
fn parse_u32_plain() {
    assert_eq!(parse_u32("0"), Some(0));
    assert_eq!(parse_u32("48000"), Some(48000));
    assert_eq!(parse_u32("0007"), Some(7));
}

#[test]
fn parse_u32_limits() {
    assert_eq!(parse_u32("4294967295"), Some(u32::MAX));
    assert_eq!(parse_u32("4294967296"), None);
    assert_eq!(parse_u32("99999999999999999999"), None);
}

#[test]
fn parse_u32_rejects_non_digits() {
    assert_eq!(parse_u32(""), None);
    assert_eq!(parse_u32(" 1"), None);
    assert_eq!(parse_u32("1 "), None);
    assert_eq!(parse_u32("+1"), None);
    assert_eq!(parse_u32("-1"), None);
    assert_eq!(parse_u32("12x"), None);
    assert_eq!(parse_u32("x12"), None);
}

#[test]
fn parse_usize_plain() {
    assert_eq!(parse_usize("2"), Some(2));
    assert_eq!(parse_usize("123456"), Some(123456));
    assert_eq!(parse_usize("abc"), None);
    assert_eq!(parse_usize(""), None);
}

#[test]
fn str_eq_works() {
    assert!(str_eq("", ""));
    assert!(str_eq("abc", "abc"));
    assert!(!str_eq("abc", "abd"));
    assert!(!str_eq("abc", "abcd"));
    assert!(!str_eq("Audio/Sink", "Audio/Source"));
}
