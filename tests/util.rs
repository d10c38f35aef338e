use linux_proc::util::{
    consume_space, count_digits, expect_bytes, parse_dummy, parse_nanos, parse_token, parse_u64,
    str_eq,
};

#[test]
fn test_parse_u64() {
    assert_eq!(parse_u64(""), None);
    assert_eq!(parse_u64(" "), None);
    assert_eq!(parse_u64("12 "), Some((" ", 12)));
    assert_eq!(parse_u64("12"), Some(("", 12)));
    assert_eq!(parse_u64("a12"), None);
    assert_eq!(parse_u64(" 12"), Some(("", 12)));
    assert_eq!(parse_u64("a 12"), None);
    assert_eq!(parse_u64(" 12a"), Some(("a", 12)));
}

#[test]
fn test_consume_space() {
    assert_eq!(consume_space(""), "");
    assert_eq!(consume_space(" "), "");
    assert_eq!(consume_space(" a"), "a");
    assert_eq!(consume_space(" a "), "a ");
    assert_eq!(consume_space("a "), "a ");
}

#[test]
fn test_parse_token() {
    assert_eq!(parse_token(""), None);
    assert_eq!(parse_token(" "), None);
    assert_eq!(parse_token("token "), Some((" ", "token")));
    assert_eq!(parse_token("token"), Some(("", "token")));
    assert_eq!(parse_token(" token"), Some(("", "token")));
    assert_eq!(parse_token(" token "), Some((" ", "token")));
}

#[test]
fn test_expect_bytes() {
    assert_eq!(expect_bytes("", ""), Some(""));
    assert_eq!(expect_bytes("a", ""), None);
    assert_eq!(expect_bytes("abc", "abcde"), Some("de"));
    assert_eq!(expect_bytes("a", "b"), None);
}

#[test]
fn test_parse_nanos() {
    assert_eq!(parse_nanos(""), None);
    assert_eq!(parse_nanos("1"), Some(("", 100_000_000)));
    assert_eq!(parse_nanos(" 12"), Some(("", 120_000_000)));
    assert_eq!(parse_nanos("012"), Some(("", 12_000_000)));
    assert_eq!(parse_nanos(".12"), None);
}

#[test]
fn parse_nanos_nine_digits() {
    assert_eq!(parse_nanos("123456789 x"), Some((" x", 123_456_789)));
    assert_eq!(parse_nanos("999999999"), Some(("", 999_999_999)));
    assert_eq!(count_digits(" 1234567890"), 10);
}

#[test]
fn parse_u64_round_trips() {
    for n in [0u64, 7, 10, 12345, u64::MAX / 3, u64::MAX - 1, u64::MAX] {
        let text = format!("{}", n);
        assert_eq!(parse_u64(&text), Some(("", n)));
    }
}

#[test]
fn parse_u64_wraps_past_max() {
    // u64::MAX + 1 reads as zero, u64::MAX + 6 as five.
    assert_eq!(parse_u64("18446744073709551616"), Some(("", 0)));
    assert_eq!(parse_u64("18446744073709551621 "), Some((" ", 5)));
}

#[test]
fn parse_token_on_remainder_skips_space() {
    let s = "  first \t second\n";
    let (rest, tok) = parse_token(s).unwrap();
    assert_eq!(tok, "first");
    assert_eq!(rest, " \t second\n");
    assert_eq!(parse_token(rest), parse_token(consume_space(rest)));
    assert_eq!(parse_token(rest), Some(("\n", "second")));
    assert_eq!(consume_space(consume_space(rest)), consume_space(rest));
}

#[test]
fn whitespace_kinds() {
    assert_eq!(consume_space(" \t\r\nx"), "x");
    assert_eq!(parse_token("\tab\rc"), Some(("\rc", "ab")));
}

#[test]
fn dummy_and_str_eq() {
    assert!(parse_dummy("anything").is_ok());
    assert!(str_eq("abc", "abc"));
    assert!(!str_eq("abc", "abd"));
    assert!(!str_eq("abc", "ab"));
}
