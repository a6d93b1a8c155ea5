use bloom::text::dec_string;
use bloom::text::parse_dec_bounded;
use bloom::text::str_eq;

#[test]
fn decimal_rendering_is_exact() {
    assert_eq!(dec_string(0), "0");
    assert_eq!(dec_string(7), "7");
    assert_eq!(dec_string(10), "10");
    assert_eq!(dec_string(255), "255");
    assert_eq!(dec_string(4294967295), "4294967295");
}

#[test]
fn decimal_parsing_is_exact() {
    assert_eq!(parse_dec_bounded("0", 255), Some(0));
    assert_eq!(parse_dec_bounded("255", 255), Some(255));
    assert_eq!(parse_dec_bounded("256", 255), None);
    assert_eq!(parse_dec_bounded("007", 255), Some(7));
    assert_eq!(parse_dec_bounded("+42", 255), Some(42));
    assert_eq!(parse_dec_bounded("", 255), None);
    assert_eq!(parse_dec_bounded("+", 255), None);
    assert_eq!(parse_dec_bounded("-1", 255), None);
    assert_eq!(parse_dec_bounded("1 2", 255), None);
    assert_eq!(parse_dec_bounded("99999999999999999999", 4294967295), None);
}

#[test]
fn string_equality_is_by_content() {
    assert!(str_eq("abc", "abc"));
    assert!(!str_eq("abc", "abd"));
    assert!(!str_eq("abc", "abcd"));
    assert!(str_eq("", ""));
}
