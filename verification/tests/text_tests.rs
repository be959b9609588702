use sitemapper::text::is_comment;
use sitemapper::text::parse_delta_milli;
use sitemapper::text::parse_u64;
use sitemapper::text::str_eq;
use sitemapper::text::str_starts_with;

#[test]
fn parse_u64_plain_numbers() {
    assert_eq!(parse_u64("25"), Some(25));
    assert_eq!(parse_u64("0"), Some(0));
    assert_eq!(parse_u64("007"), Some(7));
    assert_eq!(parse_u64("+40"), Some(40));
}

#[test]
fn parse_u64_bounds() {
    assert_eq!(parse_u64("18446744073709551615"), Some(u64::MAX));
    assert_eq!(parse_u64("18446744073709551616"), None);
    assert_eq!(parse_u64("99999999999999999999999"), None);
}

#[test]
fn parse_u64_malformed() {
    assert_eq!(parse_u64(""), None);
    assert_eq!(parse_u64("+"), None);
    assert_eq!(parse_u64("abc"), None);
    assert_eq!(parse_u64("2 5"), None);
    assert_eq!(parse_u64("-3"), None);
    assert_eq!(parse_u64("2.5"), None);
}

#[test]
fn parse_delta_basic() {
    assert_eq!(parse_delta_milli("-0.2"), Some(-200));
    assert_eq!(parse_delta_milli("0.5"), Some(500));
    assert_eq!(parse_delta_milli("-0.3"), Some(-300));
    assert_eq!(parse_delta_milli("1"), Some(1000));
    assert_eq!(parse_delta_milli("+0.25"), Some(250));
}

#[test]
fn parse_delta_dot_forms() {
    assert_eq!(parse_delta_milli("1."), Some(1000));
    assert_eq!(parse_delta_milli(".5"), Some(500));
    assert_eq!(parse_delta_milli("-.5"), Some(-500));
    assert_eq!(parse_delta_milli("."), None);
    assert_eq!(parse_delta_milli("-."), None);
}

#[test]
fn parse_delta_truncates_extra_fraction_digits() {
    assert_eq!(parse_delta_milli("0.1234"), Some(123));
    assert_eq!(parse_delta_milli("-0.9999"), Some(-999));
}

#[test]
fn parse_delta_out_of_model() {
    assert_eq!(parse_delta_milli("1000"), None);
    assert_eq!(parse_delta_milli("-1000.5"), None);
    assert_eq!(parse_delta_milli("999.999"), Some(999999));
    assert_eq!(parse_delta_milli("1e3"), None);
    assert_eq!(parse_delta_milli("inf"), None);
    assert_eq!(parse_delta_milli(""), None);
    assert_eq!(parse_delta_milli("0..1"), None);
}

#[test]
fn comment_lines() {
    assert!(is_comment("# a comment"));
    assert!(is_comment("#"));
    assert!(!is_comment(""));
    assert!(!is_comment("https://example.com"));
    assert!(!is_comment(" # indented is data"));
}

#[test]
fn prefix_and_equality() {
    assert!(str_starts_with("text/html; charset=utf-8", "text/html"));
    assert!(!str_starts_with("text", "text/html"));
    assert!(str_starts_with("anything", ""));
    assert!(str_eq("/", "/"));
    assert!(!str_eq("/", "/a"));
}
