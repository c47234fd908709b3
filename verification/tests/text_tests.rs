use dragonfly_client::text::{parse_u64, str_eq_ignore_case, u64_to_string};

#[test]
fn parse_u64_reads_plain_digits() {
    assert_eq!(parse_u64("0"), Some(0));
    assert_eq!(parse_u64("7"), Some(7));
    assert_eq!(parse_u64("1234567890"), Some(1234567890));
}

#[test]
fn parse_u64_accepts_a_leading_plus_and_leading_zeros() {
    assert_eq!(parse_u64("+42"), Some(42));
    assert_eq!(parse_u64("000042"), Some(42));
    assert_eq!(parse_u64("+0"), Some(0));
}

#[test]
fn parse_u64_reads_the_largest_value() {
    assert_eq!(parse_u64("18446744073709551615"), Some(u64::MAX));
}

#[test]
fn parse_u64_refuses_a_value_beyond_64_bits() {
    assert_eq!(parse_u64("18446744073709551616"), None);
    assert_eq!(parse_u64("99999999999999999999999"), None);
}

#[test]
fn parse_u64_refuses_what_is_no_number() {
    assert_eq!(parse_u64(""), None);
    assert_eq!(parse_u64("+"), None);
    assert_eq!(parse_u64("-1"), None);
    assert_eq!(parse_u64("12a"), None);
    assert_eq!(parse_u64(" 12"), None);
    assert_eq!(parse_u64("1 2"), None);
    assert_eq!(parse_u64("++1"), None);
    assert_eq!(parse_u64("١٢"), None);
}

#[test]
fn parse_u64_agrees_with_the_standard_parser() {
    for s in ["0", "+5", "05", "", "+", "x", "18446744073709551615", "18446744073709551616"] {
        assert_eq!(parse_u64(s), s.parse::<u64>().ok());
    }
}

#[test]
fn u64_to_string_writes_decimal() {
    assert_eq!(u64_to_string(0), "0");
    assert_eq!(u64_to_string(9), "9");
    assert_eq!(u64_to_string(10), "10");
    assert_eq!(u64_to_string(4096), "4096");
    assert_eq!(u64_to_string(u64::MAX), "18446744073709551615");
}

#[test]
fn u64_to_string_then_parse_gives_the_number_back() {
    for n in [0u64, 1, 99, 100, 65535, u64::MAX] {
        assert_eq!(parse_u64(&u64_to_string(n)), Some(n));
    }
}

#[test]
fn str_eq_ignore_case_folds_ascii_letters_only() {
    assert!(str_eq_ignore_case("Content-Length", "content-length"));
    assert!(str_eq_ignore_case("RANGE", "range"));
    assert!(str_eq_ignore_case("", ""));
    assert!(!str_eq_ignore_case("range", "ranges"));
    assert!(!str_eq_ignore_case("range", "rangf"));
    assert!(!str_eq_ignore_case("a-b", "a_b"));
    assert!(!str_eq_ignore_case("Ä", "ä"));
}
