use streamrr::text::{
    chars_to_string, concat_str, i64_to_string, parse_u64, push_str, str_chars, str_ends_with, str_eq,
    u64_to_string,
};

#[test]
fn decimal_of_zero_is_one_digit() {
    assert_eq!(u64_to_string(0), "0");
}

#[test]
fn decimal_has_no_leading_zero() {
    assert_eq!(u64_to_string(7), "7");
    assert_eq!(u64_to_string(10), "10");
    assert_eq!(u64_to_string(1005), "1005");
}

#[test]
fn decimal_of_the_largest_number() {
    assert_eq!(u64_to_string(u64::MAX), "18446744073709551615");
}

#[test]
fn signed_decimal_puts_a_minus_before_the_magnitude() {
    assert_eq!(i64_to_string(-42), "-42");
    assert_eq!(i64_to_string(42), "42");
    assert_eq!(i64_to_string(0), "0");
}

#[test]
fn signed_decimal_of_the_extremes() {
    assert_eq!(i64_to_string(i64::MIN), "-9223372036854775808");
    assert_eq!(i64_to_string(i64::MAX), "9223372036854775807");
}

#[test]
fn parse_reads_digits() {
    assert_eq!(parse_u64("0"), Some(0));
    assert_eq!(parse_u64("1000"), Some(1000));
    assert_eq!(parse_u64("007"), Some(7));
}

#[test]
fn parse_takes_a_plus_sign() {
    assert_eq!(parse_u64("+15"), Some(15));
}

#[test]
fn parse_refuses_what_is_no_number() {
    assert_eq!(parse_u64(""), None);
    assert_eq!(parse_u64("+"), None);
    assert_eq!(parse_u64("-5"), None);
    assert_eq!(parse_u64("12a"), None);
    assert_eq!(parse_u64(" 12"), None);
    assert_eq!(parse_u64("1_000"), None);
    assert_eq!(parse_u64("++1"), None);
}

#[test]
fn parse_stops_at_64_bits() {
    assert_eq!(parse_u64("18446744073709551615"), Some(u64::MAX));
    assert_eq!(parse_u64("18446744073709551616"), None);
    assert_eq!(parse_u64("99999999999999999999999"), None);
}

#[test]
fn parse_agrees_with_std() {
    for text in ["0", "42", "+42", "-42", "", "+", "4 2", "18446744073709551615", "18446744073709551616", "٣"] {
        assert_eq!(parse_u64(text), text.parse::<u64>().ok(), "{text:?}");
    }
}

#[test]
fn rendering_and_parsing_round_trip() {
    for n in [0u64, 1, 9, 10, 99, 100, 12345, u64::MAX] {
        assert_eq!(parse_u64(&u64_to_string(n)), Some(n));
        assert_eq!(u64_to_string(n), n.to_string());
    }
}

#[test]
fn chars_and_back() {
    let chars = str_chars("héllo");
    assert_eq!(chars, vec!['h', 'é', 'l', 'l', 'o']);
    assert_eq!(chars_to_string(&chars, 1, 4), "éll");
    assert_eq!(chars_to_string(&chars, 2, 2), "");
}

#[test]
fn concat_str_and_push_str_append() {
    assert_eq!(concat_str("ab", "cd"), "abcd");
    assert_eq!(concat_str("", ""), "");
    let mut s = String::from("x");
    push_str(&mut s, "yz");
    assert_eq!(s, "xyz");
}

#[test]
fn equality_is_by_characters() {
    assert!(str_eq("X-PART", "X-PART"));
    assert!(!str_eq("X-PART", "X-PART-INF"));
    assert!(!str_eq("a", "A"));
}

#[test]
fn ends_with_compares_the_tail() {
    assert!(str_ends_with("variant0/index.m3u8", ".m3u8"));
    assert!(str_ends_with(".m3u8", ".m3u8"));
    assert!(!str_ends_with("m3u8", ".m3u8"));
    assert!(!str_ends_with("index.m3u8.bak", ".m3u8"));
    assert!(str_ends_with("anything", ""));
}
