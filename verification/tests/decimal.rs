use story_schema::decimal::{format_integer, parse_integer};

#[test]
fn parses_plain_digits() {
    assert_eq!(parse_integer("0"), Some(0));
    assert_eq!(parse_integer("7"), Some(7));
    assert_eq!(parse_integer("42"), Some(42));
    assert_eq!(parse_integer("1234567890"), Some(1234567890));
}

#[test]
fn parses_signs_and_leading_zeros() {
    assert_eq!(parse_integer("-42"), Some(-42));
    assert_eq!(parse_integer("+42"), Some(42));
    assert_eq!(parse_integer("-0"), Some(0));
    assert_eq!(parse_integer("+0"), Some(0));
    assert_eq!(parse_integer("007"), Some(7));
    assert_eq!(parse_integer("-007"), Some(-7));
    assert_eq!(parse_integer("00000000000000000000000000000001"), Some(1));
}

#[test]
fn parses_the_ends_of_the_range() {
    assert_eq!(parse_integer("9223372036854775807"), Some(i64::MAX));
    assert_eq!(parse_integer("+9223372036854775807"), Some(i64::MAX));
    assert_eq!(parse_integer("-9223372036854775808"), Some(i64::MIN));
    assert_eq!(parse_integer("-9223372036854775807"), Some(i64::MIN + 1));
}

#[test]
fn rejects_what_does_not_fit() {
    assert_eq!(parse_integer("9223372036854775808"), None);
    assert_eq!(parse_integer("-9223372036854775809"), None);
    assert_eq!(parse_integer("18446744073709551616"), None);
    assert_eq!(parse_integer("99999999999999999999999999"), None);
    assert_eq!(parse_integer("-99999999999999999999999999"), None);
}

#[test]
fn rejects_what_is_not_an_integer() {
    for text in [
        "", "x", "-", "+", "+-1", "--1", "1-", "1 ", " 1", "1.0", "1e3", "0x10", "1_000", "١٢", "4２",
        "é", "12a", "a12", "-a", "\u{0}", "1\n",
    ] {
        assert_eq!(parse_integer(text), None, "{:?}", text);
    }
}

#[test]
fn parsing_agrees_with_the_standard_library() {
    for text in [
        "", "0", "-0", "+0", "1", "-1", "+1", "00", "-00", "9223372036854775807",
        "9223372036854775808", "-9223372036854775808", "-9223372036854775809", "12x", "x12",
        " 12", "12 ", "+", "-", "++1", "1+", "٣", "1٣", "0000000000000000000000000000000000012",
        "92233720368547758070", "-92233720368547758080",
    ] {
        assert_eq!(parse_integer(text), text.parse::<i64>().ok(), "{:?}", text);
    }
}

#[test]
fn formats_in_decimal() {
    assert_eq!(format_integer(0), "0");
    assert_eq!(format_integer(7), "7");
    assert_eq!(format_integer(-7), "-7");
    assert_eq!(format_integer(10), "10");
    assert_eq!(format_integer(-10), "-10");
    assert_eq!(format_integer(1234567890), "1234567890");
    assert_eq!(format_integer(i64::MAX), "9223372036854775807");
    assert_eq!(format_integer(i64::MIN), "-9223372036854775808");
}

#[test]
fn formatting_agrees_with_the_standard_library() {
    let mut v: i64 = 1;
    for _ in 0..62 {
        for w in [v, -v, v - 1, -(v - 1), v + 1] {
            assert_eq!(format_integer(w), format!("{}", w));
        }
        v *= 2;
    }
}

#[test]
fn parse_reads_back_what_format_wrote() {
    for v in [0, 1, -1, 9, 10, 11, -9, -10, 99, 100, 101, i64::MAX, i64::MIN, i64::MAX - 1, i64::MIN + 1] {
        assert_eq!(parse_integer(&format_integer(v)), Some(v));
    }
}
