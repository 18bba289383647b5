use yoroolbot::CallbackDataKey;
use yoroolbot::decimal::i64_to_decimal;
use yoroolbot::decimal::parse_i32_decimal;
use yoroolbot::decimal::parse_i64_decimal;
use yoroolbot::decimal::parse_usize_decimal;
use yoroolbot::decimal::u64_to_decimal;

#[test]
fn decimal_formatting() {
    assert_eq!(u64_to_decimal(0), "0");
    assert_eq!(u64_to_decimal(7), "7");
    assert_eq!(u64_to_decimal(1234567890), "1234567890");
    assert_eq!(i64_to_decimal(0), "0");
    assert_eq!(i64_to_decimal(-1), "-1");
    assert_eq!(i64_to_decimal(-123456789), "-123456789");
    assert_eq!(i64_to_decimal(i64::MIN), "-9223372036854775808");
    assert_eq!(i64_to_decimal(i64::MAX), "9223372036854775807");
}

#[test]
fn decimal_parsing() {
    assert_eq!(parse_i64_decimal("0"), Some(0));
    assert_eq!(parse_i64_decimal("-123456789"), Some(-123456789));
    assert_eq!(parse_i64_decimal("+42"), Some(42));
    assert_eq!(parse_i64_decimal("-9223372036854775808"), Some(i64::MIN));
    assert_eq!(parse_i64_decimal("9223372036854775808"), None);
    assert_eq!(parse_i64_decimal(""), None);
    assert_eq!(parse_i64_decimal("-"), None);
    assert_eq!(parse_i64_decimal("12x"), None);
    assert_eq!(parse_i64_decimal("99999999999999999999999999"), None);

    assert_eq!(parse_i32_decimal("2147483647"), Some(i32::MAX));
    assert_eq!(parse_i32_decimal("-2147483648"), Some(i32::MIN));
    assert_eq!(parse_i32_decimal("2147483648"), None);

    assert_eq!(parse_usize_decimal("17"), Some(17));
    assert_eq!(parse_usize_decimal("+17"), Some(17));
    assert_eq!(parse_usize_decimal("-0"), None);
    assert_eq!(parse_usize_decimal("-17"), None);
}

#[test]
fn decimal_matches_std_parser() {
    // The library parser and the standard one agree on the samples.
    for s in [
        "0", "-0", "+0", "17", "-17", "+17", "", "-", "+", "x", "1 2", " 1",
        "9223372036854775807", "9223372036854775808", "-9223372036854775808",
        "-9223372036854775809",
    ] {
        assert_eq!(parse_i64_decimal(s), s.parse::<i64>().ok(), "i64 {:?}", s);
        assert_eq!(parse_usize_decimal(s), s.parse::<usize>().ok(), "usize {:?}", s);
    }
}

#[test]
fn reference_string_form() {
    let key = CallbackDataKey::new(123456789, 42, 3);
    assert_eq!(key.to_reference_string(), "cb:123456789:42:3");
    let negative_chat = CallbackDataKey::new(-987, 1, 0);
    assert_eq!(negative_chat.to_reference_string(), "cb:-987:1:0");
}

#[test]
fn reference_string_round_trip() {
    for key in [
        CallbackDataKey::new(123456789, 42, 3),
        CallbackDataKey::new(-123456789, 0, 0),
        CallbackDataKey::new(i64::MIN, i32::MIN, usize::MAX),
        CallbackDataKey::new(i64::MAX, i32::MAX, 0),
    ] {
        let reference = key.to_reference_string();
        assert_eq!(CallbackDataKey::parse_reference(&reference), Some(key.clone()));
    }
}

#[test]
fn malformed_references_rejected() {
    for s in [
        "",
        "cb",
        "cb:1:2",
        "cb:1:2:3:4",
        "xx:1:2:3",
        "cb:one:2:3",
        "cb:1:2:-3",
        "cb:1:2:",
        "cb::2:3",
        "cb:99999999999999999999:2:3",
    ] {
        assert_eq!(CallbackDataKey::parse_reference(s), None, "{:?}", s);
    }
}
