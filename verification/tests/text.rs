use roulette_table::text::{decimal_string, parse_i32};

#[test]
fn decimal_string_writes_digits_without_leading_zeros() {
    assert_eq!(decimal_string(0), "0");
    assert_eq!(decimal_string(7), "7");
    assert_eq!(decimal_string(10), "10");
    assert_eq!(decimal_string(36), "36");
    assert_eq!(decimal_string(1234567890), "1234567890");
    assert_eq!(decimal_string(i64::MAX), "9223372036854775807");
}

#[test]
fn decimal_string_writes_a_minus_sign_for_negative_numbers() {
    assert_eq!(decimal_string(-1), "-1");
    assert_eq!(decimal_string(-205), "-205");
    assert_eq!(decimal_string(i64::MIN), "-9223372036854775808");
}

#[test]
fn decimal_string_agrees_with_the_standard_library() {
    for n in -1000i64..=1000 {
        assert_eq!(decimal_string(n), n.to_string());
    }
}

#[test]
fn parse_reads_signed_decimal_numbers() {
    assert_eq!(parse_i32("0"), Some(0));
    assert_eq!(parse_i32("17"), Some(17));
    assert_eq!(parse_i32("00017"), Some(17));
    assert_eq!(parse_i32("+17"), Some(17));
    assert_eq!(parse_i32("-17"), Some(-17));
    assert_eq!(parse_i32("-0"), Some(0));
    assert_eq!(parse_i32("2147483647"), Some(i32::MAX));
    assert_eq!(parse_i32("-2147483648"), Some(i32::MIN));
}

#[test]
fn parse_refuses_everything_else() {
    assert_eq!(parse_i32(""), None);
    assert_eq!(parse_i32("+"), None);
    assert_eq!(parse_i32("-"), None);
    assert_eq!(parse_i32("+-1"), None);
    assert_eq!(parse_i32("1 "), None);
    assert_eq!(parse_i32(" 1"), None);
    assert_eq!(parse_i32("1x"), None);
    assert_eq!(parse_i32("x"), None);
    assert_eq!(parse_i32("1.0"), None);
    assert_eq!(parse_i32("\u{0663}"), None);
    assert_eq!(parse_i32("2147483648"), None);
    assert_eq!(parse_i32("-2147483649"), None);
    assert_eq!(parse_i32("99999999999999999999999999"), None);
}

#[test]
fn parse_agrees_with_the_standard_library() {
    let samples = [
        "", "0", "-", "+", "12", "-12", "+12", "0012", "12a", "a12", "2147483647", "2147483648",
        "-2147483648", "-2147483649", "--1", "1-", "\u{ff11}",
    ];
    for sample in samples.iter() {
        assert_eq!(parse_i32(sample), sample.parse::<i32>().ok());
    }
}
