use kernel_info::number::{parse_unsigned, push_decimal, push_fixed2};
use kernel_info::text::to_chars;

fn parse(text: &str) -> Option<u64> {
    parse_unsigned(&to_chars(text))
}

fn decimal(n: u128) -> String {
    let mut out = String::new();
    push_decimal(&mut out, n);
    out
}

fn fixed2(hundredths: u128) -> String {
    let mut out = String::new();
    push_fixed2(&mut out, hundredths);
    out
}

#[test]
fn digits_parse_to_their_value() {
    assert_eq!(parse("0"), Some(0));
    assert_eq!(parse("12345"), Some(12345));
    assert_eq!(parse("007"), Some(7));
    assert_eq!(parse("17179869184"), Some(17179869184));
}

#[test]
fn a_plus_sign_may_lead() {
    assert_eq!(parse("+5"), Some(5));
    assert_eq!(parse("+0"), Some(0));
    assert_eq!(parse("+"), None);
    assert_eq!(parse("++5"), None);
    assert_eq!(parse("5+"), None);
}

#[test]
fn other_text_is_no_number() {
    assert_eq!(parse(""), None);
    assert_eq!(parse("-5"), None);
    assert_eq!(parse("12a"), None);
    assert_eq!(parse("a12"), None);
    assert_eq!(parse("1.5"), None);
    assert_eq!(parse("12345."), None);
    assert_eq!(parse(" 1"), None);
    assert_eq!(parse("1 "), None);
    assert_eq!(parse("\u{661}\u{662}"), None);
    assert_eq!(parse("1_000"), None);
}

#[test]
fn the_value_must_fit() {
    assert_eq!(parse("18446744073709551615"), Some(u64::MAX));
    assert_eq!(parse("18446744073709551616"), None);
    assert_eq!(parse("18446744073709551620"), None);
    assert_eq!(parse("99999999999999999999"), None);
    assert_eq!(parse("184467440737095516150"), None);
    assert_eq!(parse("000000000000000000000000018446744073709551615"), Some(u64::MAX));
}

#[test]
fn parsing_agrees_with_std() {
    for text in ["", "+", "-", "0", "+1", "-1", "42", "4 2", "18446744073709551615",
        "18446744073709551616", "abc", "12.", "0x10", "+-1"]
    {
        assert_eq!(parse(text), text.parse::<u64>().ok(), "{:?}", text);
    }
}

#[test]
fn decimal_writes_digits_without_leading_zeros() {
    assert_eq!(decimal(0), "0");
    assert_eq!(decimal(7), "7");
    assert_eq!(decimal(10), "10");
    assert_eq!(decimal(1234567890), "1234567890");
    assert_eq!(decimal(u128::MAX), "340282366920938463463374607431768211455");
}

#[test]
fn decimal_appends_to_what_is_there() {
    let mut out = String::from("n=");
    push_decimal(&mut out, 405);
    assert_eq!(out, "n=405");
    push_decimal(&mut out, 0);
    assert_eq!(out, "n=4050");
}

#[test]
fn decimal_and_parsing_are_inverse() {
    for n in [0u64, 1, 9, 10, 99, 100, 4096, 12345, u32::MAX as u64, u64::MAX - 1, u64::MAX] {
        assert_eq!(parse(&decimal(n as u128)), Some(n));
    }
}

#[test]
fn fixed2_writes_two_decimal_places() {
    assert_eq!(fixed2(0), "0.00");
    assert_eq!(fixed2(5), "0.05");
    assert_eq!(fixed2(50), "0.50");
    assert_eq!(fixed2(123), "1.23");
    assert_eq!(fixed2(1600), "16.00");
    assert_eq!(fixed2(123456), "1234.56");
    assert_eq!(fixed2(109), "1.09");
}
