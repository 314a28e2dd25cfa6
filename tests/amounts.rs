use kalshi_bot::amount::{parse_amount, parse_signed_amount, AMOUNT_SCALE};
use kalshi_bot::format::{push_fixed, push_int};

fn chars(s: &str) -> Vec<char> {
    s.chars().collect()
}

#[test]
fn parses_plain_decimal() {
    assert_eq!(parse_amount(&chars("0.95")), Some(95_000_000));
    assert_eq!(parse_amount(&chars("105000")), Some(105_000 * AMOUNT_SCALE));
    assert_eq!(parse_amount(&chars("12.34567891")), Some(1_234_567_891));
}

#[test]
fn parses_partial_forms() {
    assert_eq!(parse_amount(&chars(".5")), Some(50_000_000));
    assert_eq!(parse_amount(&chars("5.")), Some(5 * AMOUNT_SCALE));
}

#[test]
fn rejects_malformed_amounts() {
    assert_eq!(parse_amount(&chars("")), None);
    assert_eq!(parse_amount(&chars(".")), None);
    assert_eq!(parse_amount(&chars("1e3")), None);
    assert_eq!(parse_amount(&chars("1.2.3")), None);
    assert_eq!(parse_amount(&chars("abc")), None);
    assert_eq!(parse_amount(&chars("0.123456789")), None);
    assert_eq!(parse_amount(&chars("12345678901")), None);
}

#[test]
fn largest_amount_is_accepted() {
    assert_eq!(
        parse_amount(&chars("9999999999.99999999")),
        Some(999_999_999_999_999_999)
    );
}

#[test]
fn parses_signed_amounts() {
    assert_eq!(parse_signed_amount(&chars("-0.5")), Some(-50_000_000));
    assert_eq!(parse_signed_amount(&chars("+0.25")), Some(25_000_000));
    assert_eq!(parse_signed_amount(&chars("0.25")), Some(25_000_000));
    assert_eq!(parse_signed_amount(&chars("-")), None);
    assert_eq!(parse_signed_amount(&chars("--1")), None);
}

#[test]
fn renders_fixed_point_with_rounding() {
    let mut s = String::new();
    push_fixed(&mut s, 95_000_000, 4);
    assert_eq!(s, "0.9500");
    let mut s = String::new();
    push_fixed(&mut s, 123_456_789, 3);
    assert_eq!(s, "1.235");
    let mut s = String::new();
    push_fixed(&mut s, -2_500_000, 2);
    assert_eq!(s, "-0.03");
    let mut s = String::new();
    push_fixed(&mut s, 10_500_000_000_000, 2);
    assert_eq!(s, "105000.00");
}

#[test]
fn renders_integers() {
    let mut s = String::new();
    push_int(&mut s, -305);
    assert_eq!(s, "-305");
    let mut s = String::new();
    push_int(&mut s, 0);
    assert_eq!(s, "0");
}
