use dragonfly::decimal::{parse_decimal, read_capped, scan_digits};
use dragonfly::fixed::Fixed;

fn nanos(text: &str) -> Option<i64> {
    parse_decimal(text.as_bytes()).map(|x| x.nanos())
}

#[test]
fn plain_literals() {
    assert_eq!(nanos("0"), Some(0));
    assert_eq!(nanos("12"), Some(12_000_000_000));
    assert_eq!(nanos("-12"), Some(-12_000_000_000));
    assert_eq!(nanos("+12"), Some(12_000_000_000));
    assert_eq!(nanos("123.456789"), Some(123_456_789_000));
    assert_eq!(nanos("1.23456789"), Some(1_234_567_890));
    assert_eq!(nanos("3."), Some(3_000_000_000));
    assert_eq!(nanos(".25"), Some(250_000_000));
    assert_eq!(nanos("-.5"), Some(-500_000_000));
    assert_eq!(nanos("007.50"), Some(7_500_000_000));
    assert_eq!(nanos("-0"), Some(0));
}

#[test]
fn literals_with_an_exponent() {
    assert_eq!(nanos("1.234568e+05"), Some(123_456_800_000_000));
    assert_eq!(nanos("1.234568E5"), Some(123_456_800_000_000));
    assert_eq!(nanos("5e-1"), Some(500_000_000));
    assert_eq!(nanos("-2.5e-3"), Some(-2_500_000));
    assert_eq!(nanos("1e0"), Some(1_000_000_000));
    assert_eq!(nanos("1e-9"), Some(1));
    assert_eq!(nanos("100e-11"), Some(1));
    assert_eq!(nanos("0e99999999999999999999999999999999999999"), Some(0));
    assert_eq!(nanos("0.000e-99999999999999999999999999999999999999"), Some(0));
}

#[test]
fn what_lies_beyond_a_billionth_is_rounded() {
    assert_eq!(nanos("0.0000000004"), Some(0));
    assert_eq!(nanos("0.0000000005"), Some(1));
    assert_eq!(nanos("-0.0000000005"), Some(-1));
    assert_eq!(nanos("0.1234567894999"), Some(123_456_789));
    assert_eq!(nanos("0.1234567895"), Some(123_456_790));
    assert_eq!(nanos("4e-10"), Some(0));
    assert_eq!(nanos("5e-10"), Some(1));
    assert_eq!(nanos("9e-11"), Some(0));
    assert_eq!(nanos("1e-99999999999999999999999999999999999999"), Some(0));
    assert_eq!(nanos("99999999999999999999999999999999999999e-47"), Some(1));
}

#[test]
fn the_ends_of_the_range() {
    assert_eq!(nanos("9223372036.854775807"), Some(i64::MAX));
    assert_eq!(nanos("9223372036.854775808"), None);
    assert_eq!(nanos("-9223372036.854775808"), Some(i64::MIN));
    assert_eq!(nanos("-9223372036.854775809"), None);
    assert_eq!(nanos("9223372036.8547758074"), Some(i64::MAX));
    assert_eq!(nanos("9223372036.8547758075"), None);
    assert_eq!(nanos("1e10"), None);
    assert_eq!(nanos("1e19"), None);
    assert_eq!(nanos("1e99999999999999999999999999999999999999"), None);
    assert_eq!(nanos("123456789012345678901234567890"), None);
    assert_eq!(nanos("123456789012345678901234567890e-25"), Some(12_345_678_901_235));
    assert_eq!(nanos("9223372036854775807e-9"), Some(i64::MAX));
}

#[test]
fn what_is_no_literal() {
    for text in [
        "", "+", "-", ".", "-.", "e5", "1e", "1e+", "1e-", "1.2.3", "1,5", " 1", "1 ", "1x", "--1",
        "1e5.0", "1e5e5", "nan", "inf", "0x10", "1_000",
    ] {
        assert_eq!(nanos(text), None);
    }
}

#[test]
fn runs_of_digits() {
    let text = "12ab345".as_bytes();
    assert_eq!(scan_digits(text, 0), 2);
    assert_eq!(scan_digits(text, 2), 2);
    assert_eq!(scan_digits(text, 4), 7);
    assert_eq!(scan_digits(text, 7), 7);
    assert_eq!(read_capped(text, 4, 7), 345);
    assert_eq!(read_capped(text, 0, 0), 0);
    let long = "1000000000000000000000000000000999".as_bytes();
    assert_eq!(read_capped(long, 0, long.len()), 1_000_000_000_000_000_000_000_000_000_000);
    assert_eq!(read_capped(long, 0, 30), 100_000_000_000_000_000_000_000_000_000);
}

#[test]
fn parsed_values_are_fixed_quantities() {
    assert_eq!(parse_decimal(b"171"), Fixed::from_units(171));
}

fn written(nanos: i64) -> String {
    String::from_utf8(dragonfly::decimal::format_decimal(Fixed::from_nanos(nanos))).unwrap()
}

#[test]
fn quantities_are_written_with_nine_decimals() {
    assert_eq!(written(0), "0.000000000");
    assert_eq!(written(1), "0.000000001");
    assert_eq!(written(-1), "-0.000000001");
    assert_eq!(written(171_000_000_000), "171.000000000");
    assert_eq!(written(-2_500_000), "-0.002500000");
    assert_eq!(written(123_456_789_012), "123.456789012");
    assert_eq!(written(9_999_999_999), "9.999999999");
    assert_eq!(written(10_000_000_000), "10.000000000");
    assert_eq!(written(i64::MAX), "9223372036.854775807");
    assert_eq!(written(i64::MIN), "-9223372036.854775808");
}

#[test]
fn what_is_written_is_read_back() {
    for nanos in [
        0, 1, -1, 9, 10, 999_999_999, 1_000_000_000, -1_000_000_001, 171_000_000_000,
        123_456_789_012_345, i64::MAX, i64::MIN, i64::MAX - 1, i64::MIN + 1,
    ] {
        let text = dragonfly::decimal::format_decimal(Fixed::from_nanos(nanos));
        assert_eq!(parse_decimal(&text), Some(Fixed::from_nanos(nanos)));
    }
}
