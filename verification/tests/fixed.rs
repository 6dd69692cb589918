use dragonfly::fixed::{power_of_ten, round_quotient, round_to_digits, Fixed};

fn fixed(text: &str) -> Fixed {
    dragonfly::decimal::parse_decimal(text.as_bytes()).unwrap()
}

fn to_float(x: Fixed) -> f64 {
    x.nanos() as f64 / 1e9
}

#[test]
fn test_round_to_digits() {
    let a = fixed("123.456789");
    let b = fixed("12345.6789");
    let c = fixed("1.23456789");

    assert_eq!(round_to_digits(a, 2), Some(fixed("123.46")));
    assert_eq!(round_to_digits(a, 0), Some(fixed("123.")));
    assert_eq!(round_to_digits(a, 6), Some(fixed("123.456789")));
    assert_eq!(round_to_digits(b, 1), Some(fixed("12345.7")));
    assert_eq!(round_to_digits(b, 3), Some(fixed("12345.679")));
    assert_eq!(round_to_digits(b, 4), Some(fixed("12345.6789")));
    assert_eq!(round_to_digits(c, 1), Some(fixed("1.2")));
    assert_eq!(round_to_digits(c, 2), Some(fixed("1.23")));

    assert_eq!(to_float(round_to_digits(a, 2).unwrap()), 123.46);
    assert_eq!(to_float(round_to_digits(a, 0).unwrap()), 123.);
    assert_eq!(to_float(round_to_digits(b, 1).unwrap()), 12345.7);
    assert_eq!(to_float(round_to_digits(c, 2).unwrap()), 1.23);
}

#[test]
fn rounding_sends_halves_away_from_zero() {
    assert_eq!(round_to_digits(fixed("0.25"), 1), Some(fixed("0.3")));
    assert_eq!(round_to_digits(fixed("-0.25"), 1), Some(fixed("-0.3")));
    assert_eq!(round_to_digits(fixed("0.35"), 1), Some(fixed("0.4")));
    assert_eq!(round_to_digits(fixed("2.5"), 0), Some(fixed("3")));
    assert_eq!(round_to_digits(fixed("-2.5"), 0), Some(fixed("-3")));
    assert_eq!(round_to_digits(fixed("-2.4"), 0), Some(fixed("-2")));
    assert_eq!(round_to_digits(fixed("0"), 3), Some(fixed("0")));
}

#[test]
fn rounding_to_nine_digits_or_more_changes_nothing() {
    let x = Fixed::from_nanos(-987_654_321_987);
    assert_eq!(round_to_digits(x, 9), Some(x));
    assert_eq!(round_to_digits(x, 12), Some(x));
    assert_eq!(round_to_digits(Fixed::from_nanos(i64::MAX), 9), Some(Fixed::from_nanos(i64::MAX)));
}

#[test]
fn rounding_that_leaves_the_range_is_refused() {
    assert_eq!(round_to_digits(Fixed::from_nanos(i64::MAX), 0), None);
    assert_eq!(round_to_digits(Fixed::from_nanos(i64::MIN), 0), None);
    assert_eq!(
        round_to_digits(Fixed::from_nanos(9_223_372_036_400_000_000), 0),
        Some(Fixed::from_nanos(9_223_372_036_000_000_000))
    );
}

#[test]
fn quotients_round_to_the_nearest_integer() {
    assert_eq!(round_quotient(7, 2), 4);
    assert_eq!(round_quotient(-7, 2), -4);
    assert_eq!(round_quotient(6, 4), 2);
    assert_eq!(round_quotient(5, 4), 1);
    assert_eq!(round_quotient(-5, 4), -1);
    assert_eq!(round_quotient(0, 9), 0);
    assert_eq!(round_quotient(200, 2), 100);
    assert_eq!(round_quotient(i128::MAX, 1), i128::MAX);
    assert_eq!(round_quotient(i128::MAX, i128::MAX), 1);
}

#[test]
fn powers_of_ten() {
    assert_eq!(power_of_ten(0), 1);
    assert_eq!(power_of_ten(1), 10);
    assert_eq!(power_of_ten(9), 1_000_000_000);
    assert_eq!(power_of_ten(18), 1_000_000_000_000_000_000);
}

#[test]
fn whole_units_and_exact_sums() {
    assert_eq!(Fixed::from_units(171), Some(Fixed::from_nanos(171_000_000_000)));
    assert_eq!(Fixed::from_units(-3), Some(Fixed::from_nanos(-3_000_000_000)));
    assert_eq!(Fixed::from_units(9_223_372_037), None);
    let a = Fixed::from_nanos(1_500_000_000);
    let b = Fixed::from_nanos(-250_000_000);
    assert_eq!(a.checked_add(b), Some(Fixed::from_nanos(1_250_000_000)));
    assert_eq!(a.checked_sub(b), Some(Fixed::from_nanos(1_750_000_000)));
    assert_eq!(Fixed::from_nanos(i64::MAX).checked_add(Fixed::from_nanos(1)), None);
    assert_eq!(Fixed::from_nanos(i64::MIN).checked_sub(Fixed::from_nanos(1)), None);
    assert_eq!(a.nanos(), 1_500_000_000);
}
