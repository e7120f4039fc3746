use calculaterm::fixed::Fixed;
use calculaterm::operations::Operator;
use calculaterm::text::{parse_text, text_of};

const SCALE: i128 = 10_000_000_000;

#[test]
fn formats_whole_numbers_bare() {
    assert_eq!(text_of(Fixed::from_units(0)), "0");
    assert_eq!(text_of(Fixed::from_units(4 * SCALE)), "4");
    assert_eq!(text_of(Fixed::from_units(120 * SCALE)), "120");
}

#[test]
fn formats_fractions_trimmed() {
    assert_eq!(text_of(Fixed::from_units(25 * SCALE / 10)), "2.5");
    assert_eq!(text_of(Fixed::from_units(-45 * SCALE / 10)), "-4.5");
    assert_eq!(text_of(Fixed::from_units(1)), "0.0000000001");
}

#[test]
fn parses_plain_digits() {
    assert_eq!(parse_text("123").map(|f| f.units()), Some(123 * SCALE));
    assert_eq!(parse_text("0007").map(|f| f.units()), Some(7 * SCALE));
}

#[test]
fn parses_fractions() {
    assert_eq!(parse_text("2.50").map(|f| f.units()), Some(25 * SCALE / 10));
    assert_eq!(parse_text(".5").map(|f| f.units()), Some(SCALE / 2));
    assert_eq!(parse_text("4.").map(|f| f.units()), Some(4 * SCALE));
}

#[test]
fn parses_signed_text() {
    assert_eq!(parse_text("-4.5").map(|f| f.units()), Some(-45 * SCALE / 10));
    assert_eq!(parse_text("-0").map(|f| f.units()), Some(0));
}

#[test]
fn rejects_malformed_text() {
    assert!(parse_text("").is_none());
    assert!(parse_text("-").is_none());
    assert!(parse_text(".").is_none());
    assert!(parse_text("-.").is_none());
    assert!(parse_text("1.2.3").is_none());
    assert!(parse_text("12a").is_none());
    assert!(parse_text("--5").is_none());
}

#[test]
fn rejects_out_of_range_text() {
    assert_eq!(parse_text("1000000000").map(|f| f.units()), Some(1_000_000_000 * SCALE));
    assert!(parse_text("1000000001").is_none());
    assert!(parse_text("1000000000.5").is_none());
}

#[test]
fn rounds_the_eleventh_decimal() {
    assert_eq!(parse_text("0.00000000005").map(|f| f.units()), Some(1));
    assert_eq!(parse_text("0.00000000004").map(|f| f.units()), Some(0));
    assert_eq!(parse_text("0.99999999996").map(|f| f.units()), Some(SCALE));
}

#[test]
fn round_trips_display_text() {
    for units in [0, 1, -1, 25 * SCALE / 10, -3 * SCALE, 123_456_789, SCALE] {
        let text = text_of(Fixed::from_units(units));
        assert_eq!(parse_text(&text).map(|f| f.units()), Some(units));
    }
}

#[test]
fn operator_arithmetic_is_exact() {
    let a = Fixed::from_units(15 * SCALE / 10);
    let b = Fixed::from_units(225 * SCALE / 100);
    let sum = Operator::Add.calculate(a, b).unwrap();
    assert_eq!(sum.units(), 375 * SCALE / 100);
    let diff = Operator::Subtract.calculate(a, b).unwrap();
    assert_eq!(diff.units(), -75 * SCALE / 100);
    let prod = Operator::Multiply.calculate(a, b).unwrap();
    assert_eq!(prod.units(), 3_375 * SCALE / 1000);
    let quot = Operator::Divide.calculate(b, a).unwrap();
    assert_eq!(quot.units(), 15 * SCALE / 10);
}

#[test]
fn operator_overflow_is_reported() {
    let big = Fixed::from_units(1_000_000_000 * SCALE);
    assert!(Operator::Multiply.calculate(big, big).is_none());
    assert!(Operator::Add.calculate(big, big).is_none());
}

#[test]
fn division_rounds_half_away_from_zero() {
    let one = Fixed::from_units(SCALE);
    let three = Fixed::from_units(3 * SCALE);
    let third = Operator::Divide.calculate(one, three).unwrap();
    assert_eq!(third.units(), 3_333_333_333);
    let two = Fixed::from_units(2 * SCALE);
    let two_thirds = Operator::Divide.calculate(two, three).unwrap();
    assert_eq!(two_thirds.units(), 6_666_666_667);
}
