use binance_futures_writer::price::{has_reading, parse_decimal_to_scaled, PRICE_SCALE};

fn parse(s: &str) -> Result<i64, String> {
    assert!(has_reading(s, PRICE_SCALE), "{:?}", s);
    parse_decimal_to_scaled(s, PRICE_SCALE)
}

#[test]
fn whole_numbers_are_scaled() {
    assert_eq!(parse("0"), Ok(0));
    assert_eq!(parse("1"), Ok(100_000_000));
    assert_eq!(parse("+7"), Ok(700_000_000));
    assert_eq!(parse("-3"), Ok(-300_000_000));
    assert_eq!(parse_decimal_to_scaled("12", 10), Ok(120));
}

#[test]
fn fractions_are_exact() {
    assert_eq!(parse("45000.10"), Ok(4_500_010_000_000));
    assert_eq!(parse("0.00000001"), Ok(1));
    assert_eq!(parse("0.1"), Ok(10_000_000));
    assert_eq!(parse("1."), Ok(100_000_000));
    assert_eq!(parse("-2.5"), Ok(-250_000_000));
    assert_eq!(parse("92233720368.54775807"), Ok(i64::MAX));
}

#[test]
fn ninth_place_rounds() {
    assert_eq!(parse("0.000000014"), Ok(1));
    assert_eq!(parse("0.000000015"), Ok(2));
    assert_eq!(parse("0.999999999"), Ok(100_000_000));
    assert_eq!(parse("-1.000000005"), Ok(-100_000_001));
    assert_eq!(parse("1.1234567849999"), Ok(112_345_678));
}

#[test]
fn sign_counts_where_the_whole_part_is_zero() {
    assert_eq!(parse("-0.5"), Ok(-50_000_000));
    assert_eq!(parse("-0.000000015"), Ok(-2));
    assert_eq!(parse("-0.0"), Ok(0));
    assert_eq!(parse("-0"), Ok(0));
    assert_eq!(parse("+0.5"), Ok(50_000_000));
}

#[test]
fn two_points_are_malformed() {
    assert_eq!(parse("1.2.3"), Err("Invalid decimal format: 1.2.3".to_string()));
}

#[test]
fn bad_whole_part_is_named() {
    for s in ["", "x", ".5", "1e5", "99999999999999999999", "-"] {
        let whole = s.split('.').next().unwrap();
        let expected = whole.parse::<i64>().unwrap_err();
        assert_eq!(parse(s), Err(format!("Failed to parse integer part: {}", expected)));
    }
}

#[test]
fn bad_fraction_is_named() {
    let expected = "x0000000".parse::<i64>().unwrap_err();
    assert_eq!(parse("1.x"), Err(format!("Failed to parse fractional part: {}", expected)));
    let long = "1234567x".parse::<i64>().unwrap_err();
    assert_eq!(parse("1.1234567x9"), Err(format!("Failed to parse fractional part: {}", long)));
}

#[test]
fn texts_without_a_reading_are_told_apart() {
    assert!(!has_reading("1.12345678x", PRICE_SCALE));
    assert!(!has_reading("92233720369", PRICE_SCALE));
    assert!(!has_reading("92233720368.54775808", PRICE_SCALE));
    assert!(has_reading("92233720368.54775807", PRICE_SCALE));
}
