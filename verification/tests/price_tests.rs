use hl_rust_core::price::{format_fixed4, format_units, round_div, Price};

#[test]
fn parse_plain_integer() {
    let p = Price::parse("100").unwrap();
    assert_eq!(p.units(), 100_000_000_000_000_000_000);
    assert_eq!(p.to_decimal_string(), "100");
}

#[test]
fn parse_fractional() {
    let p = Price::parse("100.5").unwrap();
    assert_eq!(p.units(), 100_500_000_000_000_000_000);
    assert_eq!(p.to_decimal_string(), "100.5");
}

#[test]
fn parse_signs() {
    assert_eq!(Price::parse("-1.25").unwrap().to_decimal_string(), "-1.25");
    assert_eq!(Price::parse("+1.25").unwrap().to_decimal_string(), "1.25");
}

#[test]
fn parse_leading_zeros_and_bare_fraction() {
    assert_eq!(Price::parse("007").unwrap().to_decimal_string(), "7");
    assert_eq!(Price::parse(".5").unwrap().to_decimal_string(), "0.5");
    assert_eq!(Price::parse("5.").unwrap().to_decimal_string(), "5");
}

#[test]
fn parse_rejects_garbage() {
    assert!(Price::parse("").is_none());
    assert!(Price::parse("-").is_none());
    assert!(Price::parse(".").is_none());
    assert!(Price::parse("12a").is_none());
    assert!(Price::parse("1.2.3").is_none());
    assert!(Price::parse("1e5").is_none());
}

#[test]
fn parse_rejects_out_of_range() {
    // Integer part must stay below 10^12; fraction below nineteen digits.
    assert!(Price::parse("1000000000000").is_none());
    assert!(Price::parse("999999999999").is_some());
    assert!(Price::parse("0.1234567890123456789").is_none());
    assert!(Price::parse("0.123456789012345678").is_some());
}

#[test]
fn format_strips_trailing_zeros() {
    assert_eq!(Price::parse("1.500").unwrap().to_decimal_string(), "1.5");
    assert_eq!(Price::parse("0.250").unwrap().to_decimal_string(), "0.25");
    assert_eq!(Price::parse("10.0").unwrap().to_decimal_string(), "10");
    assert_eq!(Price::parse("0").unwrap().to_decimal_string(), "0");
}

#[test]
fn format_units_small_values() {
    assert_eq!(format_units(200_000_000_000_000_000), "0.2");
    assert_eq!(format_units(-200_000_000_000_000_000), "-0.2");
    assert_eq!(format_units(0), "0");
    assert_eq!(format_units(1), "0.000000000000000001");
}

#[test]
fn fixed4_formatting() {
    assert_eq!(format_fixed4(1988), "0.1988");
    assert_eq!(format_fixed4(0), "0.0000");
    assert_eq!(format_fixed4(10000), "1.0000");
    assert_eq!(format_fixed4(-3), "-0.0003");
    assert_eq!(format_fixed4(123456), "12.3456");
}

#[test]
fn rounded_division() {
    assert_eq!(round_div(10, 4), 3); // 2.5 rounds away from zero
    assert_eq!(round_div(-10, 4), -3);
    assert_eq!(round_div(9, 4), 2); // 2.25 rounds down
    assert_eq!(round_div(11, 4), 3); // 2.75 rounds up
    assert_eq!(round_div(7, 7), 1);
}
