use mps_orders::decimal::Decimal;
use mps_orders::decimal::parse_decimal;

#[test]
fn parse_plain_two_decimals() {
    let d = parse_decimal("100.00").unwrap();
    assert_eq!(d.mantissa, 10000);
    assert_eq!(d.scale, 2);
}

#[test]
fn parse_integer_amount() {
    let d = parse_decimal("42").unwrap();
    assert_eq!(d.mantissa, 42);
    assert_eq!(d.scale, 0);
}

#[test]
fn parse_keeps_written_scale() {
    let d = parse_decimal("0.10").unwrap();
    assert_eq!(d.mantissa, 10);
    assert_eq!(d.scale, 2);
    assert_eq!(d.format(), "0.10");
}

#[test]
fn parse_drops_leading_zeros_in_format() {
    let d = parse_decimal("00.10").unwrap();
    assert_eq!(d.format(), "0.10");
}

#[test]
fn parse_rejects_empty() {
    assert!(parse_decimal("").is_none());
}

#[test]
fn parse_rejects_non_numeric() {
    assert!(parse_decimal("abc").is_none());
    assert!(parse_decimal("12a").is_none());
    assert!(parse_decimal("-1").is_none());
    assert!(parse_decimal("+1").is_none());
    assert!(parse_decimal("1e5").is_none());
}

#[test]
fn parse_rejects_bare_dot_forms() {
    assert!(parse_decimal(".5").is_none());
    assert!(parse_decimal("5.").is_none());
    assert!(parse_decimal(".").is_none());
    assert!(parse_decimal("1.2.3").is_none());
}

#[test]
fn parse_rejects_out_of_range() {
    // twenty integer digits reach 10^19
    assert!(parse_decimal("12345678901234567890").is_none());
    // twenty fractional digits exceed the maximum scale
    assert!(parse_decimal("0.00000000000000000001").is_none());
    // nineteen fractional digits with a unit mantissa of 10^19
    assert!(parse_decimal("1.0000000000000000000").is_none());
    // largest representable mantissa still parses
    let d = parse_decimal("9999999999999999999").unwrap();
    assert_eq!(d.mantissa, 9999999999999999999);
}

#[test]
fn add_same_scale() {
    let a = parse_decimal("100.00").unwrap();
    let b = parse_decimal("10.00").unwrap();
    let t = a.add_exact(b).unwrap();
    assert_eq!(t.format(), "110.00");
}

#[test]
fn add_mixed_scales_is_exact() {
    let a = parse_decimal("1.5").unwrap();
    let b = parse_decimal("2.25").unwrap();
    let t = a.add_exact(b).unwrap();
    assert_eq!(t.format(), "3.75");
    assert_eq!(t.scale, 2);
}

#[test]
fn add_overflow_is_rejected() {
    let a = parse_decimal("9999999999999999999").unwrap();
    let b = parse_decimal("1").unwrap();
    assert!(a.add_exact(b).is_none());
}

#[test]
fn format_then_parse_round_trips() {
    for s in ["0", "7", "100.00", "0.10", "9999999999999999999", "0.0000000000000000001"] {
        let d = parse_decimal(s).unwrap();
        let again = parse_decimal(&d.format()).unwrap();
        assert_eq!(d, again);
    }
}

#[test]
fn decimal_equality_is_by_mantissa_and_scale() {
    let a = Decimal { mantissa: 10, scale: 1 };
    let b = Decimal { mantissa: 100, scale: 2 };
    // same numeric value, different written scale
    assert_ne!(a, b);
    assert_eq!(a.format(), "1.0");
    assert_eq!(b.format(), "1.00");
}
