//! The fixed-point codec: parsing, arithmetic, and every error kind.

use std::str::FromStr;

use orderbook::fp::{Fp, FpErrorKind};

#[test]
fn test_fp_arithmetic() {
    let a = Fp::<3>::from_str("1.234").unwrap();
    let b = Fp::<3>::from_str("2.345").unwrap();

    // Test addition
    assert_eq!(a + b, Fp::<3>::from_str("3.579").unwrap());

    // Test subtraction
    assert_eq!(b - a, Fp::<3>::from_str("1.111").unwrap());

    // Test multiplication
    assert_eq!(a * b, Fp::<3>::from_str("2.893").unwrap());

    // Test division
    assert_eq!(b / a, Fp::<3>::from_str("1.900").unwrap());
}

#[test]
fn test_fp_parsing() {
    // Test valid parsing
    assert_eq!(Fp::<3>::from_str("1.234").unwrap().0, 1234);
    assert_eq!(Fp::<3>::from_str("0.001").unwrap().0, 1);
    assert_eq!(Fp::<3>::from_str("-1.234").unwrap().0, -1234);

    // Test invalid format
    assert!(matches!(
        Fp::<3>::from_str("1234").unwrap_err().kind,
        FpErrorKind::InvalidFormat
    ));

    // Test invalid integer
    assert!(matches!(
        Fp::<3>::from_str("abc.123").unwrap_err().kind,
        FpErrorKind::InvalidInteger
    ));

    // Test invalid fraction
    assert!(matches!(
        Fp::<3>::from_str("1.abc").unwrap_err().kind,
        FpErrorKind::InvalidFraction
    ));
}

#[test]
fn test_fp_edge_cases() {
    // Test zero
    assert_eq!(Fp::<3>::from_str("0.000").unwrap().0, 0);

    // Test large numbers
    assert_eq!(Fp::<3>::from_str("999.999").unwrap().0, 999999);
    assert_eq!(Fp::<3>::from_str("-999.999").unwrap().0, -999999);

    // Test small numbers
    assert_eq!(Fp::<3>::from_str("0.001").unwrap().0, 1);
    assert_eq!(Fp::<3>::from_str("-0.001").unwrap().0, -1);
}

#[test]
fn test_fp_arithmetic_edge_cases() {
    let zero = Fp::<3>::from_str("0.000").unwrap();
    let one = Fp::<3>::from_str("1.000").unwrap();
    let two = Fp::<3>::from_str("2.000").unwrap();

    // Test operations with zero
    assert_eq!(zero + one, one);
    assert_eq!(one + zero, one);
    assert_eq!(zero * one, zero);
    assert_eq!(one * zero, zero);

    // Test division by one
    assert_eq!(one / one, one);
    assert_eq!(two / one, two);

    // Test negative numbers
    let neg_one = Fp::<3>::from_str("-1.000").unwrap();
    assert_eq!(one + neg_one, zero);
    assert_eq!(one * neg_one, neg_one);
}

#[test]
fn test_fp_error_kinds() {
    // A fraction cut short by the end of the input.
    assert!(matches!(
        Fp::<3>::from_str("1.2").unwrap_err().kind,
        FpErrorKind::InvalidFraction
    ));
    // Bytes left over after the expected fractional digits.
    assert!(matches!(
        Fp::<3>::from_str("1.2345").unwrap_err().kind,
        FpErrorKind::TooManyDecimals
    ));
    // An integer part that does not fit the mantissa.
    assert!(matches!(
        Fp::<3>::from_str("99999999999999999999999999999999999999999999.000")
            .unwrap_err()
            .kind,
        FpErrorKind::Overflow
    ));
    // A value whose scaled mantissa does not fit.
    assert!(matches!(
        Fp::<30>::from_str("999999999999.999999999999999999999999999999")
            .unwrap_err()
            .kind,
        FpErrorKind::Overflow
    ));
    // A scale that does not fit at all.
    assert!(matches!(
        Fp::<40>::from_str("1.0").unwrap_err().kind,
        FpErrorKind::Overflow
    ));
    // The empty input and a lone sign lack the separator.
    assert!(matches!(
        Fp::<3>::from_str("").unwrap_err().kind,
        FpErrorKind::InvalidFormat
    ));
    assert!(matches!(
        Fp::<3>::from_str("-").unwrap_err().kind,
        FpErrorKind::InvalidFormat
    ));
}

#[test]
fn test_fp_empty_integer_part() {
    // An empty integer part is worth zero.
    assert_eq!(Fp::<3>::from_str(".500").unwrap().0, 500);
    assert_eq!(Fp::<3>::from_str("-.500").unwrap().0, -500);
}

#[test]
fn test_fp_descriptions() {
    assert_eq!(
        Fp::<3>::from_str("1.abc").unwrap_err().description(),
        "invalid digit found in string"
    );
    assert_eq!(
        Fp::<3>::from_str("1234").unwrap_err().description(),
        "invalid format"
    );
    assert_eq!(
        Fp::<3>::from_str("abc.123").unwrap_err().description(),
        "cannot parse integer from empty string"
    );
    assert_eq!(
        Fp::<3>::from_str("1.2345").unwrap_err().description(),
        "too many decimals"
    );
    assert_eq!(
        Fp::<40>::from_str("1.0").unwrap_err().description(),
        "number too large to fit in target type"
    );
}
