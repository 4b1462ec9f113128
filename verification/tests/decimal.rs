use orderbook_feed::decimal::Decimal;

fn d(s: &str) -> Decimal {
    Decimal::from_str(s).unwrap()
}

#[test]
fn digits_are_read_exactly() {
    assert_eq!(d("61966.14000000").to_text(), "61966.14000000");
    assert_eq!(d("0").to_text(), "0");
    assert_eq!(d("000.50").to_text(), "0.50");
    assert_eq!(d(".5").to_text(), "0.5");
    assert_eq!(d("5.").to_text(), "5");
    assert_eq!(
        d("9999999999999999999999999999").to_text(),
        "9999999999999999999999999999"
    );
    assert_eq!(
        d("99999999999999.99999999999999").to_text(),
        "99999999999999.99999999999999"
    );
    assert_eq!(
        d("0000000000000000000000000.001").to_text(),
        "0.001"
    );
    assert_eq!(d("-1.5").to_text(), "-1.5");
    assert_eq!(
        d("0.0000000000000000000000000001").to_text(),
        "0.0000000000000000000000000001"
    );
    assert_eq!(
        d("79228162514264337593543950335").to_text(),
        "79228162514264337593543950335"
    );
}

#[test]
fn negative_exponents_are_read_exactly() {
    assert_eq!(d("1e-8").to_text(), "0.00000001");
    assert_eq!(d("1.234e-5").to_text(), "0.00001234");
    assert_eq!(d("1.50e-0").to_text(), "1.50");
    assert_eq!(d("12.5e-1").to_text(), "1.25");
    assert_eq!(d(".5e-2").to_text(), "0.005");
    assert_eq!(
        d("1e-28").to_text(),
        "0.0000000000000000000000000001"
    );
    assert_eq!(
        d("12345678.9e-27").to_text(),
        "0.0000000000000000000123456789"
    );
    assert_eq!(
        d("9999999999999999999999999999e-28").to_text(),
        "0.9999999999999999999999999999"
    );
    assert!(Decimal::from_str("1e-29").is_err());
}

#[test]
fn text_that_is_no_number_is_refused() {
    for text in ["", "abc", "1.2.3", "0x10", "--1"] {
        assert!(!Decimal::from_str(text).unwrap_err().is_empty());
    }
}

#[test]
fn order_is_by_value() {
    assert!(d("9.5") < d("10"));
    assert!(d("-1") < d("-0.5"));
    assert!(d("1.0") == d("1.00"));
    assert!(!d("1.0").less_than(&d("1.00")));
    assert!(d("0.1") > d("0.0999999999999999999999999999"));
}

#[test]
fn zero_is_zero_at_every_scale() {
    assert!(d("0").is_zero());
    assert!(d("0.00000000").is_zero());
    assert!(!d("0.00000001").is_zero());
}

#[test]
fn difference_is_exact() {
    assert_eq!(
        d("61966.15").minus(&d("61966.14")).unwrap().to_text(),
        "0.01"
    );
    assert_eq!(d("1").minus(&d("1.50")).unwrap(), d("-0.5"));
    assert!(d("79228162514264337593543950335")
        .minus(&d("-1"))
        .is_none());
}

#[test]
fn fixed_text_truncates_and_fills() {
    assert_eq!(d("1.999").to_fixed_text(2), "1.99");
    assert_eq!(d("1.5").to_fixed_text(3), "1.500");
    assert_eq!(d("1.5").to_fixed_text(0), "1");
    assert_eq!(d("-0.05").to_fixed_text(1), "-0.0");
    assert_eq!(
        d("7").to_fixed_text(30),
        "7.000000000000000000000000000000"
    );
}

#[test]
fn fixed_text_has_limited_room() {
    assert!(d("45285.2").fits_fixed_text(26));
    assert_eq!(
        d("45285.2").to_fixed_text(26),
        "45285.20000000000000000000000000"
    );
    assert!(!d("45285.2").fits_fixed_text(27));
    assert!(d("1.5").fits_fixed_text(28));
    assert!(d("1.5").fits_fixed_text(65535));
    assert!(!d("1.5").fits_fixed_text(65536));
    assert!(d("79228162514264337593543950335").fits_fixed_text(0));
    assert!(d("79228162514264337593543950335").fits_fixed_text(2));
    assert_eq!(
        d("79228162514264337593543950335").to_fixed_text(2),
        "79228162514264337593543950335.00"
    );
    assert!(!d("79228162514264337593543950335").fits_fixed_text(3));
}
