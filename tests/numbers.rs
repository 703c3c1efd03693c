use terminal_menu::{float_printing_precision, number_range_indicator, parse_decimal, step_valid, value_valid, Decimal};

fn d(x: f64) -> Decimal {
    Decimal::from_units((x * 1_000_000.0).round() as i64)
}

fn parse(s: &str) -> Option<Decimal> {
    parse_decimal(&s.chars().collect())
}

#[test]
fn value_valid_rejects_out_of_range_and_misaligned() {
    assert!(value_valid(d(0.0), Some(d(0.5)), Some(d(-1.0)), Some(d(1.0))));
    assert!(!value_valid(d(-1.5), Some(d(0.5)), Some(d(-1.0)), Some(d(1.0))));
    assert!(!value_valid(d(1.5), Some(d(0.5)), Some(d(-1.0)), Some(d(1.0))));
    assert!(!value_valid(d(0.25), Some(d(0.5)), Some(d(-1.0)), Some(d(1.0))));
    assert!(value_valid(d(-0.7), Some(d(0.3)), Some(d(-1.0)), None));
    assert!(!value_valid(d(-0.6), Some(d(0.3)), Some(d(-1.0)), None));
    assert!(value_valid(d(4.0), Some(d(2.0)), None, Some(d(10.0))));
    assert!(!value_valid(d(5.0), Some(d(2.0)), None, Some(d(10.0))));
    assert!(value_valid(d(46.5), None, Some(d(32332.2)), None) == false);
    assert!(value_valid(d(12345.6), None, None, None));
}

#[test]
fn step_valid_needs_positive_dividing_step() {
    assert!(step_valid(None, None, None));
    assert!(step_valid(Some(d(0.5)), Some(d(-5.0)), Some(d(10.0))));
    assert!(!step_valid(Some(d(0.0)), None, None));
    assert!(!step_valid(Some(d(-1.0)), None, None));
    assert!(!step_valid(Some(d(4.0)), Some(d(0.0)), Some(d(10.0))));
    assert!(!step_valid(Some(d(10.0)), Some(d(0.0)), Some(d(10.0))));
    assert!(step_valid(Some(d(3.0)), None, Some(d(10.0))));
}

#[test]
fn precision_is_shortest_exact() {
    assert_eq!(float_printing_precision(d(2.5)), 1);
    assert_eq!(float_printing_precision(d(3.0)), 0);
    assert_eq!(float_printing_precision(d(-0.125)), 3);
    assert_eq!(float_printing_precision(Decimal::from_units(1)), 6);
}

#[test]
fn decimals_print_shortest_form() {
    assert_eq!(d(2.5).to_text(), "2.5");
    assert_eq!(d(-3.0).to_text(), "-3");
    assert_eq!(d(0.05).to_text(), "0.05");
    assert_eq!(d(-0.5).to_text(), "-0.5");
    assert_eq!(Decimal::from_int(0).to_text(), "0");
    assert_eq!(Decimal::from_int(1234).to_text(), "1234");
    assert_eq!(Decimal::from_units(i64::MIN).to_text(), "-9223372036854.775808");
}

#[test]
fn range_indicator_texts() {
    assert_eq!(number_range_indicator(Some(d(0.5)), Some(d(0.0)), Some(d(5.0))), "[0, 0.5, .., 5] ");
    assert_eq!(number_range_indicator(Some(d(0.5)), Some(d(0.0)), None), "[0, 0.5, ..] ");
    assert_eq!(number_range_indicator(Some(d(0.5)), None, Some(d(5.0))), "[.., 4.5, 5] ");
    assert_eq!(number_range_indicator(Some(d(0.5)), None, None), "[.., -0.5, 0, 0.5, ..] ");
    assert_eq!(number_range_indicator(None, Some(d(-5.0)), Some(d(5.0))), "[-5..5] ");
    assert_eq!(number_range_indicator(None, Some(d(-5.0)), None), "[> -5] ");
    assert_eq!(number_range_indicator(None, None, Some(d(2.25))), "[< 2.25] ");
    assert_eq!(number_range_indicator(None, None, None), ": ");
}

#[test]
fn parse_accepts_numbers() {
    assert_eq!(parse("12"), Some(d(12.0)));
    assert_eq!(parse("-0.5"), Some(d(-0.5)));
    assert_eq!(parse(".25"), Some(d(0.25)));
    assert_eq!(parse("3."), Some(d(3.0)));
    assert_eq!(parse("007"), Some(d(7.0)));
    assert_eq!(parse("0.000001"), Some(Decimal::from_units(1)));
}

#[test]
fn parse_refuses_other_text() {
    assert_eq!(parse(""), None);
    assert_eq!(parse("-"), None);
    assert_eq!(parse("."), None);
    assert_eq!(parse("-."), None);
    assert_eq!(parse("1.2.3"), None);
    assert_eq!(parse("1a"), None);
    assert_eq!(parse("0.0000001"), None);
    assert_eq!(parse("99999999999999"), None);
    assert_eq!(parse("--1"), None);
}

#[test]
fn decimal_constructors() {
    assert_eq!(Decimal::from_int(-2).units(), -2_000_000);
    assert_eq!(Decimal::from_units(5).units(), 5);
}
