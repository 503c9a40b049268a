use avt_replenishment::number::{count_number, plain_number, Number};

fn value(n: Option<Number>) -> Option<f64> {
    n.map(|n| match n {
        Number::Finite(s) => s.parse().unwrap(),
        Number::NotFinite => f64::NAN,
    })
}

fn numeral(n: Option<Number>) -> Option<String> {
    n.map(|n| match n {
        Number::Finite(s) => s,
        Number::NotFinite => "none".to_string(),
    })
}

#[test]
fn number_rules() {
    assert_eq!(value(plain_number("1,185")), Some(1185.0));
    assert_eq!(value(plain_number(" 123 ")), Some(123.0));
    for s in [
        "23.71%",
        "£299.37",
        "￥1,000",
        "1.234,56",
        "1,23",
        "365+",
        "2026-08-24",
        "1234567890123456",
    ] {
        assert_eq!(value(plain_number(s)), None, "{s}");
    }
}

#[test]
fn count_thousands_are_unambiguous() {
    for s in ["1,185", "1.185", "1 185", "1\u{00a0}185", "1\u{202f}185"] {
        assert_eq!(value(count_number(s)), Some(1185.0), "{s}");
    }
    for s in ["1.185,000", "23.71%", "£1,185", "12.5"] {
        assert_eq!(value(count_number(s)), None, "{s}");
    }
}

#[test]
fn numerals_are_those_of_the_nearest_double() {
    for s in [
        "0", "-0", "+7", "007", "1.50", "0.10", "123456789.012345", "1,234,567.8", "-12", "999999999999999",
        "0.000001", "000,123",
    ] {
        let expected: f64 = s.replace(',', "").parse().unwrap();
        assert_eq!(numeral(plain_number(s)), Some(format!("{expected}")), "{s}");
    }
}

#[test]
fn fifteen_digits_are_the_most() {
    assert_eq!(numeral(plain_number("123456789012345")), Some("123456789012345".to_string()));
    assert_eq!(numeral(plain_number("0.123456789012345")), None);
    assert_eq!(numeral(plain_number("1234567890123456")), None);
}

#[test]
fn counts_have_no_fraction() {
    assert_eq!(numeral(count_number("12.0")), Some("12".to_string()));
    assert_eq!(numeral(count_number("12.50")), None);
    assert_eq!(numeral(count_number("-1.234.567")), Some("-1234567".to_string()));
    assert_eq!(numeral(count_number("1.234,567")), None);
    assert_eq!(numeral(count_number("")), None);
}

#[test]
fn the_conversions_agree_without_points_and_spaces() {
    for s in [" 1,234 ", "-12,345,678", "+7", "007", "1,23", "12,3456", "", "-", "+-1", "abc", "1e3", "(5)"] {
        assert_eq!(numeral(count_number(s)), numeral(plain_number(s)));
    }
    assert_eq!(numeral(count_number("1.234")), Some("1234".to_string()));
    assert_eq!(numeral(plain_number("1.234")), Some("1.234".to_string()));
}
