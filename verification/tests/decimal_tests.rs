use btc_futures_sniper::decimal::{
    amount_of, floor_div, format_int, format_units, pad_left_text, pad_right_text, parse_units,
    units_or_zero_of, PPM, UNITS,
};

#[test]
fn parse_plain_and_fractional_numbers() {
    assert_eq!(parse_units("97123.40"), Some(9_712_340_000_000));
    assert_eq!(parse_units("0.001"), Some(100_000));
    assert_eq!(parse_units("-0.010"), Some(-1_000_000));
    assert_eq!(parse_units("+3"), Some(300_000_000));
    assert_eq!(parse_units("1."), Some(100_000_000));
    assert_eq!(parse_units(".5"), Some(50_000_000));
}

#[test]
fn parse_drops_digits_past_the_eighth() {
    assert_eq!(parse_units("0.123456789"), Some(12_345_678));
}

#[test]
fn parse_rejects_what_is_no_decimal() {
    assert_eq!(parse_units(""), None);
    assert_eq!(parse_units("."), None);
    assert_eq!(parse_units("-"), None);
    assert_eq!(parse_units("abc"), None);
    assert_eq!(parse_units("1x5"), None);
    assert_eq!(parse_units(" 1"), None);
    assert_eq!(parse_units("1.2.3"), None);
}

#[test]
fn parse_rejects_numbers_beyond_i64_units() {
    assert_eq!(parse_units("92233720368.54775807"), Some(i64::MAX));
    assert_eq!(parse_units("92233720368.54775808"), None);
    assert_eq!(parse_units("100000000000"), None);
}

#[test]
fn read_or_zero() {
    assert_eq!(units_or_zero_of("-2.5"), -250_000_000);
    assert_eq!(units_or_zero_of("x"), 0);
    assert_eq!(amount_of("-2.5"), 0);
    assert_eq!(amount_of("2.5"), 250_000_000);
}

#[test]
fn format_rounds_to_nearest_ties_to_even() {
    assert_eq!(format_units(123_456_789, 2, false), "1.23");
    assert_eq!(format_units(150_000_000, 0, false), "2");
    assert_eq!(format_units(-150_000_000, 0, false), "-2");
    assert_eq!(format_units(250_000_000, 0, false), "2");
    assert_eq!(format_units(-250_000_000, 0, false), "-2");
    assert_eq!(format_units(125_000_000, 1, false), "1.2");
    assert_eq!(format_units(135_000_000, 1, false), "1.4");
    assert_eq!(format_units(125_000_001, 1, false), "1.3");
    // a stop price of exactly 98.125 is written as 98.12, as `{:.2}` does
    assert_eq!(format_units(9_812_500_000, 2, false), "98.12");
    assert_eq!(format_units(9_813_500_000, 2, false), "98.14");
    assert_eq!(format!("{:.2}", 98.125_f64), "98.12");
    assert_eq!(format!("{:.1}", 1.25_f64), "1.2");
    assert_eq!(format_units(5, 8, true), "+0.00000005");
    assert_eq!(format_units(0, 2, true), "+0.00");
    assert_eq!(format_units(-100_000, 2, false), "-0.00");
    assert_eq!(format_units(1_000_000, 6, false), "0.010000");
}

#[test]
fn format_integers_and_padding() {
    assert_eq!(format_int(-42), "-42");
    assert_eq!(format_int(0), "0");
    assert_eq!(format_int(i128::MIN), "-170141183460469231731687303715884105728");
    assert_eq!(pad_left_text("ab", 5, "*"), "***ab");
    assert_eq!(pad_left_text("abcdef", 3, " "), "abcdef");
    assert_eq!(pad_right_text("BUY", 6), "BUY   ");
}

#[test]
fn floor_division_rounds_down() {
    assert_eq!(floor_div(7, 2), 3);
    assert_eq!(floor_div(-7, 2), -4);
    assert_eq!(floor_div(-8, 2), -4);
}

#[test]
fn scales() {
    assert_eq!(UNITS, 100_000_000);
    assert_eq!(PPM, 1_000_000);
}

#[test]
fn eight_places_read_back() {
    for v in [0_i64, 1, -1, 99_999_999, 100_000_000, -123_456_789_012, i64::MAX, i64::MIN + 1] {
        let text = format_units(v as i128, 8, false);
        assert_eq!(parse_units(&text), Some(v), "{}", text);
    }
    assert_eq!(format_units(i64::MIN as i128, 8, false), "-92233720368.54775808");
    assert_eq!(parse_units("-92233720368.54775808"), None);
}

#[test]
fn exponent_forms() {
    assert_eq!(parse_units("1e3"), Some(100_000_000_000));
    assert_eq!(parse_units("1E3"), Some(100_000_000_000));
    assert_eq!(parse_units("1e-3"), Some(100_000));
    assert_eq!(parse_units("1.5E+2"), Some(15_000_000_000));
    assert_eq!(parse_units("123.456e-2"), Some(123_456_000));
    assert_eq!(parse_units("-2.5e1"), Some(-2_500_000_000));
    assert_eq!(parse_units("1e-8"), Some(1));
    assert_eq!(parse_units("1e-9"), Some(0));
    assert_eq!(parse_units("-1.9e-8"), Some(-1));
    assert_eq!(parse_units(".5e1"), Some(500_000_000));
    assert_eq!(parse_units("5.e0"), Some(500_000_000));
    assert_eq!(parse_units("0e999999999999999999999999"), Some(0));
    assert_eq!(parse_units("7e-999999999999999999999999"), Some(0));
    assert_eq!(parse_units("9.2233720368547758070e10"), Some(i64::MAX));
}

#[test]
fn malformed_exponents() {
    assert_eq!(parse_units("1e"), None);
    assert_eq!(parse_units("1e+"), None);
    assert_eq!(parse_units("e5"), None);
    assert_eq!(parse_units("-e5"), None);
    assert_eq!(parse_units("1e5.0"), None);
    assert_eq!(parse_units("1e5e5"), None);
    assert_eq!(parse_units(".e1"), None);
    assert_eq!(parse_units("1e11"), None);
    assert_eq!(parse_units("1e999999999999999999999999"), None);
    assert_eq!(units_or_zero_of("1x3"), 0);
}
