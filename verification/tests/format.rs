use zscore_calc::format::{decimal, trim_fixed};

fn pretty(value: f64, digits: usize) -> String {
    trim_fixed(&format!("{:.*}", digits, value))
}

#[test]
fn trailing_zeros_go() {
    assert_eq!(trim_fixed("1.50"), "1.5");
    assert_eq!(trim_fixed("12.3400"), "12.34");
    assert_eq!(trim_fixed("0.1250"), "0.125");
}

#[test]
fn bare_point_goes() {
    assert_eq!(trim_fixed("2.00"), "2");
    assert_eq!(trim_fixed("2."), "2");
    assert_eq!(trim_fixed("16.6667"), "16.6667");
}

#[test]
fn zero_becomes_one_digit() {
    assert_eq!(trim_fixed("0.00"), "0");
    assert_eq!(trim_fixed("-0.00"), "-0");
}

#[test]
fn whole_number_loses_its_zeros() {
    assert_eq!(trim_fixed("100"), "1");
    assert_eq!(trim_fixed("0"), "");
    assert_eq!(trim_fixed("10.0"), "10");
    assert_eq!(trim_fixed("100.00"), "100");
}

#[test]
fn nothing_to_strip() {
    assert_eq!(trim_fixed(""), "");
    assert_eq!(trim_fixed("1.5"), "1.5");
    assert_eq!(trim_fixed("NaN"), "NaN");
    assert_eq!(trim_fixed("inf"), "inf");
    assert_eq!(trim_fixed("0.5x"), "0.5x");
}

#[test]
fn only_the_end_is_stripped() {
    assert_eq!(trim_fixed("0.05"), "0.05");
    assert_eq!(trim_fixed("100.001"), "100.001");
    assert_eq!(trim_fixed("0.0.0"), "0.0");
    assert_eq!(trim_fixed("1..00"), "1");
    assert_eq!(trim_fixed("...."), "");
    assert_eq!(trim_fixed(".0.0."), ".0.0");
    assert_eq!(trim_fixed("é.0"), "é");
}

#[test]
fn pretty_one_and_a_half() {
    assert_eq!(pretty(1.5, 2), "1.5");
}

#[test]
fn pretty_two() {
    assert_eq!(pretty(2.0, 2), "2");
}

#[test]
fn pretty_keeps_fixed_point_at_every_magnitude() {
    assert_eq!(pretty(0.0, 2), "0");
    assert_eq!(pretty(123456.789, 2), "123456.79");
    assert_eq!(pretty(0.0001, 2), "0");
    assert_eq!(pretty(0.0001, 4), "0.0001");
    assert_eq!(pretty(-2.5, 4), "-2.5");
    assert_eq!(pretty(100.0 / 6.0, 2), "16.67");
    assert_eq!(pretty(20000.0, 0), "2");
    assert_eq!(pretty(f64::NAN, 2), "NaN");
}

#[test]
fn decimal_of_small_counts() {
    assert_eq!(decimal(0), "0");
    assert_eq!(decimal(7), "7");
    assert_eq!(decimal(9), "9");
    assert_eq!(decimal(10), "10");
    assert_eq!(decimal(11), "11");
    assert_eq!(decimal(99), "99");
    assert_eq!(decimal(100), "100");
    assert_eq!(decimal(1234567890), "1234567890");
}

#[test]
fn decimal_agrees_with_the_standard_form() {
    for n in [0usize, 1, 5, 10, 19, 20, 101, 999, 1000, 1001, 65535, 65536, 4294967295, usize::MAX] {
        assert_eq!(decimal(n), n.to_string());
    }
}
