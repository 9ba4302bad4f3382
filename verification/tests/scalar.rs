use meshproj::fixed::{Fixed, SCALE};
use meshproj::numeral::parse_scalar;

fn units(t: &[u8]) -> i64 {
    parse_scalar(t).units
}

#[test]
fn plain_integers() {
    assert_eq!(units(b"0"), 0);
    assert_eq!(units(b"7"), 7 * SCALE);
    assert_eq!(units(b"10"), 10 * SCALE);
    assert_eq!(units(b"-3"), -3 * SCALE);
    assert_eq!(units(b"+3"), 3 * SCALE);
}

#[test]
fn decimals() {
    assert_eq!(units(b"1.5"), 1_500_000);
    assert_eq!(units(b"-2.25"), -2_250_000);
    assert_eq!(units(b"0.000001"), 1);
    assert_eq!(units(b".5"), 500_000);
    assert_eq!(units(b"1."), SCALE);
    assert_eq!(units(b"-0"), 0);
}

#[test]
fn extra_fraction_digits_truncate_toward_zero() {
    assert_eq!(units(b"1.2345678"), 1_234_567);
    assert_eq!(units(b"-1.9999999"), -1_999_999);
}

#[test]
fn malformed_tokens_read_as_zero() {
    assert_eq!(units(b""), 0);
    assert_eq!(units(b"abc"), 0);
    assert_eq!(units(b"1e5"), 0);
    assert_eq!(units(b"1..2"), 0);
    assert_eq!(units(b"--1"), 0);
    assert_eq!(units(b"+"), 0);
    assert_eq!(units(b"."), 0);
    assert_eq!(units(b"1.5x"), 0);
}

#[test]
fn out_of_range_magnitudes_read_as_zero() {
    assert_eq!(units(b"9223372036854775808"), 0);
    assert_eq!(units(b"99999999999999999999999999"), 0);
    // The largest whole count of millionths that fits is i64::MAX.
    assert_eq!(units(b"9223372036854.775807"), i64::MAX);
    assert_eq!(units(b"9223372036854.775808"), 0);
    assert_eq!(units(b"-9223372036854.775807"), -i64::MAX);
}

#[test]
fn saturating_addition() {
    let max = Fixed { units: i64::MAX };
    let one = Fixed { units: 1 };
    assert_eq!(max.sat_add(one).units, i64::MAX);
    assert_eq!(Fixed { units: i64::MIN }.sat_add(Fixed { units: -1 }).units, i64::MIN);
    assert_eq!(Fixed { units: 2 }.sat_add(Fixed { units: 3 }).units, 5);
}

#[test]
fn saturating_multiplication() {
    let two = Fixed { units: 2 * SCALE };
    let three = Fixed { units: 3 * SCALE };
    assert_eq!(two.sat_mul(three).units, 6 * SCALE);
    assert_eq!(Fixed { units: -3 * SCALE / 2 }.sat_mul(two).units, -3 * SCALE);
    assert_eq!(Fixed { units: i64::MAX }.sat_mul(two).units, i64::MAX);
    assert_eq!(Fixed { units: i64::MIN }.sat_mul(two).units, i64::MIN);
    // Rescaling truncates toward zero, in both signs.
    assert_eq!(Fixed { units: 1 }.sat_mul(Fixed { units: 1 }).units, 0);
    assert_eq!(Fixed { units: -1 }.sat_mul(Fixed { units: 1 }).units, 0);
}

#[test]
fn saturating_division() {
    let one = Fixed { units: SCALE };
    let two = Fixed { units: 2 * SCALE };
    assert_eq!(one.sat_div(two).units, SCALE / 2);
    assert_eq!(two.sat_div(Fixed { units: -SCALE }).units, -2 * SCALE);
    assert_eq!(Fixed { units: i64::MAX }.sat_div(Fixed { units: 1 }).units, i64::MAX);
    // Truncation toward zero: -1/2 is 0, not -1.
    assert_eq!(Fixed { units: -1 }.sat_div(two).units, 0);
}
