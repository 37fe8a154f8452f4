use fsreport::render::{dur_to_str, get_age, get_age_delta, to_decimal};

const HOUR_NS: u128 = 3_600_000_000_000;
const DAY_NS: u128 = 24 * HOUR_NS;
const YEAR_NS: u128 = 365 * DAY_NS + 5 * HOUR_NS;

#[test]
fn decimal_rendering_is_exact() {
    assert_eq!(to_decimal(0), "0");
    assert_eq!(to_decimal(7), "7");
    assert_eq!(to_decimal(10), "10");
    assert_eq!(to_decimal(123456789), "123456789");
    assert_eq!(to_decimal(u128::MAX), "340282366920938463463374607431768211455");
}

#[test]
fn durations_below_a_day_are_hours() {
    assert_eq!(dur_to_str(0), "0h");
    assert_eq!(dur_to_str(1_800_000_000_000), "0h");
    assert_eq!(dur_to_str(4 * HOUR_NS), "4h");
    assert_eq!(dur_to_str(DAY_NS - 1), "23h");
}

#[test]
fn durations_below_a_year_are_days_and_hours() {
    assert_eq!(dur_to_str(DAY_NS), "1d0h");
    assert_eq!(dur_to_str(48 * HOUR_NS), "2d0h");
    assert_eq!(dur_to_str(5 * DAY_NS + 3 * HOUR_NS), "5d3h");
}

#[test]
fn long_durations_are_years_and_days() {
    assert_eq!(dur_to_str(YEAR_NS), "1Y0d");
    // 400 days: one year of 365 days 5 hours, then 34 full days remain
    assert_eq!(dur_to_str(400 * DAY_NS), "1Y34d");
}

#[test]
fn age_is_relative_to_now() {
    // one day between timestamp and now
    assert_eq!(get_age(86_400_000, 0), "1d0h");
    assert_eq!(get_age(3_600_000, 0), "1h");
    assert_eq!(get_age(1000, 1000), "0h");
}

#[test]
fn age_delta_spans_the_timestamp_range() {
    assert_eq!(get_age_delta(0, 3_600_000), "1h");
    assert_eq!(get_age_delta(500, 500), "0h");
    assert_eq!(get_age_delta(0, 86_400_000 * 400), "1Y34d");
}
