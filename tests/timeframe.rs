use battery_monitor::{build_timeframe, since_timestamp, timeframe_seconds, TimeframeError};
use std::time::{SystemTime, UNIX_EPOCH};

#[test]
fn default_timeframe_is_last_six_hours() {
    let timeframe = build_timeframe(6, 0, 0, false).unwrap();
    assert_eq!(timeframe.hours, 6);
    assert_eq!(timeframe.seconds, Some(6 * 3600));
    assert_eq!(timeframe.label, "last_6_hours");
}

#[test]
fn days_and_months_take_precedence_over_hours() {
    let timeframe_days = build_timeframe(2, 1, 0, false).unwrap();
    let timeframe_months = build_timeframe(2, 2, 1, false).unwrap();

    assert_eq!(timeframe_days.days, 1);
    assert_eq!(timeframe_days.seconds, Some(24 * 3600));
    assert_eq!(timeframe_days.label, "last_1_day");

    assert_eq!(timeframe_months.months, 1);
    assert_eq!(timeframe_months.seconds, Some(30 * 24 * 3600));
    assert_eq!(timeframe_months.label, "last_1_month");
}

#[test]
fn since_timestamp_uses_reference() {
    let now_ms = 1_700_000_000_i64 * 1000;
    let timeframe = build_timeframe(1, 0, 0, false).unwrap();
    let since = since_timestamp(&timeframe, now_ms).unwrap();
    assert_eq!(since, (1_700_000_000 - 3600) * 1000);
}

#[test]
fn since_timestamp_allows_unbounded() {
    let now_ms = SystemTime::now().duration_since(UNIX_EPOCH).unwrap().as_millis() as i64;
    let timeframe = build_timeframe(6, 0, 0, true).unwrap();
    assert!(since_timestamp(&timeframe, now_ms).is_none());
    assert_eq!(timeframe.label, "all");
}

#[test]
fn invalid_inputs_raise() {
    assert!(matches!(build_timeframe(0, 0, 0, false), Err(TimeframeError::InvalidHours)));
    assert!(matches!(build_timeframe(1, -1, 0, false), Err(TimeframeError::NegativeValue(_))));
}

#[test]
fn plural_labels_and_lengths() {
    assert_eq!(build_timeframe(3, 0, 0, false).unwrap().label, "last_3_hours");
    assert_eq!(build_timeframe(1, 0, 0, false).unwrap().label, "last_1_hour");
    assert_eq!(build_timeframe(0, 12, 0, false).unwrap().label, "last_12_days");
    let months = build_timeframe(0, 0, 3, false).unwrap();
    assert_eq!(months.label, "last_3_months");
    assert_eq!(timeframe_seconds(&months), Some(3 * 30 * 86_400));
    assert_eq!(months.since_timestamp(10_000_000_000), Some(10_000_000_000 - 3 * 30 * 86_400 * 1000));
}

#[test]
fn the_first_negative_count_is_named() {
    assert_eq!(build_timeframe(-1, -1, 0, false).unwrap_err(), TimeframeError::NegativeValue("hours"));
    assert_eq!(build_timeframe(1, 0, -2, true).unwrap_err(), TimeframeError::NegativeValue("months"));
    assert_eq!(
        TimeframeError::NegativeValue("days").message(),
        "days must be zero or greater"
    );
    assert_eq!(
        TimeframeError::InvalidHours.message(),
        "hours must be at least 1 when days and months are zero"
    );
}
