use battery_monitor::{bucket_span_seconds, bucket_start, bucket_start_at, build_timeframe};
use chrono::{Local, TimeZone, Timelike};

#[test]
fn bucket_alignment_matches_expected_windows() {
    let timeframe = build_timeframe(6, 0, 0, false).unwrap();
    let span = bucket_span_seconds(&timeframe);
    let sample_dt = Local::now()
        .with_minute(37)
        .unwrap()
        .with_second(42)
        .unwrap()
        .with_nanosecond(0)
        .unwrap();
    let bucket_ms = bucket_start(sample_dt.timestamp_millis(), span).unwrap();
    let bucket = Local.timestamp_millis_opt(bucket_ms).unwrap();

    assert_eq!(span, 20 * 60);
    assert_eq!(bucket.minute() % 20, 0);
    assert_eq!(bucket.second(), 0);

    let one_day = build_timeframe(0, 1, 0, false).unwrap();
    let span_day = bucket_span_seconds(&one_day);
    let bucket_day_ms = bucket_start(sample_dt.timestamp_millis(), span_day).unwrap();
    let bucket_day = Local.timestamp_millis_opt(bucket_day_ms).unwrap();
    assert_eq!(span_day, 3600);
    assert_eq!(bucket_day.hour(), sample_dt.hour());
    assert_eq!(bucket_day.minute(), 0);
    assert_eq!(bucket_day.second(), 0);
}

#[test]
fn widths_follow_the_window() {
    let cases: [(i64, i64, i64, bool, i64); 9] = [
        (6, 0, 0, false, 1_200),
        (7, 0, 0, false, 3_600),
        (0, 1, 0, false, 3_600),
        (0, 3, 0, false, 7_200),
        (0, 7, 0, false, 21_600),
        (0, 30, 0, false, 86_400),
        (0, 0, 3, false, 259_200),
        (0, 0, 4, false, 604_800),
        (1, 0, 0, true, 604_800),
    ];
    for (h, d, m, all, width) in cases {
        let tf = build_timeframe(h, d, m, all).unwrap();
        assert_eq!(bucket_span_seconds(&tf), width);
    }
}

#[test]
fn buckets_align_in_the_given_zone() {
    // 01:37:42 UTC on day one, hour-wide buckets.
    let ts = (3_600 + 37 * 60 + 42) * 1000;
    assert_eq!(bucket_start_at(ts, 3_600, 0), 3_600_000);
    // Half an hour east of UTC the local hour starts at 01:30 UTC.
    assert_eq!(bucket_start_at(ts, 3_600, 1_800), 5_400_000);
    // Two hours east: local 03:37, so the local 03:00 bucket starts at 01:00 UTC.
    assert_eq!(bucket_start_at(ts, 3_600, 7_200), 3_600_000);
    // Before the epoch the start is raised to zero.
    assert_eq!(bucket_start_at(-5_000, 3_600, 0), 0);
    assert_eq!(bucket_start_at(1_000, 3_600, 1_800), 0);
}

#[test]
fn bucket_start_lies_within_one_width() {
    let width = 1_200;
    for ts in [0_i64, 59_999, 1_200_000, 1_700_000_123_456] {
        for offset in [-43_200, -3_600, 0, 1_800, 19_800, 50_400] {
            let start = bucket_start_at(ts, width, offset);
            assert!(start <= ts);
            assert!(ts - start < width * 1000);
            if ts >= width * 1000 {
                assert_eq!((start + offset as i64 * 1000).rem_euclid(width * 1000), 0);
            }
        }
    }
}
