use ski::output::{format_relative_time, format_timestamp, pick_timestamp_text};

const NOW: i64 = 1_700_000_000;
const MINUTE: i64 = 60;
const HOUR: i64 = 3600;
const DAY: i64 = 86400;

#[test]
fn format_relative_time_seconds() {
    assert_eq!(format_relative_time(NOW, NOW), "just now");
    assert_eq!(format_relative_time(NOW - 30, NOW), "just now");
    assert_eq!(format_relative_time(NOW - 59, NOW), "just now");
}

#[test]
fn format_relative_time_minutes() {
    assert_eq!(format_relative_time(NOW - MINUTE, NOW), "1 minute ago");
    assert_eq!(format_relative_time(NOW - 2 * MINUTE, NOW), "2 minutes ago");
    assert_eq!(format_relative_time(NOW - 30 * MINUTE, NOW), "30 minutes ago");
    assert_eq!(format_relative_time(NOW - 59 * MINUTE, NOW), "59 minutes ago");
}

#[test]
fn format_relative_time_hours() {
    assert_eq!(format_relative_time(NOW - HOUR, NOW), "1 hour ago");
    assert_eq!(format_relative_time(NOW - 2 * HOUR, NOW), "2 hours ago");
    assert_eq!(format_relative_time(NOW - 12 * HOUR, NOW), "12 hours ago");
    assert_eq!(format_relative_time(NOW - 23 * HOUR, NOW), "23 hours ago");
}

#[test]
fn format_relative_time_days() {
    assert_eq!(format_relative_time(NOW - DAY, NOW), "1 day ago");
    assert_eq!(format_relative_time(NOW - 2 * DAY, NOW), "2 days ago");
    assert_eq!(format_relative_time(NOW - 7 * DAY, NOW), "7 days ago");
    assert_eq!(format_relative_time(NOW - 29 * DAY, NOW), "29 days ago");
}

#[test]
fn format_relative_time_months() {
    assert_eq!(format_relative_time(NOW - 30 * DAY, NOW), "1 month ago");
    assert_eq!(format_relative_time(NOW - 60 * DAY, NOW), "2 months ago");
    assert_eq!(format_relative_time(NOW - 300 * DAY, NOW), "10 months ago");
}

#[test]
fn format_relative_time_years() {
    assert_eq!(format_relative_time(NOW - 365 * DAY, NOW), "1 year ago");
    assert_eq!(format_relative_time(NOW - 730 * DAY, NOW), "2 years ago");
}

#[test]
fn format_relative_time_future() {
    assert_eq!(format_relative_time(NOW + HOUR, NOW), "in the future");
}

#[test]
fn format_relative_time_extremes() {
    assert_eq!(format_relative_time(i64::MIN, i64::MAX), "584942417355 years ago");
    assert_eq!(format_relative_time(i64::MAX, i64::MIN), "in the future");
}

#[test]
fn format_timestamp_recent_uses_relative() {
    assert_eq!(format_timestamp(NOW - HOUR, NOW), "1 hour ago");
    assert_eq!(format_timestamp(NOW - 7 * DAY, NOW), "7 days ago");
}

#[test]
fn format_timestamp_old_uses_absolute() {
    let old = NOW - 60 * DAY;
    let result = format_timestamp(old, NOW);
    // Should be in YYYY-MM-DD HH:MM format
    assert!(result.contains("-"), "Expected date format, got: {}", result);
    assert!(result.contains(":"), "Expected time format, got: {}", result);
}

#[test]
fn format_timestamp_exact_date() {
    // 1_700_000_000 is 2023-11-14 22:13:20 UTC.
    assert_eq!(format_timestamp(NOW, NOW + 31 * DAY), "2023-11-14 22:13");
    assert_eq!(format_timestamp(0, 40 * DAY), "1970-01-01 00:00");
}

#[test]
fn timestamp_text_from_calendar() {
    let cal = Some("2020-01-02 03:04".to_string());
    assert_eq!(pick_timestamp_text(NOW - 31 * DAY, NOW, cal.clone()), "2020-01-02 03:04");
    assert_eq!(pick_timestamp_text(NOW - 30 * DAY, NOW, cal), "1 month ago");
    assert_eq!(pick_timestamp_text(NOW - 31 * DAY, NOW, None), "1 month ago");
}
