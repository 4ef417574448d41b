use chrono::TimeZone;
use tzbucket::compute::{compute_bucket, compute_bucket_from_string};
use tzbucket::models::{Interval, WeekStart};
use tzbucket::parse::{parse_timestamp, TimestampFormat};
use tzbucket::tz::parse_tz;

fn berlin() -> tzbucket::tz::Zone {
    parse_tz("Europe/Berlin").unwrap()
}

fn utc_ms(y: i32, mo: u32, d: u32, h: u32, mi: u32, s: u32) -> i64 {
    chrono::Utc
        .with_ymd_and_hms(y, mo, d, h, mi, s)
        .single()
        .unwrap()
        .timestamp_millis()
}

#[test]
fn day_bucket_normal_day() {
    // 2026-03-28 12:00 UTC = 2026-03-28 13:00 Berlin (before the change)
    let instant = utc_ms(2026, 3, 28, 12, 0, 0);
    let tz = berlin();
    let bucket = compute_bucket(instant, &tz, Interval::Day, None);

    assert_eq!(bucket.key, "2026-03-28");
    assert_eq!(bucket.start_local, "2026-03-28T00:00:00+01:00");
    assert_eq!(bucket.end_local, "2026-03-29T00:00:00+01:00");
    assert_eq!(bucket.start_utc, "2026-03-27T23:00:00Z");
    assert_eq!(bucket.end_utc, "2026-03-28T23:00:00Z");
}

#[test]
fn day_bucket_dst_spring_forward() {
    // Clocks jump in Berlin: 2026-03-29 02:00 -> 03:00
    // 2026-03-29 00:15 UTC = 2026-03-29 01:15 Berlin (before the jump)
    let instant = utc_ms(2026, 3, 29, 0, 15, 0);
    let tz = berlin();
    let bucket = compute_bucket(instant, &tz, Interval::Day, None);

    assert_eq!(bucket.key, "2026-03-29");
    assert_eq!(bucket.start_local, "2026-03-29T00:00:00+01:00");
    assert_eq!(bucket.end_local, "2026-03-30T00:00:00+02:00");
    assert_eq!(bucket.start_utc, "2026-03-28T23:00:00Z");
    // 23-hour day
    assert_eq!(bucket.end_utc, "2026-03-29T22:00:00Z");
}

#[test]
fn day_bucket_dst_fall_back() {
    // Clocks fall back in Berlin: 2026-10-25 03:00 -> 02:00
    // 2026-10-25 01:00 UTC = 2026-10-25 03:00 Berlin (after the change)
    let instant = utc_ms(2026, 10, 25, 1, 0, 0);
    let tz = berlin();
    let bucket = compute_bucket(instant, &tz, Interval::Day, None);

    assert_eq!(bucket.key, "2026-10-25");
    assert_eq!(bucket.start_local, "2026-10-25T00:00:00+02:00");
    assert_eq!(bucket.end_local, "2026-10-26T00:00:00+01:00");
    assert_eq!(bucket.start_utc, "2026-10-24T22:00:00Z");
    // 25-hour day
    assert_eq!(bucket.end_utc, "2026-10-25T23:00:00Z");
}

#[test]
fn week_bucket_monday_start() {
    // 2026-03-29 is a Sunday
    let instant = utc_ms(2026, 3, 29, 12, 0, 0);
    let tz = berlin();
    let bucket = compute_bucket(instant, &tz, Interval::Week, Some(WeekStart::Monday));

    assert_eq!(bucket.key, "2026-03-23");
    assert!(bucket.start_local.starts_with("2026-03-23"));
    assert!(bucket.end_local.starts_with("2026-03-30"));
}

#[test]
fn week_bucket_sunday_start() {
    // 2026-03-29 is a Sunday, so it starts a new week
    let instant = utc_ms(2026, 3, 29, 12, 0, 0);
    let tz = berlin();
    let bucket = compute_bucket(instant, &tz, Interval::Week, Some(WeekStart::Sunday));

    assert_eq!(bucket.key, "2026-03-29");
    assert!(bucket.start_local.starts_with("2026-03-29"));
    assert!(bucket.end_local.starts_with("2026-04-05"));
}

#[test]
fn month_bucket() {
    let instant = utc_ms(2026, 3, 15, 12, 0, 0);
    let tz = berlin();
    let bucket = compute_bucket(instant, &tz, Interval::Month, None);

    assert_eq!(bucket.key, "2026-03");
    assert!(bucket.start_local.starts_with("2026-03-01"));
    assert!(bucket.end_local.starts_with("2026-04-01"));
}

#[test]
fn month_bucket_december() {
    let instant = utc_ms(2026, 12, 15, 12, 0, 0);
    let tz = berlin();
    let bucket = compute_bucket(instant, &tz, Interval::Month, None);

    assert_eq!(bucket.key, "2026-12");
    assert!(bucket.start_local.starts_with("2026-12-01"));
    assert!(bucket.end_local.starts_with("2027-01-01"));
}

#[test]
fn compute_bucket_from_string_epoch_ms() {
    let instant = utc_ms(2026, 3, 29, 0, 15, 0);
    let result = compute_bucket_from_string(
        &instant.to_string(),
        TimestampFormat::EpochMs,
        "Europe/Berlin",
        Interval::Day,
        None,
    )
    .unwrap();

    assert_eq!(result.bucket.key, "2026-03-29");
    assert_eq!(result.tz, "Europe/Berlin");
}

#[test]
fn compute_bucket_from_string_rfc3339() {
    let result = compute_bucket_from_string(
        "2026-03-29T00:15:00Z",
        TimestampFormat::Rfc3339,
        "Europe/Berlin",
        Interval::Day,
        None,
    )
    .unwrap();

    assert_eq!(result.bucket.key, "2026-03-29");
    assert_eq!(result.input.ts, "2026-03-29T00:15:00Z");
}

#[test]
fn full_workflow_day_bucket() {
    let instant = utc_ms(2026, 3, 29, 0, 15, 0);
    let tz = berlin();
    let bucket = compute_bucket(instant, &tz, Interval::Day, None);

    assert_eq!(bucket.key, "2026-03-29");
    assert_eq!(bucket.start_utc, "2026-03-28T23:00:00Z");
    assert_eq!(bucket.end_utc, "2026-03-29T22:00:00Z");
}

#[test]
fn full_workflow_with_string_input() {
    let result = compute_bucket_from_string(
        "2026-03-29T00:15:00Z",
        TimestampFormat::Rfc3339,
        "Europe/Berlin",
        Interval::Day,
        None,
    )
    .unwrap();

    assert_eq!(result.bucket.key, "2026-03-29");
    assert_eq!(result.input.ts, "2026-03-29T00:15:00Z");
    assert_eq!(result.tz, "Europe/Berlin");
}

#[test]
fn prelude_exports() {
    let _tz = tzbucket::prelude::parse_tz("UTC").unwrap();
    let _format = tzbucket::prelude::TimestampFormat::EpochMs;
    let _interval = tzbucket::prelude::Interval::Day;
}

#[test]
fn compute_bucket_is_pure() {
    // Identical inputs give byte-identical output.
    let instant = utc_ms(2026, 10, 25, 1, 0, 0);
    let tz = berlin();
    let a = compute_bucket(instant, &tz, Interval::Day, None);
    let b = compute_bucket(instant, &tz, Interval::Day, None);
    assert_eq!(a.key, b.key);
    assert_eq!(a.start_local, b.start_local);
    assert_eq!(a.end_local, b.end_local);
    assert_eq!(a.start_utc, b.start_utc);
    assert_eq!(a.end_utc, b.end_utc);
}

#[test]
fn bucket_brackets_its_instant() {
    let instant = utc_ms(2026, 10, 25, 1, 0, 0);
    let tz = berlin();
    let bucket = compute_bucket(instant, &tz, Interval::Day, None);
    let start = parse_timestamp(&bucket.start_utc, TimestampFormat::Rfc3339).unwrap();
    let end = parse_timestamp(&bucket.end_utc, TimestampFormat::Rfc3339).unwrap();
    assert!(start <= instant);
    assert!(instant < end);
}

#[test]
fn day_bucket_no_transition_is_24_hours() {
    let instant = utc_ms(2026, 6, 15, 12, 0, 0);
    let tz = berlin();
    let bucket = compute_bucket(instant, &tz, Interval::Day, None);
    let start = parse_timestamp(&bucket.start_utc, TimestampFormat::Rfc3339).unwrap();
    let end = parse_timestamp(&bucket.end_utc, TimestampFormat::Rfc3339).unwrap();
    assert_eq!(end - start, 24 * 3600 * 1000);
}

#[test]
fn month_key_uses_the_instant_month() {
    let result = compute_bucket_from_string(
        "2026-12-31T23:59:59Z",
        TimestampFormat::Rfc3339,
        "UTC",
        Interval::Month,
        None,
    )
    .unwrap();
    assert_eq!(result.bucket.key, "2026-12");
    assert_eq!(result.bucket.start_utc, "2026-12-01T00:00:00Z");
    assert_eq!(result.bucket.end_utc, "2027-01-01T00:00:00Z");
}

#[test]
fn invalid_zone_is_reported() {
    let result = compute_bucket_from_string(
        "2026-03-29T00:15:00Z",
        TimestampFormat::Rfc3339,
        "Invalid/Timezone",
        Interval::Day,
        None,
    );
    match result {
        Err(tzbucket::TzBucketError::InvalidTimezone(name)) => {
            assert_eq!(name, "Invalid/Timezone");
        }
        _ => panic!("Expected InvalidTimezone error"),
    }
}
