use chrono::TimeZone;
use tzbucket::render::render_naive_epoch;
use tzbucket::tz::{format_rfc3339, format_rfc3339_utc, local_to_utc, parse_tz, utc_to_local};
use tzbucket::TzBucketError;

#[test]
fn parse_valid_timezone() {
    let tz = parse_tz("Europe/Berlin").unwrap();
    assert_eq!(tz.name(), "Europe/Berlin");
}

#[test]
fn parse_invalid_timezone() {
    let result = parse_tz("Invalid/Timezone");
    assert!(result.is_err());
    if let Err(TzBucketError::InvalidTimezone(name)) = result {
        assert_eq!(name, "Invalid/Timezone");
    } else {
        panic!("Expected InvalidTimezone error");
    }
}

#[test]
fn utc_to_local_conversion() {
    let utc = chrono::Utc
        .with_ymd_and_hms(2026, 3, 29, 0, 15, 0)
        .single()
        .unwrap()
        .timestamp();
    let tz = parse_tz("Europe/Berlin").unwrap();
    let local = utc_to_local(utc, &tz);

    // Before the clock jump (at 02:00 local, clocks move to 03:00)
    // 00:15 UTC = 01:15 local (UTC+1)
    assert_eq!(render_naive_epoch(local), "2026-03-29T01:15:00");
}

#[test]
fn local_to_utc_conversion_normal() {
    let tz = parse_tz("Europe/Berlin").unwrap();
    let local = chrono::NaiveDate::from_ymd_opt(2026, 3, 28)
        .unwrap()
        .and_hms_opt(12, 0, 0)
        .unwrap()
        .and_utc()
        .timestamp();
    let utc = local_to_utc(local, &tz);

    // 12:00 local (UTC+1) = 11:00 UTC
    let expected = chrono::Utc
        .with_ymd_and_hms(2026, 3, 28, 11, 0, 0)
        .single()
        .unwrap()
        .timestamp();
    assert_eq!(utc, expected);
}

#[test]
fn format_rfc3339_with_offset() {
    // Berlin local midnight 2026-03-29 is 23:00Z the day before, +01:00.
    let utc = chrono::Utc
        .with_ymd_and_hms(2026, 3, 28, 23, 0, 0)
        .single()
        .unwrap()
        .timestamp();
    let formatted = format_rfc3339(utc, 3600);

    assert_eq!(formatted, "2026-03-29T00:00:00+01:00");
}

#[test]
fn format_rfc3339_utc_zone() {
    let utc = chrono::Utc
        .with_ymd_and_hms(2026, 3, 28, 23, 0, 0)
        .single()
        .unwrap()
        .timestamp();
    let formatted = format_rfc3339_utc(utc);

    assert_eq!(formatted, "2026-03-28T23:00:00Z");
}

#[test]
fn local_to_utc_ambiguous_takes_earliest() {
    // Berlin 2026-10-25 02:30 occurs twice; the default takes the first.
    let tz = parse_tz("Europe/Berlin").unwrap();
    let local = chrono::NaiveDate::from_ymd_opt(2026, 10, 25)
        .unwrap()
        .and_hms_opt(2, 30, 0)
        .unwrap()
        .and_utc()
        .timestamp();
    let utc = local_to_utc(local, &tz);
    let expected = chrono::Utc
        .with_ymd_and_hms(2026, 10, 25, 0, 30, 0)
        .single()
        .unwrap()
        .timestamp();
    assert_eq!(utc, expected);
}

#[test]
fn negative_offset_formatting() {
    let tz = parse_tz("America/New_York").unwrap();
    let utc = chrono::Utc
        .with_ymd_and_hms(2026, 1, 15, 5, 0, 0)
        .single()
        .unwrap()
        .timestamp();
    let local = utc_to_local(utc, &tz);
    let formatted = format_rfc3339(utc, local - utc);
    assert_eq!(formatted, "2026-01-15T00:00:00-05:00");
}
