use tzbucket::models::{Interval, WeekStart};
use tzbucket::options::ErrorKind;
use tzbucket::parse::{parse_timestamp, TimestampFormat};
use tzbucket::range::{generate_buckets_in_range, validate_range};
use tzbucket::tz::parse_tz;

#[test]
fn validate_range_orders_endpoints() {
    assert!(validate_range(0, 1, "a", "b").is_ok());
    let err = validate_range(5, 5, "x", "y").unwrap_err();
    assert_eq!(err.kind, ErrorKind::Input);
    assert_eq!(
        err.message,
        "Invalid range: start 'x' must be earlier than end 'y'"
    );
}

#[test]
fn range_berlin_march_days() {
    let tz = parse_tz("Europe/Berlin").unwrap();
    let start = parse_timestamp("2026-03-27T00:00:00Z", TimestampFormat::Rfc3339).unwrap();
    let end = parse_timestamp("2026-03-31T00:00:00Z", TimestampFormat::Rfc3339).unwrap();
    let buckets =
        generate_buckets_in_range(start, end, &tz, Interval::Day, WeekStart::Monday).unwrap();

    let keys: Vec<&str> = buckets.iter().map(|b| b.key.as_str()).collect();
    assert_eq!(
        keys,
        vec![
            "2026-03-27",
            "2026-03-28",
            "2026-03-29",
            "2026-03-30",
            "2026-03-31"
        ]
    );
    // The spring-forward day inside the range is 23 hours long.
    let dst_day = &buckets[2];
    assert_eq!(dst_day.start_utc, "2026-03-28T23:00:00Z");
    assert_eq!(dst_day.end_utc, "2026-03-29T22:00:00Z");
    // Sorted by start instant.
    for pair in buckets.windows(2) {
        let a = parse_timestamp(&pair[0].start_utc, TimestampFormat::Rfc3339).unwrap();
        let b = parse_timestamp(&pair[1].start_utc, TimestampFormat::Rfc3339).unwrap();
        assert!(a <= b);
    }
}

#[test]
fn range_weeks_deduplicates_keys() {
    let tz = parse_tz("UTC").unwrap();
    let start = parse_timestamp("2026-03-01T00:00:00Z", TimestampFormat::Rfc3339).unwrap();
    let end = parse_timestamp("2026-03-31T00:00:00Z", TimestampFormat::Rfc3339).unwrap();
    let buckets =
        generate_buckets_in_range(start, end, &tz, Interval::Week, WeekStart::Monday).unwrap();
    let keys: Vec<&str> = buckets.iter().map(|b| b.key.as_str()).collect();
    assert_eq!(
        keys,
        vec![
            "2026-02-23",
            "2026-03-02",
            "2026-03-09",
            "2026-03-16",
            "2026-03-23",
            "2026-03-30"
        ]
    );
}

#[test]
fn range_months() {
    let tz = parse_tz("UTC").unwrap();
    let start = parse_timestamp("2026-11-15T00:00:00Z", TimestampFormat::Rfc3339).unwrap();
    let end = parse_timestamp("2027-01-15T00:00:00Z", TimestampFormat::Rfc3339).unwrap();
    let buckets =
        generate_buckets_in_range(start, end, &tz, Interval::Month, WeekStart::Monday).unwrap();
    let keys: Vec<&str> = buckets.iter().map(|b| b.key.as_str()).collect();
    assert_eq!(keys, vec!["2026-11", "2026-12", "2027-01"]);
}
