use chrono::{Datelike, TimeZone, Timelike, Utc};
use tzbucket::parse::{parse_timestamp, parse_timestamp_auto, TimestampFormat};

#[test]
fn parse_epoch_milliseconds() {
    let ms = parse_timestamp("1793362500000", TimestampFormat::EpochMs).unwrap();
    let expected = Utc.timestamp_millis_opt(1793362500000).single().unwrap();
    assert_eq!(ms, expected.timestamp_millis());
}

#[test]
fn parse_epoch_seconds() {
    let ms = parse_timestamp("1793362500", TimestampFormat::EpochS).unwrap();
    let expected = Utc.timestamp_opt(1793362500, 0).single().unwrap();
    assert_eq!(ms, expected.timestamp_millis());
}

#[test]
fn parse_rfc3339_zulu() {
    let ms = parse_timestamp("2026-03-29T00:15:00Z", TimestampFormat::Rfc3339).unwrap();
    let dt = chrono::DateTime::from_timestamp_millis(ms).unwrap();
    assert_eq!(dt.year(), 2026);
    assert_eq!(dt.month(), 3);
    assert_eq!(dt.day(), 29);
    assert_eq!(dt.hour(), 0);
    assert_eq!(dt.minute(), 15);
}

#[test]
fn parse_rfc3339_with_offset() {
    // 2026-03-29T00:15:00+01:00 = 2026-03-28T23:15:00Z
    let ms = parse_timestamp("2026-03-29T00:15:00+01:00", TimestampFormat::Rfc3339).unwrap();
    let dt = chrono::DateTime::from_timestamp_millis(ms).unwrap();
    assert_eq!(dt.year(), 2026);
    assert_eq!(dt.month(), 3);
    assert_eq!(dt.day(), 28);
    assert_eq!(dt.hour(), 23);
    assert_eq!(dt.minute(), 15);
}

#[test]
fn parse_invalid_epoch_ms() {
    let result = parse_timestamp("not-a-number", TimestampFormat::EpochMs);
    assert!(result.is_err());
}

#[test]
fn parse_invalid_rfc3339() {
    let result = parse_timestamp("not-a-date", TimestampFormat::Rfc3339);
    assert!(result.is_err());
}

#[test]
fn auto_detect_rfc3339() {
    let ms = parse_timestamp_auto("2026-03-29T00:15:00Z").unwrap();
    let dt = chrono::DateTime::from_timestamp_millis(ms).unwrap();
    assert_eq!(dt.year(), 2026);
}

#[test]
fn auto_detect_epoch_ms() {
    let ms = parse_timestamp_auto("1793362500000").unwrap();
    let expected = Utc.timestamp_millis_opt(1793362500000).single().unwrap();
    assert_eq!(ms, expected.timestamp_millis());
}

#[test]
fn auto_detect_epoch_s() {
    let ms = parse_timestamp_auto("1793362500").unwrap();
    let expected = Utc.timestamp_opt(1793362500, 0).single().unwrap();
    assert_eq!(ms, expected.timestamp_millis());
}

#[test]
fn parse_trims_whitespace() {
    let ms = parse_timestamp("  1793362500000\n", TimestampFormat::EpochMs).unwrap();
    assert_eq!(ms, 1793362500000);
}

#[test]
fn parse_rfc3339_fractional_seconds() {
    let ms = parse_timestamp("2026-03-29T00:15:00.5Z", TimestampFormat::Rfc3339).unwrap();
    assert_eq!(ms, 1774743300500);
}

#[test]
fn parse_epoch_out_of_range() {
    let result = parse_timestamp("9223372036854775807", TimestampFormat::EpochMs);
    assert!(result.is_err());
    let result = parse_timestamp("999999999999999", TimestampFormat::EpochS);
    assert!(result.is_err());
}

#[test]
fn rfc3339_round_trip_is_idempotent() {
    // Parsing and reformatting in UTC reaches a fixed point at once.
    let inputs = [
        "2026-03-29T00:15:00Z",
        "2026-10-25T01:00:00+02:00",
        "1999-12-31T23:59:59-05:00",
        "2026-06-15t14:30:00z",
    ];
    for input in inputs {
        let ms = parse_timestamp(input, TimestampFormat::Rfc3339).unwrap();
        let text = tzbucket::tz::format_rfc3339_utc(ms / 1000);
        let ms2 = parse_timestamp(&text, TimestampFormat::Rfc3339).unwrap();
        assert_eq!(ms2, ms / 1000 * 1000);
        let text2 = tzbucket::tz::format_rfc3339_utc(ms2 / 1000);
        assert_eq!(text2, text);
    }
}

#[test]
fn render_i64_matches_decimal() {
    assert_eq!(tzbucket::text::render_i64(0), "0");
    assert_eq!(tzbucket::text::render_i64(-120), "-120");
    assert_eq!(tzbucket::text::render_i64(98765), "98765");
    assert_eq!(tzbucket::text::render_i64(i64::MIN), "-9223372036854775808");
}
