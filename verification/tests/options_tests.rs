use tzbucket::models::{AmbiguousPolicy, Interval, NonexistentPolicy, WeekStart};
use tzbucket::options::{
    output_format_hint, parse_ambiguous_policy, parse_format, parse_interval,
    parse_nonexistent_policy, parse_output_format, parse_rfc3339_to_utc, parse_tz_or_input_error,
    parse_week_start, CliError, ErrorKind, OutputFormat,
};
use tzbucket::parse::TimestampFormat;

#[test]
fn parses_intervals() {
    assert_eq!(parse_interval("day").unwrap(), Interval::Day);
    assert_eq!(parse_interval("WEEK").unwrap(), Interval::Week);
    assert_eq!(parse_interval("Month").unwrap(), Interval::Month);
    let err = parse_interval("year").unwrap_err();
    assert_eq!(err.kind, ErrorKind::Input);
    assert_eq!(
        err.message,
        "Invalid interval 'year'. Expected: day, week, month"
    );
}

#[test]
fn parses_week_starts() {
    assert_eq!(parse_week_start("monday").unwrap(), WeekStart::Monday);
    assert_eq!(parse_week_start("Sunday").unwrap(), WeekStart::Sunday);
    assert!(parse_week_start("tuesday").is_err());
}

#[test]
fn parses_formats() {
    assert_eq!(parse_format("epoch_ms").unwrap(), TimestampFormat::EpochMs);
    assert_eq!(parse_format("epoch_s").unwrap(), TimestampFormat::EpochS);
    assert_eq!(parse_format("RFC3339").unwrap(), TimestampFormat::Rfc3339);
    assert!(parse_format("iso").is_err());
}

#[test]
fn parses_policies() {
    assert_eq!(
        parse_nonexistent_policy("error").unwrap(),
        NonexistentPolicy::Error
    );
    assert_eq!(
        parse_nonexistent_policy("shift_forward").unwrap(),
        NonexistentPolicy::ShiftForward
    );
    assert!(parse_nonexistent_policy("skip").is_err());
    assert_eq!(parse_ambiguous_policy("error").unwrap(), AmbiguousPolicy::Error);
    assert_eq!(parse_ambiguous_policy("first").unwrap(), AmbiguousPolicy::First);
    assert_eq!(parse_ambiguous_policy("second").unwrap(), AmbiguousPolicy::Second);
    assert!(parse_ambiguous_policy("third").is_err());
}

#[test]
fn parses_output_formats() {
    assert_eq!(parse_output_format("json").unwrap(), OutputFormat::Json);
    assert_eq!(parse_output_format("TEXT").unwrap(), OutputFormat::Text);
    assert!(parse_output_format("xml").is_err());
    assert_eq!(output_format_hint("JSON"), OutputFormat::Json);
    assert_eq!(output_format_hint("xml"), OutputFormat::Text);
}

#[test]
fn exit_codes_map_by_kind() {
    assert_eq!(CliError::input("a".to_string()).exit_code(), 2);
    assert_eq!(CliError::policy("b".to_string(), "ambiguous").exit_code(), 2);
    assert_eq!(CliError::runtime("c".to_string()).exit_code(), 3);
}

#[test]
fn zone_parse_maps_to_input_error() {
    assert!(parse_tz_or_input_error("Europe/Berlin").is_ok());
    let err = parse_tz_or_input_error("Nowhere/City").unwrap_err();
    assert_eq!(err.kind, ErrorKind::Input);
    assert_eq!(
        err.message,
        "Invalid timezone 'Nowhere/City': Invalid timezone: Nowhere/City"
    );
}

#[test]
fn rfc3339_helper_reports_runtime_errors() {
    assert_eq!(
        parse_rfc3339_to_utc("2026-03-29T00:15:00Z").unwrap(),
        1774743300000
    );
    let err = parse_rfc3339_to_utc("garbage").unwrap_err();
    assert_eq!(err.kind, ErrorKind::Runtime);
}
