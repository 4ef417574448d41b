use std::str::FromStr;
use tzbucket::models::{Interval, NonexistentPolicy, Policy, WeekStart};
use tzbucket::parse::TimestampFormat;
use tzbucket::TzBucketError;

#[test]
fn interval_default_is_day() {
    assert_eq!(Interval::default(), Interval::Day);
}

#[test]
fn interval_display() {
    assert_eq!(Interval::Day.as_text(), "day");
    assert_eq!(Interval::Week.as_text(), "week");
    assert_eq!(Interval::Month.as_text(), "month");
}

#[test]
fn week_start_default_is_monday() {
    assert_eq!(WeekStart::default(), WeekStart::Monday);
}

#[test]
fn week_start_display() {
    assert_eq!(WeekStart::Monday.as_text(), "monday");
    assert_eq!(WeekStart::Sunday.as_text(), "sunday");
}

#[test]
fn policy_default_is_error_error() {
    let policy = Policy::default();
    assert_eq!(policy.nonexistent, NonexistentPolicy::Error);
    assert_eq!(policy.ambiguous, tzbucket::models::AmbiguousPolicy::Error);
}

#[test]
fn format_from_str() {
    assert_eq!(
        TimestampFormat::from_str("epoch_ms").unwrap(),
        TimestampFormat::EpochMs
    );
    assert_eq!(
        TimestampFormat::from_str("epoch_s").unwrap(),
        TimestampFormat::EpochS
    );
    assert_eq!(
        TimestampFormat::from_str("rfc3339").unwrap(),
        TimestampFormat::Rfc3339
    );
    assert!(TimestampFormat::from_str("invalid").is_err());
}

#[test]
fn format_display() {
    assert_eq!(TimestampFormat::EpochMs.as_text(), "epoch_ms");
    assert_eq!(TimestampFormat::EpochS.as_text(), "epoch_s");
    assert_eq!(TimestampFormat::Rfc3339.as_text(), "rfc3339");
}

#[test]
fn format_default_is_epoch_ms() {
    assert_eq!(TimestampFormat::default(), TimestampFormat::EpochMs);
}

#[test]
fn error_messages_carry_kind_prefix() {
    assert_eq!(
        TzBucketError::InvalidTimezone("Nowhere/City".to_string()).message(),
        "Invalid timezone: Nowhere/City"
    );
    assert_eq!(
        TzBucketError::ParseError("bad".to_string()).message(),
        "Parse error: bad"
    );
    assert_eq!(
        TzBucketError::PolicyError("no".to_string()).message(),
        "Policy error: no"
    );
    assert_eq!(
        TzBucketError::RuntimeError("oops".to_string()).message(),
        "Runtime error: oops"
    );
}
