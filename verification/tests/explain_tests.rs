use tzbucket::explain::{explain_local_time, parse_local_time};
use tzbucket::models::{AmbiguousPolicy, NonexistentPolicy};
use tzbucket::options::ErrorKind;
use tzbucket::parse::{parse_timestamp, TimestampFormat};
use tzbucket::tz::parse_tz;

fn berlin() -> tzbucket::tz::Zone {
    parse_tz("Europe/Berlin").unwrap()
}

#[test]
fn parse_local_time_formats() {
    let with_seconds = parse_local_time("2026-06-15T14:30:05").unwrap();
    let with_space = parse_local_time("2026-06-15 14:30:05").unwrap();
    assert_eq!(with_seconds, with_space);
    let no_seconds = parse_local_time("2026-06-15T14:30").unwrap();
    assert_eq!(with_seconds, no_seconds + 5);
    assert!(parse_local_time("2026-06-15").is_err());
    assert!(parse_local_time("not a time").is_err());
    let err = parse_local_time("2026-13-01T00:00:00").unwrap_err();
    assert_eq!(err.kind, ErrorKind::Input);
    assert!(err.message.contains("Invalid local time format"));
}

#[test]
fn explain_normal_time() {
    let tz = berlin();
    let local = parse_local_time("2026-06-15T14:30:00").unwrap();
    let result = explain_local_time(
        local,
        &tz,
        NonexistentPolicy::Error,
        AmbiguousPolicy::Error,
    )
    .unwrap();
    assert_eq!(result.status, "normal");
    assert_eq!(result.local_time, "2026-06-15T14:30:00");
    assert_eq!(result.tz, "Europe/Berlin");
    assert!(result.resolution.is_none());
}

#[test]
fn explain_nonexistent_shift_forward() {
    // 02:30 on the spring-forward day was skipped; the shift lands past
    // the gap.
    let tz = berlin();
    let local = parse_local_time("2026-03-29T02:30:00").unwrap();
    let result = explain_local_time(
        local,
        &tz,
        NonexistentPolicy::ShiftForward,
        AmbiguousPolicy::Error,
    )
    .unwrap();
    assert_eq!(result.status, "nonexistent");
    let resolution = result.resolution.unwrap();
    assert_eq!(resolution.policy, "shift_forward");
    assert_eq!(resolution.result, "2026-03-29T03:30:00+02:00");
    // The resolved instant is strictly after the skipped region: the
    // gap ends at 03:00 local, 01:00 UTC.
    let resolved = parse_timestamp(&resolution.result, TimestampFormat::Rfc3339).unwrap();
    let gap_end = parse_timestamp("2026-03-29T01:00:00Z", TimestampFormat::Rfc3339).unwrap();
    assert!(resolved >= gap_end);
}

#[test]
fn explain_nonexistent_error() {
    let tz = berlin();
    let local = parse_local_time("2026-03-29T02:30:00").unwrap();
    let err = explain_local_time(
        local,
        &tz,
        NonexistentPolicy::Error,
        AmbiguousPolicy::Error,
    )
    .unwrap_err();
    assert_eq!(err.kind, ErrorKind::Input);
    assert_eq!(err.exit_code(), 2);
    assert_eq!(err.status, Some("nonexistent".to_string()));
    assert!(err.message.contains("Nonexistent time"));
    assert!(err.message.contains("2026-03-29T02:30:00"));
    assert!(err.message.contains("Europe/Berlin"));
}

#[test]
fn explain_ambiguous_error() {
    let tz = berlin();
    let local = parse_local_time("2026-10-25T02:30:00").unwrap();
    let err = explain_local_time(
        local,
        &tz,
        NonexistentPolicy::Error,
        AmbiguousPolicy::Error,
    )
    .unwrap_err();
    assert_eq!(err.kind, ErrorKind::Input);
    assert_eq!(err.exit_code(), 2);
    assert_eq!(err.status, Some("ambiguous".to_string()));
    assert!(err.message.contains("Ambiguous time"));
    assert!(err.message.contains("2026-10-25T02:30:00"));
}

#[test]
fn explain_ambiguous_first_and_second() {
    let tz = berlin();
    let local = parse_local_time("2026-10-25T02:30:00").unwrap();
    let first = explain_local_time(
        local,
        &tz,
        NonexistentPolicy::Error,
        AmbiguousPolicy::First,
    )
    .unwrap();
    let second = explain_local_time(
        local,
        &tz,
        NonexistentPolicy::Error,
        AmbiguousPolicy::Second,
    )
    .unwrap();
    assert_eq!(first.status, "ambiguous");
    assert_eq!(second.status, "ambiguous");
    let r1 = first.resolution.unwrap();
    let r2 = second.resolution.unwrap();
    assert_eq!(r1.policy, "first");
    assert_eq!(r2.policy, "second");
    assert_eq!(r1.result, "2026-10-25T02:30:00+02:00");
    assert_eq!(r2.result, "2026-10-25T02:30:00+01:00");
    // The two occurrences differ by exactly the zone's one-hour shift.
    let t1 = parse_timestamp(&r1.result, TimestampFormat::Rfc3339).unwrap();
    let t2 = parse_timestamp(&r2.result, TimestampFormat::Rfc3339).unwrap();
    assert_eq!(t2 - t1, 3600 * 1000);
}
