//! Core value types: bucket granularity, week configuration, resolution
//! policies, and the bucket records the computations produce.

use vstd::prelude::*;

verus! {

/// Bucket granularity interval.
#[derive(Debug, Clone, Copy, PartialEq, Eq, Structural)]
pub enum Interval {
    /// Daily bucket: local midnight to the next local midnight.
    Day,
    /// Weekly bucket: week-start midnight to the next week-start midnight.
    Week,
    /// Monthly bucket: first-of-month midnight to first of the next month.
    Month,
}

impl Interval {
    /// The lower-case name of the interval.
    pub fn as_text(&self) -> (r: String)
        ensures
            *self is Day ==> r@ == "day"@,
            *self is Week ==> r@ == "week"@,
            *self is Month ==> r@ == "month"@,
    {
        match self {
            Interval::Day => "day".to_owned(),
            Interval::Week => "week".to_owned(),
            Interval::Month => "month".to_owned(),
        }
    }
}

impl Default for Interval {
    /// The default interval is a day.
    fn default() -> (r: Self)
        ensures
            r is Day,
    {
        Interval::Day
    }
}

/// Week start day configuration.
#[derive(Debug, Clone, Copy, PartialEq, Eq, Structural)]
pub enum WeekStart {
    /// Week starts on Monday.
    Monday,
    /// Week starts on Sunday.
    Sunday,
}

impl WeekStart {
    /// The lower-case name of the week start day.
    pub fn as_text(&self) -> (r: String)
        ensures
            *self is Monday ==> r@ == "monday"@,
            *self is Sunday ==> r@ == "sunday"@,
    {
        match self {
            WeekStart::Monday => "monday".to_owned(),
            WeekStart::Sunday => "sunday".to_owned(),
        }
    }
}

impl Default for WeekStart {
    /// The default week starts on Monday.
    fn default() -> (r: Self)
        ensures
            r is Monday,
    {
        WeekStart::Monday
    }
}

/// Policy for local times skipped by a forward clock jump.
#[derive(Debug, Clone, Copy, PartialEq, Eq, Structural)]
pub enum NonexistentPolicy {
    /// Reject nonexistent times with an error.
    Error,
    /// Shift forward past the gap to the next valid local time.
    ShiftForward,
}

impl Default for NonexistentPolicy {
    /// Nonexistent times are rejected by default.
    fn default() -> (r: Self)
        ensures
            r is Error,
    {
        NonexistentPolicy::Error
    }
}

/// Policy for local times repeated by a backward clock jump.
#[derive(Debug, Clone, Copy, PartialEq, Eq, Structural)]
pub enum AmbiguousPolicy {
    /// Reject ambiguous times with an error.
    Error,
    /// Take the first occurrence, the earlier UTC instant.
    First,
    /// Take the second occurrence, the later UTC instant.
    Second,
}

impl Default for AmbiguousPolicy {
    /// Ambiguous times are rejected by default.
    fn default() -> (r: Self)
        ensures
            r is Error,
    {
        AmbiguousPolicy::Error
    }
}

/// Combined policy for both kinds of irregular local time.
#[derive(Debug, Clone, Copy, PartialEq, Eq, Structural)]
pub struct Policy {
    /// How to handle nonexistent local times.
    pub nonexistent: NonexistentPolicy,
    /// How to handle ambiguous local times.
    pub ambiguous: AmbiguousPolicy,
}

impl Default for Policy {
    /// Both policies default to rejection.
    fn default() -> (r: Self)
        ensures
            r.nonexistent is Error,
            r.ambiguous is Error,
    {
        Policy { nonexistent: NonexistentPolicy::Error, ambiguous: AmbiguousPolicy::Error }
    }
}

/// A computed time bucket, with boundaries in local and UTC renderings.
#[derive(Debug, Clone)]
pub struct Bucket {
    /// Stable bucket key: the start date as `YYYY-MM-DD` for day and week
    /// buckets, `YYYY-MM` for month buckets.
    pub key: String,
    /// Bucket start in local time with UTC offset suffix.
    pub start_local: String,
    /// Bucket end in local time with UTC offset suffix.
    pub end_local: String,
    /// Bucket start in UTC with `Z` suffix.
    pub start_utc: String,
    /// Bucket end in UTC with `Z` suffix.
    pub end_utc: String,
}

/// The record of one parsed input timestamp.
#[derive(Debug, Clone)]
pub struct InputTimestamp {
    /// The original input text, trimmed.
    pub ts: String,
    /// The instant it resolved to, in epoch milliseconds.
    pub epoch_ms: i64,
}

/// The complete result of one bucket computation.
#[derive(Debug, Clone)]
pub struct BucketResult {
    /// The input timestamp that was processed.
    pub input: InputTimestamp,
    /// The timezone name used.
    pub tz: String,
    /// The interval used.
    pub interval: Interval,
    /// The computed bucket.
    pub bucket: Bucket,
}

} // verus!
