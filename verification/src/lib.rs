//! DST-safe calendar bucketing for timestamps.
//!
//! The crate assigns UTC instants to calendar-aligned buckets (day, week,
//! month) in a named IANA timezone, computing each bucket boundary in local
//! civil time and resolving it to UTC independently, so that days shortened
//! or lengthened by daylight-saving transitions keep their true extent.
//! It also classifies local wall-clock times as normal, ambiguous or
//! nonexistent and resolves them under configurable policies, parses
//! timestamps in epoch and RFC3339 forms, and carries a small
//! word-frequency text analyzer.

use vstd::prelude::*;

pub mod cal;
pub mod compute;
pub mod epoch;
pub mod error;
pub mod explain;
pub mod models;
pub mod options;
pub mod parse;
pub mod prelude;
pub mod range;
pub mod render;
pub mod text;
pub mod textstats;
pub mod tz;

pub use compute::{compute_bucket, compute_bucket_from_string};
pub use error::TzBucketError;
pub use models::{
    AmbiguousPolicy, Bucket, BucketResult, InputTimestamp, Interval, NonexistentPolicy, Policy,
    WeekStart,
};
pub use parse::{parse_timestamp, parse_timestamp_auto, TimestampFormat};
pub use textstats::{analyze, TextStats};

verus! {

} // verus!
