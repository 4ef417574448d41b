//! Convenient imports for the common surface of the crate.

pub use crate::compute::{compute_bucket, compute_bucket_from_string};
pub use crate::error::TzBucketError;
pub use crate::models::{AmbiguousPolicy, Bucket, BucketResult, InputTimestamp, Interval,
    NonexistentPolicy, Policy, WeekStart};
pub use crate::parse::{parse_timestamp, parse_timestamp_auto, TimestampFormat};
pub use crate::tz::parse_tz;
