//! The instant domain: epoch milliseconds and seconds, and their mapping
//! onto the linear day count of [`crate::cal`].
//!
//! The crate's representable instants are those whose UTC calendar year
//! lies in 1..=9998.  The margin of a year on either side keeps every
//! bucket boundary and every rendered local time inside the four-digit
//! year range 0..=9999.

use vstd::prelude::*;

use crate::cal::{days_before_year, lemma_days_before_year_closed};

verus! {

/// Seconds from 0000-01-01T00:00:00 to the epoch, 1970-01-01T00:00:00.
pub open spec fn epoch_shift_s() -> int {
    days_before_year(1970) * 86400
}

pub proof fn lemma_epoch_shift()
    ensures
        epoch_shift_s() == 62167219200,
        days_before_year(1) == 366,
        days_before_year(1970) == 719528,
        days_before_year(9999) == 3652060,
        days_before_year(10000) == 3652425,
{
    lemma_days_before_year_closed(1);
    lemma_days_before_year_closed(1970);
    lemma_days_before_year_closed(9999);
    lemma_days_before_year_closed(10000);
}

/// Seconds since 0000-01-01 of an instant given in epoch seconds.
pub open spec fn abs_of(e: int) -> int {
    e + epoch_shift_s()
}

/// An instant (epoch seconds) whose UTC year is within 1..=9998.
pub open spec fn valid_epoch_s(e: int) -> bool {
    days_before_year(1) * 86400 <= abs_of(e) < days_before_year(9999) * 86400
}

/// An instant (epoch milliseconds) whose UTC year is within 1..=9998.
pub open spec fn valid_epoch_ms(ms: int) -> bool {
    days_before_year(1) * 86400000 <= ms + days_before_year(1970) * 86400000 < days_before_year(
        9999,
    ) * 86400000
}

/// An instant (epoch seconds) that can still be rendered with a
/// four-digit year: anything within years 0..=9999.  Bucket boundaries
/// of valid instants land here.
pub open spec fn renderable_epoch_s(e: int) -> bool {
    0 <= abs_of(e) < days_before_year(10000) * 86400
}

pub proof fn lemma_valid_is_renderable(e: int)
    requires
        valid_epoch_s(e),
    ensures
        renderable_epoch_s(e),
{
    lemma_epoch_shift();
}

/// The epoch second containing an epoch millisecond (floor division,
/// which the Euclidean `/` of specifications computes).
pub open spec fn sec_of_ms(ms: int) -> int {
    ms / 1000
}

pub proof fn lemma_sec_of_ms(ms: int)
    ensures
        sec_of_ms(ms) * 1000 <= ms < sec_of_ms(ms) * 1000 + 1000,
{
    assert(ms == 1000 * (ms / 1000) + ms % 1000 && 0 <= ms % 1000 < 1000) by (nonlinear_arith);
}

pub proof fn lemma_valid_ms_to_s(ms: int)
    requires
        valid_epoch_ms(ms),
    ensures
        valid_epoch_s(sec_of_ms(ms)),
{
    lemma_epoch_shift();
    let t = ms + 62167219200000;
    vstd::arithmetic::div_mod::lemma_hoist_over_denominator(ms, 62167219200, 1000);
    assert(t / 1000 == ms / 1000 + 62167219200);
    vstd::arithmetic::div_mod::lemma_div_is_ordered(366int * 86400000, t, 1000);
    vstd::arithmetic::div_mod::lemma_div_is_ordered(t, 3652060int * 86400000 - 1, 1000);
    assert(366 * 86400000 / 1000 == 366 * 86400);
    assert((3652060 * 86400000 - 1) / 1000 == 3652060 * 86400 - 1);
}

pub proof fn lemma_valid_s_to_ms(e: int)
    requires
        valid_epoch_s(e),
    ensures
        valid_epoch_ms(e * 1000),
{
    lemma_epoch_shift();
}

/// Whether an epoch-millisecond value is a representable instant.
pub fn epoch_ms_in_range(ms: i64) -> (r: bool)
    ensures
        r == valid_epoch_ms(ms as int),
{
    proof {
        lemma_epoch_shift();
    }
    let shifted: i128 = ms as i128 + 62167219200000;
    366i128 * 86400000 <= shifted && shifted < 3652060i128 * 86400000
}

/// Whether an epoch-second value is a representable instant.
pub fn epoch_s_in_range(e: i64) -> (r: bool)
    ensures
        r == valid_epoch_s(e as int),
{
    proof {
        lemma_epoch_shift();
    }
    let shifted: i128 = e as i128 + 62167219200;
    366i128 * 86400 <= shifted && shifted < 3652060i128 * 86400
}

/// Floor the milliseconds of a representable instant to whole seconds.
pub fn ms_to_s(ms: i64) -> (r: i64)
    requires
        valid_epoch_ms(ms as int),
    ensures
        r == sec_of_ms(ms as int),
        valid_epoch_s(r as int),
        r * 1000 <= ms < r * 1000 + 1000,
{
    proof {
        lemma_epoch_shift();
        lemma_sec_of_ms(ms as int);
        lemma_valid_ms_to_s(ms as int);
    }
    let t: i64 = ms + 62167219200000;
    let s: i64 = t / 1000;
    proof {
        vstd::arithmetic::div_mod::lemma_hoist_over_denominator(ms as int, 62167219200, 1000);
    }
    s - 62167219200
}

/// Seconds since 0000-01-01 of a renderable instant.
pub fn abs_of_exec(e: i64) -> (r: i64)
    requires
        renderable_epoch_s(e as int),
    ensures
        r == abs_of(e as int),
        0 <= r < days_before_year(10000) * 86400,
{
    proof {
        lemma_epoch_shift();
    }
    e + 62167219200
}

} // verus!
