//! Range enumeration: every bucket overlapping a UTC interval, sorted
//! by start instant and de-duplicated by key.
//!
//! The enumeration is specified exactly: the candidate days are pinned
//! by [`is_candidate_days`], success is the enumerability of every
//! candidate day, and the returned list carries one bucket per key of
//! the included days — each bucket some included day's, field for
//! field — in strictly ascending start order.

use vstd::prelude::*;

use crate::cal::{
    civil_of_day, day_number, day_of_civil, days_before_month, days_before_year, days_in_month,
    days_in_year, lemma_civil_inverse, lemma_day_split, month_of_day, year_of_day,
};
use crate::compute::{
    bucket_end_utc_s, bucket_key_text, bucket_spec, bucket_start_day, bucket_start_utc_s,
    compute_bucket, days_since_week_start, local_day, local_day_exec, start_day_of,
};
use crate::epoch::{epoch_ms_in_range, epoch_shift_s, lemma_epoch_shift, sec_of_ms,
    valid_epoch_ms};
use crate::models::{Bucket, Interval, WeekStart};
use crate::options::CliError;
use crate::parse::{rfc3339_ms, rfc3339_ok};
use crate::render::{date_text, render_date};
use crate::text::str_concat;
use crate::tz::{
    local_lookup, local_of, midnight_epoch_s, probe_s, utc_candidates_of, zone_facts, LocalLookup,
    Zone,
};

verus! {

/// Check that a range's endpoints are ordered, reporting the offending
/// texts otherwise.
#[verifier::spinoff_prover]
pub fn validate_range(
    start_ms: i64,
    end_ms: i64,
    start_text: &str,
    end_text: &str,
) -> (r: Result<(), CliError>)
    ensures
        r is Ok <==> start_ms < end_ms,
        r is Err ==> r->Err_0.kind is Input && r->Err_0.message@ == "Invalid range: start '"@
            + start_text@ + "' must be earlier than end '"@ + end_text@ + "'"@,
{
    if start_ms < end_ms {
        Ok(())
    } else {
        Err(
            CliError::input(
                str_concat(
                    str_concat(
                        str_concat(
                            str_concat("Invalid range: start '", start_text).as_str(),
                            "' must be earlier than end '",
                        ).as_str(),
                        end_text,
                    ).as_str(),
                    "'",
                ),
            ),
        )
    }
}

/// Compute the bucket anchored at local midnight of a day number: the
/// midnight is resolved to a UTC instant (earliest reading if
/// ambiguous) and the bucket of that instant is computed.  A midnight
/// skipped by a clock jump, or one resolving outside the representable
/// years, is a runtime error.
#[verifier::spinoff_prover]
pub fn compute_bucket_for_date(day: i64, z: &Zone, interval: Interval, ws: WeekStart) -> (r: Result<
    Bucket,
    CliError,
>)
    requires
        0 <= day < days_before_year(10000),
    ensures
        ({
            let cand = utc_candidates_of(z@, midnight_epoch_s(day as int));
            &&& (r is Ok <==> cand.len() > 0 && valid_epoch_ms(cand.first() * 1000))
            &&& cand.len() > 0 ==> local_of(z@, cand.first()) == midnight_epoch_s(day as int)
            &&& r is Ok ==> bucket_spec(z@, cand.first() * 1000, interval, ws, r->Ok_0)
            &&& r is Ok ==> crate::epoch::renderable_epoch_s(
                bucket_start_utc_s(z@, cand.first() * 1000, interval, ws),
            ) && crate::epoch::renderable_epoch_s(
                bucket_end_utc_s(z@, cand.first() * 1000, interval, ws),
            )
            &&& r is Err ==> r->Err_0.kind is Runtime && r->Err_0.message@
                == "Could not resolve local midnight for date "@ + date_text(day as int)
        }),
{
    proof {
        lemma_epoch_shift();
    }
    let l: i64 = day * 86400 - 62167219200;
    let s: i64;
    match local_lookup(l, z) {
        LocalLookup::Nonexistent => {
            return Err(
                CliError::runtime(
                    str_concat(
                        "Could not resolve local midnight for date ",
                        render_date(day).as_str(),
                    ),
                ),
            );
        },
        LocalLookup::Unique(t) => {
            s = t;
        },
        LocalLookup::Ambiguous(a, _b) => {
            s = a;
        },
    }
    let ms: i64 = s * 1000;
    if epoch_ms_in_range(ms) {
        Ok(compute_bucket(ms, z, interval, Some(ws)))
    } else {
        Err(
            CliError::runtime(
                str_concat(
                    "Could not resolve local midnight for date ",
                    render_date(day).as_str(),
                ),
            ),
        )
    }
}

/// The first day of the month after the one containing day `d`.
#[verifier::opaque]
pub open spec fn month_step(d: int) -> int {
    if month_of_day(d) == 12 {
        day_number(year_of_day(d) + 1, 1, 1)
    } else {
        day_number(year_of_day(d), month_of_day(d) + 1, 1)
    }
}

/// The day list a range enumeration walks, pinned: every local day
/// from the interval's first to its last for day buckets, every week
/// start for week buckets, every month start for month buckets.
pub open spec fn is_candidate_days(
    d0: int,
    d1: int,
    interval: Interval,
    ws: WeekStart,
    days: Seq<i64>,
) -> bool {
    match interval {
        Interval::Day => {
            &&& days.len() == if d0 <= d1 {
                d1 - d0 + 1
            } else {
                0
            }
            &&& forall|i: int| 0 <= i < days.len() ==> #[trigger] days[i] == d0 + i
        },
        Interval::Week => {
            let w0 = d0 - days_since_week_start(d0, ws);
            &&& days.len() == if w0 <= d1 {
                (d1 - w0) / 7 + 1
            } else {
                0
            }
            &&& forall|i: int| 0 <= i < days.len() ==> #[trigger] days[i] == w0 + 7 * i
        },
        Interval::Month => {
            let m0 = start_day_of(d0, Interval::Month, ws);
            &&& (days.len() == 0 <==> m0 > d1)
            &&& days.len() > 0 ==> days[0] == m0
            &&& forall|i: int| 0 <= i < days.len() ==> #[trigger] days[i] <= d1
            &&& forall|i: int| 1 <= i < days.len() ==> #[trigger] days[i] == month_step(
                days[i - 1] as int,
            )
            &&& days.len() > 0 ==> month_step(days.last() as int) > d1
        },
    }
}

/// Two month-start chains with equal heads agree index by index.
#[verifier::spinoff_prover]
proof fn lemma_chain_agree(a: Seq<i64>, b: Seq<i64>, i: int)
    requires
        0 <= i < a.len(),
        i < b.len(),
        a[0] == b[0],
        forall|k: int| 1 <= k < a.len() ==> #[trigger] a[k] == month_step(a[k - 1] as int),
        forall|k: int| 1 <= k < b.len() ==> #[trigger] b[k] == month_step(b[k - 1] as int),
    ensures
        a[i] == b[i],
    decreases i,
{
    if i > 0 {
        lemma_chain_agree(a, b, i - 1);
    }
}

/// The candidate-day list is unique: any two sequences satisfying
/// [`is_candidate_days`] for the same arguments are equal.
#[verifier::spinoff_prover]
pub proof fn lemma_candidate_days_unique(
    d0: int,
    d1: int,
    interval: Interval,
    ws: WeekStart,
    a: Seq<i64>,
    b: Seq<i64>,
)
    requires
        is_candidate_days(d0, d1, interval, ws, a),
        is_candidate_days(d0, d1, interval, ws, b),
    ensures
        a == b,
{
    match interval {
        Interval::Day => {
            assert(a =~= b);
        },
        Interval::Week => {
            assert(a =~= b);
        },
        Interval::Month => {
            if a.len() < b.len() {
                assert(a.len() > 0 || b.len() == 0);
                lemma_chain_agree(a, b, a.len() - 1);
                assert(b[a.len() as int] == month_step(b[a.len() - 1] as int));
                assert(month_step(a.last() as int) > d1);
                assert(false);
            }
            if b.len() < a.len() {
                assert(b.len() > 0 || a.len() == 0);
                lemma_chain_agree(b, a, b.len() - 1);
                assert(a[b.len() as int] == month_step(a[b.len() - 1] as int));
                assert(month_step(b.last() as int) > d1);
                assert(false);
            }
            assert forall|i: int| 0 <= i < a.len() implies a[i] == b[i] by {
                lemma_chain_agree(a, b, i);
            }
            assert(a =~= b);
        },
    }
}

/// Each element of a month chain is a first-of-month within bounds,
/// strictly after its predecessor.
#[verifier::spinoff_prover]
proof fn lemma_month_elem(dd: Seq<i64>, d1: int, ws: WeekStart, i: int)
    requires
        days_before_year(9999) == 3652060,
        days_before_year(10000) == 3652425,
        0 <= i < dd.len(),
        335 <= dd[0] < days_before_year(10000),
        start_day_of(dd[0] as int, Interval::Month, ws) == dd[0],
        d1 <= days_before_year(9999),
        forall|k: int| 0 <= k < dd.len() ==> #[trigger] dd[k] <= d1,
        forall|k: int| 1 <= k < dd.len() ==> #[trigger] dd[k] == month_step(dd[k - 1] as int),
    ensures
        335 <= dd[i] < days_before_year(10000),
        start_day_of(dd[i] as int, Interval::Month, ws) == dd[i],
        i > 0 ==> dd[i - 1] < dd[i],
    decreases i,
{
    if i > 0 {
        lemma_month_elem(dd, d1, ws, i - 1);
        let d = dd[i - 1] as int;
        lemma_day_split(d);
        let y = year_of_day(d);
        let m = month_of_day(d);
        assert(d == day_number(y, m, 1));
        reveal(month_step);
        crate::cal::lemma_days_before_month_full(y);
        assert(days_before_month(y, m + 1) == days_before_month(y, m) + days_in_month(y, m));
        crate::cal::lemma_days_before_month_mono(y, m + 1, 13);
        assert(days_before_year(y + 1) == days_before_year(y) + days_in_year(y));
        assert(day_number(y + 1, 1, 1) == days_before_year(y + 1));
        if m == 12 && y + 1 > 9999 {
            crate::cal::lemma_days_before_month_table(y);
            assert(false);
        }
        if m == 12 {
            lemma_civil_inverse(y + 1, 1, 1);
        } else {
            lemma_civil_inverse(y, m + 1, 1);
        }
        assert(dd[i] == month_step(d));
        assert(d < month_step(d));
    }
}

/// Month-chain elements grow strictly with the index.
#[verifier::spinoff_prover]
proof fn lemma_month_lt(dd: Seq<i64>, d1: int, ws: WeekStart, i: int, j: int)
    requires
        days_before_year(9999) == 3652060,
        days_before_year(10000) == 3652425,
        0 <= i < j < dd.len(),
        335 <= dd[0] < days_before_year(10000),
        start_day_of(dd[0] as int, Interval::Month, ws) == dd[0],
        d1 <= days_before_year(9999),
        forall|k: int| 0 <= k < dd.len() ==> #[trigger] dd[k] <= d1,
        forall|k: int| 1 <= k < dd.len() ==> #[trigger] dd[k] == month_step(dd[k - 1] as int),
    ensures
        dd[i] < dd[j],
    decreases j - i,
{
    lemma_month_elem(dd, d1, ws, j);
    if i < j - 1 {
        lemma_month_lt(dd, d1, ws, i, j - 1);
    }
}

/// The facts every candidate-day list enjoys: bounds, week or month
/// alignment, strict ascent.
#[verifier::spinoff_prover]
pub proof fn lemma_candidate_days_props(
    d0: int,
    d1: int,
    interval: Interval,
    ws: WeekStart,
    dd: Seq<i64>,
)
    requires
        365 <= d0 <= days_before_year(9999),
        365 <= d1 <= days_before_year(9999),
        is_candidate_days(d0, d1, interval, ws, dd),
    ensures
        forall|i: int| 0 <= i < dd.len() ==> 335 <= #[trigger] dd[i] <= days_before_year(9999),
        forall|i: int|
            0 <= i < dd.len() ==> #[trigger] start_day_of(dd[i] as int, interval, ws) == dd[i],
        forall|i: int, j: int| 0 <= i < j < dd.len() ==> #[trigger] dd[i] < #[trigger] dd[j],
{
    lemma_epoch_shift();
    match interval {
        Interval::Day => {
            assert forall|i: int| 0 <= i < dd.len() implies 335 <= #[trigger] dd[i]
                <= days_before_year(9999) by {
                assert(dd[i] == d0 + i);
                assert(i <= d1 - d0);
            }
        },
        Interval::Week => {
            let dsw = days_since_week_start(d0, ws);
            assert(0 <= (d0 + 5) % 7 < 7 && 0 <= (d0 + 6) % 7 < 7) by (nonlinear_arith);
            let w0 = d0 - dsw;
            assert forall|i: int| 0 <= i < dd.len() implies 335 <= #[trigger] dd[i]
                <= days_before_year(9999) by {
                assert(dd[i] == w0 + 7 * i);
                assert(i <= (d1 - w0) / 7);
                vstd::arithmetic::div_mod::lemma_fundamental_div_mod(d1 - w0, 7);
                assert(7 * i <= 7 * ((d1 - w0) / 7));
            }
            assert forall|i: int| 0 <= i < dd.len() implies #[trigger] start_day_of(
                dd[i] as int,
                interval,
                ws,
            ) == dd[i] by {
                assert(dd[i] == w0 + 7 * i);
                lemma_week_aligned(d0, i, ws);
            }
        },
        Interval::Month => {
            if dd.len() > 0 {
                lemma_day_split(d0);
                let y0 = year_of_day(d0);
                let m00 = month_of_day(d0);
                lemma_civil_inverse(y0, m00, 1);
                assert(dd[0] == day_number(y0, m00, 1));
                assert(dd[0] >= d0 - 30);
                assert(start_day_of(dd[0] as int, Interval::Month, ws) == dd[0]);
                assert forall|i: int| 0 <= i < dd.len() implies 335 <= #[trigger] dd[i]
                    <= days_before_year(9999) by {
                    lemma_month_elem(dd, d1, ws, i);
                }
                assert forall|i: int| 0 <= i < dd.len() implies #[trigger] start_day_of(
                    dd[i] as int,
                    interval,
                    ws,
                ) == dd[i] by {
                    lemma_month_elem(dd, d1, ws, i);
                }
                assert forall|i: int, j: int| 0 <= i < j < dd.len() implies #[trigger] dd[i]
                    < #[trigger] dd[j] by {
                    lemma_month_lt(dd, d1, ws, i, j);
                }
            }
        },
    }
}

/// The UTC instant local midnight of day `d` resolves to when the
/// reading exists: its earliest candidate.
#[verifier::opaque]
pub open spec fn day_midnight_utc(z: Seq<char>, d: int) -> int {
    utc_candidates_of(z, midnight_epoch_s(d)).first()
}

/// The instant, in epoch milliseconds, whose bucket the enumeration
/// emits for day `d`.
#[verifier::opaque]
pub open spec fn day_instant_ms(z: Seq<char>, d: int) -> int {
    day_midnight_utc(z, d) * 1000
}

/// Day `d` can be enumerated: its midnight resolves to a representable
/// instant and both resolved bucket boundaries are representable, so
/// their renderings parse back.
#[verifier::opaque]
pub open spec fn day_enumerable(z: Seq<char>, d: int, interval: Interval, ws: WeekStart) -> bool {
    &&& utc_candidates_of(z, midnight_epoch_s(d)).len() > 0
    &&& valid_epoch_ms(day_instant_ms(z, d))
    &&& valid_epoch_ms(bucket_start_utc_s(z, day_instant_ms(z, d), interval, ws) * 1000)
    &&& valid_epoch_ms(bucket_end_utc_s(z, day_instant_ms(z, d), interval, ws) * 1000)
}

/// Day `d`'s bucket overlaps `[start_ms, end_ms)`.
#[verifier::opaque]
pub open spec fn day_included(
    z: Seq<char>,
    d: int,
    interval: Interval,
    ws: WeekStart,
    start_ms: int,
    end_ms: int,
) -> bool {
    &&& bucket_start_utc_s(z, day_instant_ms(z, d), interval, ws) * 1000 < end_ms
    &&& bucket_end_utc_s(z, day_instant_ms(z, d), interval, ws) * 1000 > start_ms
}

/// Day `d`'s bucket key.
#[verifier::opaque]
pub open spec fn day_key(z: Seq<char>, d: int, interval: Interval, ws: WeekStart) -> Seq<char> {
    bucket_key_text(z, day_instant_ms(z, d), interval, ws)
}

/// Day `d`'s resolved bucket start, in epoch milliseconds.
#[verifier::opaque]
pub open spec fn day_start_ms(z: Seq<char>, d: int, interval: Interval, ws: WeekStart) -> int {
    bucket_start_utc_s(z, day_instant_ms(z, d), interval, ws) * 1000
}

/// A collected bucket is day `d`'s bucket.
#[verifier::opaque]
pub open spec fn entry_of(z: Seq<char>, d: int, interval: Interval, ws: WeekStart, b: Bucket) -> bool {
    bucket_spec(z, day_instant_ms(z, d), interval, ws, b)
}

/// For an aligned day whose midnight resolves, the bucket anchored at
/// its resolved midnight starts at that very midnight's resolution.
#[verifier::spinoff_prover]
proof fn lemma_day_start(z: Seq<char>, d: int, interval: Interval, ws: WeekStart)
    requires
        0 <= d < days_before_year(10000),
        utc_candidates_of(z, midnight_epoch_s(d)).len() > 0,
        local_of(z, day_midnight_utc(z, d)) == midnight_epoch_s(d),
        start_day_of(d, interval, ws) == d,
    ensures
        bucket_start_day(z, day_instant_ms(z, d), interval, ws) == d,
        bucket_start_utc_s(z, day_instant_ms(z, d), interval, ws) == day_midnight_utc(z, d),
        day_start_ms(z, d, interval, ws) == day_midnight_utc(z, d) * 1000,
{
    reveal(day_midnight_utc);
    reveal(day_instant_ms);
    reveal(day_start_ms);
    let t = day_midnight_utc(z, d);
    vstd::arithmetic::div_mod::lemma_fundamental_div_mod_converse(t * 1000, 1000, t, 0);
    assert(sec_of_ms(day_instant_ms(z, d)) == t);
    assert(local_of(z, t) + epoch_shift_s() == d * 86400);
    vstd::arithmetic::div_mod::lemma_fundamental_div_mod_converse(d * 86400, 86400, d, 0);
    assert(local_day(z, day_instant_ms(z, d)) == d);
}

/// Resolved bucket starts grow strictly with the aligned day.
#[verifier::spinoff_prover]
proof fn lemma_day_start_strict(z: Seq<char>, da: int, db: int, interval: Interval, ws: WeekStart)
    requires
        zone_facts(z),
        0 <= da < days_before_year(10000),
        0 <= db < days_before_year(10000),
        da < db,
        day_enumerable(z, da, interval, ws),
        day_enumerable(z, db, interval, ws),
        local_of(z, day_midnight_utc(z, da)) == midnight_epoch_s(da),
        local_of(z, day_midnight_utc(z, db)) == midnight_epoch_s(db),
        start_day_of(da, interval, ws) == da,
        start_day_of(db, interval, ws) == db,
    ensures
        day_start_ms(z, da, interval, ws) < day_start_ms(z, db, interval, ws),
{
    reveal(day_enumerable);
    reveal(day_midnight_utc);
    reveal(day_instant_ms);
    reveal(day_start_ms);
    lemma_epoch_shift();
    lemma_day_start(z, da, interval, ws);
    lemma_day_start(z, db, interval, ws);
    let ma = midnight_epoch_s(da);
    let mb = midnight_epoch_s(db);
    assert(probe_s(ma));
    assert(probe_s(mb));
    assert(utc_candidates_of(z, ma).first() < utc_candidates_of(z, mb).first());
}

/// A week-aligned day stays week-aligned seven days later.
#[verifier::spinoff_prover]
proof fn lemma_week_aligned(d0: int, i: int, ws: WeekStart)
    requires
        0 <= i,
    ensures
        days_since_week_start(d0 - days_since_week_start(d0, ws) + 7 * i, ws) == 0,
{
    let base: int = if ws is Monday {
        5
    } else {
        6
    };
    let w0 = d0 - days_since_week_start(d0, ws);
    let q = (d0 + base) / 7;
    vstd::arithmetic::div_mod::lemma_fundamental_div_mod(d0 + base, 7);
    assert(w0 + 7 * i + base == 7 * (q + i));
    vstd::arithmetic::div_mod::lemma_mod_multiples_vanish(q + i, 0, 7);
    assert((7 * (q + i) + 0int) % 7 == 0int % 7);
}

/// Every local day of the interval, for day buckets.
#[verifier::rlimit(100)]
#[verifier::spinoff_prover]
fn daily_days(d0: i64, d1: i64, ws: WeekStart) -> (r: Vec<i64>)
    requires
        365 <= d0 <= days_before_year(9999),
        365 <= d1 <= days_before_year(9999),
    ensures
        is_candidate_days(d0 as int, d1 as int, Interval::Day, ws, r@),
{
    proof {
        lemma_epoch_shift();
    }
    let mut days: Vec<i64> = Vec::new();
    let mut cur = d0;
    while cur <= d1
        invariant
            d0 <= cur,
            cur <= d1 + 1 || cur == d0,
            365 <= d0,
            d1 <= days_before_year(9999),
            days_before_year(9999) == 3652060,
            days.len() == cur - d0,
            forall|i: int| 0 <= i < days.len() ==> #[trigger] days[i] == d0 + i,
        decreases d1 + 1 - cur,
    {
        days.push(cur);
        cur = cur + 1;
    }
    days
}

/// Every week start touching the interval, for week buckets.
#[verifier::rlimit(100)]
#[verifier::spinoff_prover]
fn weekly_days(d0: i64, d1: i64, ws: WeekStart) -> (r: Vec<i64>)
    requires
        365 <= d0 <= days_before_year(9999),
        365 <= d1 <= days_before_year(9999),
    ensures
        is_candidate_days(d0 as int, d1 as int, Interval::Week, ws, r@),
{
    proof {
        lemma_epoch_shift();
    }
    let mut days: Vec<i64> = Vec::new();
    let wd = match ws {
        WeekStart::Monday => crate::cal::weekday_from_monday_exec(d0),
        WeekStart::Sunday => crate::cal::weekday_from_sunday_exec(d0),
    };
    let w0 = d0 - wd;
    proof {
        assert(wd == days_since_week_start(d0 as int, ws));
    }
    let mut cur = w0;
    while cur <= d1
        invariant
            w0 == d0 - days_since_week_start(d0 as int, ws),
            359 <= w0 <= d0,
            d1 <= days_before_year(9999),
            days_before_year(9999) == 3652060,
            cur == w0 + 7 * days.len(),
            forall|i: int| 0 <= i < days.len() ==> #[trigger] days[i] == w0 + 7 * i,
            forall|i: int| 0 <= i < days.len() ==> #[trigger] days[i] <= d1,
        decreases d1 + 7 - cur,
    {
        days.push(cur);
        cur = cur + 7;
    }
    proof {
        let ln = days.len() as int;
        if w0 <= d1 {
            assert(ln >= 1);
            assert(days[ln - 1] == w0 + 7 * (ln - 1));
            assert(w0 + 7 * (ln - 1) <= d1);
            assert(w0 + 7 * ln > d1);
            vstd::arithmetic::div_mod::lemma_fundamental_div_mod_converse(
                d1 as int - w0 as int,
                7,
                ln - 1,
                d1 - w0 - 7 * (ln - 1),
            );
            assert(ln == (d1 - w0) / 7 + 1);
        } else {
            if ln > 0 {
                assert(days[ln - 1] == w0 + 7 * (ln - 1));
                assert(days[ln - 1] <= d1);
                assert(false);
            }
            assert(ln == 0);
        }
    }
    days
}

/// Every month start touching the interval, for month buckets.
#[verifier::rlimit(100)]
#[verifier::spinoff_prover]
fn monthly_days(d0: i64, d1: i64, ws: WeekStart) -> (r: Vec<i64>)
    requires
        365 <= d0 <= days_before_year(9999),
        365 <= d1 <= days_before_year(9999),
    ensures
        is_candidate_days(d0 as int, d1 as int, Interval::Month, ws, r@),
{
    proof {
        reveal(month_step);
        lemma_epoch_shift();
        lemma_day_split(d0 as int);
        lemma_civil_inverse(year_of_day(d0 as int), month_of_day(d0 as int), 1);
    }
    let mut days: Vec<i64> = Vec::new();
    let cd = civil_of_day(d0);
    let m0 = day_of_civil(cd.year, cd.month, 1);
    proof {
        assert(m0 >= d0 - 30);
        assert(m0 == start_day_of(d0 as int, Interval::Month, ws));
    }
    let mut cur = m0;
    while cur <= d1
        invariant
            335 <= cur < days_before_year(10000),
            m0 == start_day_of(d0 as int, Interval::Month, ws),
            d1 <= days_before_year(9999),
            days_before_year(9999) == 3652060,
            days_before_year(10000) == 3652425,
            days.len() == 0 ==> cur == m0,
            days.len() > 0 ==> days[0] == m0 && cur == month_step(days@.last() as int),
            forall|i: int| 0 <= i < days.len() ==> 335 <= #[trigger] days[i] <= d1,
            forall|i: int| 1 <= i < days.len() ==> #[trigger] days[i] == month_step(
                days[i - 1] as int,
            ),
            forall|i: int| 0 <= i < days.len() ==> #[trigger] days[i] < cur,
        decreases d1 + 31 - cur,
    {
        days.push(cur);
        proof {
            lemma_day_split(cur as int);
        }
        let cc = civil_of_day(cur);
        let next: i64 = if cc.month == 12 {
            proof {
                if cc.year + 1 > 9999 {
                    crate::cal::lemma_days_before_month_table(cc.year as int);
                    assert(false);
                }
            }
            day_of_civil(cc.year + 1, 1, 1)
        } else {
            day_of_civil(cc.year, cc.month + 1, 1)
        };
        proof {
            reveal(month_step);
            let yy = cc.year as int;
            let mm = cc.month as int;
            crate::cal::lemma_days_before_month_full(yy);
            assert(days_before_month(yy, mm + 1) == days_before_month(yy, mm) + days_in_month(
                yy,
                mm,
            ));
            crate::cal::lemma_days_before_month_mono(yy, mm + 1, 13);
            assert(days_before_year(yy + 1) == days_before_year(yy) + days_in_year(yy));
            assert(day_number(yy + 1, 1, 1) == days_before_year(yy + 1));
            assert(cur < next <= cur + 31);
            assert(next == month_step(cur as int));
        }
        cur = next;
    }
    days
}

/// The days whose buckets the enumeration visits.
fn candidate_days(d0: i64, d1: i64, interval: Interval, ws: WeekStart) -> (r: Vec<i64>)
    requires
        365 <= d0 <= days_before_year(9999),
        365 <= d1 <= days_before_year(9999),
    ensures
        is_candidate_days(d0 as int, d1 as int, interval, ws, r@),
{
    match interval {
        Interval::Day => daily_days(d0, d1, ws),
        Interval::Week => weekly_days(d0, d1, ws),
        Interval::Month => monthly_days(d0, d1, ws),
    }
}

/// Whether a key already stands among the collected buckets.
#[verifier::spinoff_prover]
fn key_exists(rec: &Vec<Bucket>, key: &String) -> (r: bool)
    ensures
        r <==> exists|q: int| 0 <= q < rec.len() && ((#[trigger] rec[q]).key)@ == key@,
{
    let mut q: usize = 0;
    while q < rec.len()
        invariant
            0 <= q <= rec.len(),
            forall|i: int| 0 <= i < q ==> ((#[trigger] rec[i]).key)@ != key@,
        decreases rec.len() - q,
    {
        if rec[q].key == *key {
            return true;
        }
        q = q + 1;
    }
    false
}

/// The standing facts about the candidate-day list.
pub open spec fn days_ok(dd: Seq<i64>, interval: Interval, ws: WeekStart) -> bool {
    &&& forall|i: int| 0 <= i < dd.len() ==> 335 <= #[trigger] dd[i] <= days_before_year(9999)
    &&& forall|i: int|
        0 <= i < dd.len() ==> #[trigger] start_day_of(dd[i] as int, interval, ws) == dd[i]
    &&& forall|i: int, j: int| 0 <= i < j < dd.len() ==> #[trigger] dd[i] < #[trigger] dd[j]
}

/// The collection after the first `idx` candidate days: each day was
/// enumerable; `srcs[q]` names the included candidate day whose bucket
/// `out[q]` is, field for field, with a parseable start text; every
/// included day's key appears; starts are strictly ascending and keys
/// pairwise distinct.
pub open spec fn coll_ok(
    z: Seq<char>,
    dd: Seq<i64>,
    idx: int,
    interval: Interval,
    ws: WeekStart,
    sm: int,
    em: int,
    srcs: Seq<int>,
    out: Seq<Bucket>,
) -> bool {
    &&& forall|i: int| 0 <= i < idx ==> #[trigger] day_enumerable(z, dd[i] as int, interval, ws)
    &&& forall|i: int|
        0 <= i < idx ==> local_of(z, #[trigger] day_midnight_utc(z, dd[i] as int))
            == midnight_epoch_s(dd[i] as int)
    &&& srcs.len() == out.len()
    &&& forall|q: int|
        0 <= q < out.len() ==> 0 <= #[trigger] srcs[q] < idx && day_included(
            z,
            dd[srcs[q]] as int,
            interval,
            ws,
            sm,
            em,
        ) && entry_of(z, dd[srcs[q]] as int, interval, ws, out[q]) && ((out[q]).key)@ == day_key(
            z,
            dd[srcs[q]] as int,
            interval,
            ws,
        ) && rfc3339_ms((out[q]).start_utc@) == day_start_ms(z, dd[srcs[q]] as int, interval, ws)
    &&& forall|i: int|
        0 <= i < idx && #[trigger] day_included(z, dd[i] as int, interval, ws, sm, em)
            ==> exists|q: int|
            0 <= q < out.len() && ((#[trigger] out[q]).key)@ == day_key(z, dd[i] as int, interval, ws)
    &&& forall|q: int|
        0 <= q < out.len() ==> rfc3339_ok(((#[trigger] out[q])).start_utc@)
    &&& forall|q1: int, q2: int|
        0 <= q1 < q2 < out.len() ==> rfc3339_ms((#[trigger] out[q1]).start_utc@) < rfc3339_ms(
            (#[trigger] out[q2]).start_utc@,
        )
    &&& forall|q1: int, q2: int|
        0 <= q1 < q2 < out.len() ==> ((#[trigger] out[q1]).key)@ != ((#[trigger] out[q2]).key)@
}

/// Compute one candidate day's contribution: its bucket paired with
/// its start instant when it overlaps the interval, nothing when it
/// does not, an error when the day cannot be enumerated.
#[verifier::rlimit(100)]
#[verifier::spinoff_prover]
fn bucket_of_day(
    day: i64,
    z: &Zone,
    interval: Interval,
    ws: WeekStart,
    start_ms: i64,
    end_ms: i64,
) -> (r: Result<Option<Bucket>, CliError>)
    requires
        0 <= day < days_before_year(10000),
    ensures
        r is Ok <==> day_enumerable(z@, day as int, interval, ws),
        r is Ok ==> local_of(z@, day_midnight_utc(z@, day as int)) == midnight_epoch_s(day as int),
        r is Ok ==> ((r->Ok_0 is Some) <==> day_included(
            z@,
            day as int,
            interval,
            ws,
            start_ms as int,
            end_ms as int,
        )),
        r is Ok && r->Ok_0 is Some ==> ({
            let b = r->Ok_0->0;
            entry_of(z@, day as int, interval, ws, b) && b.key@ == day_key(
                z@,
                day as int,
                interval,
                ws,
            ) && rfc3339_ok(b.start_utc@) && rfc3339_ms(b.start_utc@) == day_start_ms(
                z@,
                day as int,
                interval,
                ws,
            )
        }),
        r is Err ==> r->Err_0.kind is Runtime,
{
    proof {
        reveal(crate::compute::bucket_spec);
        reveal(day_midnight_utc);
        reveal(day_instant_ms);
        reveal(day_enumerable);
        reveal(day_included);
        reveal(day_key);
        reveal(day_start_ms);
        reveal(entry_of);
        lemma_epoch_shift();
    }
    let bucket = match compute_bucket_for_date(day, z, interval, ws) {
        Ok(b) => b,
        Err(e) => {
            return Err(e);
        },
    };
    let ghost mi = day_instant_ms(z@, day as int);
    let sv = match crate::options::parse_rfc3339_to_utc(bucket.start_utc.as_str()) {
        Ok(v) => v,
        Err(e) => {
            proof {
                let s0 = bucket_start_utc_s(z@, mi, interval, ws);
                crate::parse::lemma_utc_round_trip(s0);
            }
            return Err(e);
        },
    };
    let ev = match crate::options::parse_rfc3339_to_utc(bucket.end_utc.as_str()) {
        Ok(v) => v,
        Err(e) => {
            proof {
                let t0 = bucket_end_utc_s(z@, mi, interval, ws);
                crate::parse::lemma_utc_round_trip(t0);
            }
            return Err(e);
        },
    };
    proof {
        let s0 = bucket_start_utc_s(z@, mi, interval, ws);
        let t0 = bucket_end_utc_s(z@, mi, interval, ws);
        crate::parse::lemma_utc_round_trip(s0);
        crate::parse::lemma_utc_round_trip(t0);
        assert(sv == s0 * 1000);
        assert(ev == t0 * 1000);
        assert(day_enumerable(z@, day as int, interval, ws));
    }
    if sv < end_ms && ev > start_ms {
        Ok(Some(bucket))
    } else {
        Ok(None)
    }
}

/// A day that contributes nothing new extends the collection
/// invariant unchanged: it is skipped when outside the interval or
/// when its key already stands.
#[verifier::spinoff_prover]
#[verifier::rlimit(100)]
proof fn lemma_skip_day(
    z: Seq<char>,
    dd: Seq<i64>,
    idx: int,
    interval: Interval,
    ws: WeekStart,
    sm: int,
    em: int,
    srcs: Seq<int>,
    rec: Seq<Bucket>,
)
    requires
        0 <= idx < dd.len(),
        coll_ok(z, dd, idx, interval, ws, sm, em, srcs, rec),
        day_enumerable(z, dd[idx] as int, interval, ws),
        local_of(z, day_midnight_utc(z, dd[idx] as int)) == midnight_epoch_s(dd[idx] as int),
        day_included(z, dd[idx] as int, interval, ws, sm, em) ==> exists|q: int|
            0 <= q < rec.len() && ((#[trigger] rec[q]).key)@ == day_key(
                z,
                dd[idx] as int,
                interval,
                ws,
            ),
    ensures
        coll_ok(z, dd, idx + 1, interval, ws, sm, em, srcs, rec),
{
    assert forall|i: int| 0 <= i < idx + 1 implies #[trigger] day_enumerable(
        z,
        dd[i] as int,
        interval,
        ws,
    ) by {
        if i == idx {
            assert(day_enumerable(z, dd[idx] as int, interval, ws));
        }
    }
    assert forall|i: int| 0 <= i < idx + 1 implies local_of(
        z,
        #[trigger] day_midnight_utc(z, dd[i] as int),
    ) == midnight_epoch_s(dd[i] as int) by {
        if i == idx {
            assert(local_of(z, day_midnight_utc(z, dd[idx] as int)) == midnight_epoch_s(
                dd[idx] as int,
            ));
        }
    }
    assert forall|q: int| 0 <= q < rec.len() implies 0 <= #[trigger] srcs[q] < idx + 1 by {
        assert(0 <= srcs[q] < idx);
    }
    assert forall|i: int|
        0 <= i < idx + 1 && #[trigger] day_included(z, dd[i] as int, interval, ws, sm, em) implies
        exists|q: int|
            0 <= q < rec.len() && ((#[trigger] rec[q]).key)@ == day_key(
                z,
                dd[i] as int,
                interval,
                ws,
            ) by {
        if i < idx {
            let q0 = choose|q: int|
                0 <= q < rec.len() && ((#[trigger] rec[q]).key)@ == day_key(
                    z,
                    dd[i] as int,
                    interval,
                    ws,
                );
        } else {
            let q0 = choose|q: int|
                0 <= q < rec.len() && ((#[trigger] rec[q]).key)@ == day_key(
                    z,
                    dd[idx] as int,
                    interval,
                    ws,
                );
        }
    }
}

/// The fresh bucket's start lies strictly past every collected start:
/// candidate days ascend, and so do their resolved midnights.
#[verifier::spinoff_prover]
#[verifier::rlimit(100)]
proof fn lemma_push_order(
    z: Seq<char>,
    dd: Seq<i64>,
    idx: int,
    interval: Interval,
    ws: WeekStart,
    sm: int,
    em: int,
    srcs: Seq<int>,
    rec: Seq<Bucket>,
    b: Bucket,
)
    requires
        zone_facts(z),
        0 <= idx < dd.len(),
        days_ok(dd, interval, ws),
        days_before_year(10000) == 3652425,
        days_before_year(9999) == 3652060,
        coll_ok(z, dd, idx, interval, ws, sm, em, srcs, rec),
        day_enumerable(z, dd[idx] as int, interval, ws),
        local_of(z, day_midnight_utc(z, dd[idx] as int)) == midnight_epoch_s(dd[idx] as int),
        rfc3339_ms(b.start_utc@) == day_start_ms(z, dd[idx] as int, interval, ws),
    ensures
        forall|q: int|
            0 <= q < rec.len() ==> rfc3339_ms((#[trigger] rec[q]).start_utc@) < rfc3339_ms(
                b.start_utc@,
            ),
{
    let di = dd[idx] as int;
    assert forall|q: int| 0 <= q < rec.len() implies rfc3339_ms((#[trigger] rec[q]).start_utc@)
        < rfc3339_ms(b.start_utc@) by {
        lemma_day_start_strict(z, dd[srcs[q]] as int, di, interval, ws);
    }
}

/// A fresh included day's bucket goes to the end of the collection,
/// where it keeps every clause of the invariant.
#[verifier::spinoff_prover]
#[verifier::rlimit(100)]
proof fn lemma_push_day(
    z: Seq<char>,
    dd: Seq<i64>,
    idx: int,
    interval: Interval,
    ws: WeekStart,
    sm: int,
    em: int,
    srcs: Seq<int>,
    rec: Seq<Bucket>,
    b: Bucket,
)
    requires
        0 <= idx < dd.len(),
        days_before_year(10000) == 3652425,
        days_before_year(9999) == 3652060,
        coll_ok(z, dd, idx, interval, ws, sm, em, srcs, rec),
        day_enumerable(z, dd[idx] as int, interval, ws),
        local_of(z, day_midnight_utc(z, dd[idx] as int)) == midnight_epoch_s(dd[idx] as int),
        day_included(z, dd[idx] as int, interval, ws, sm, em),
        entry_of(z, dd[idx] as int, interval, ws, b),
        b.key@ == day_key(z, dd[idx] as int, interval, ws),
        rfc3339_ok(b.start_utc@),
        rfc3339_ms(b.start_utc@) == day_start_ms(z, dd[idx] as int, interval, ws),
        forall|q: int| 0 <= q < rec.len() ==> ((#[trigger] rec[q]).key)@ != b.key@,
        forall|q: int|
            0 <= q < rec.len() ==> rfc3339_ms((#[trigger] rec[q]).start_utc@) < rfc3339_ms(
                b.start_utc@,
            ),
    ensures
        coll_ok(z, dd, idx + 1, interval, ws, sm, em, srcs.push(idx), rec.push(b)),
{
    let pushed = rec.push(b);
    let ps = srcs.push(idx);
    assert(forall|q: int| 0 <= q < rec.len() ==> #[trigger] pushed[q] == rec[q]);
    assert(forall|q: int| 0 <= q < srcs.len() ==> #[trigger] ps[q] == srcs[q]);
    assert(pushed[rec.len() as int] == b);
    assert(ps[srcs.len() as int] == idx);
    assert forall|i: int| 0 <= i < idx + 1 implies #[trigger] day_enumerable(
        z,
        dd[i] as int,
        interval,
        ws,
    ) by {
        if i == idx {
            assert(day_enumerable(z, dd[idx] as int, interval, ws));
        }
    }
    assert forall|i: int| 0 <= i < idx + 1 implies local_of(
        z,
        #[trigger] day_midnight_utc(z, dd[i] as int),
    ) == midnight_epoch_s(dd[i] as int) by {
        if i == idx {
            assert(local_of(z, day_midnight_utc(z, dd[idx] as int)) == midnight_epoch_s(
                dd[idx] as int,
            ));
        }
    }
    assert forall|q: int|
        0 <= q < pushed.len() implies 0 <= #[trigger] ps[q] < idx + 1 && day_included(
            z,
            dd[ps[q]] as int,
            interval,
            ws,
            sm,
            em,
        ) && entry_of(z, dd[ps[q]] as int, interval, ws, pushed[q]) && ((pushed[q]).key)@
            == day_key(z, dd[ps[q]] as int, interval, ws) && rfc3339_ms((pushed[q]).start_utc@)
            == day_start_ms(z, dd[ps[q]] as int, interval, ws) by {
        if q < rec.len() {
            assert(ps[q] == srcs[q]);
            assert(pushed[q] == rec[q]);
            assert(0 <= srcs[q] < idx);
        } else {
            assert(ps[q] == idx);
            assert(pushed[q] == b);
        }
    }
    assert forall|q: int| 0 <= q < pushed.len() implies rfc3339_ok(
        ((#[trigger] pushed[q])).start_utc@,
    ) by {
        if q < rec.len() {
            assert(pushed[q] == rec[q]);
        } else {
            assert(pushed[q] == b);
        }
    }
    assert forall|q1: int, q2: int| 0 <= q1 < q2 < pushed.len() implies rfc3339_ms(
        (#[trigger] pushed[q1]).start_utc@,
    ) < rfc3339_ms((#[trigger] pushed[q2]).start_utc@) by {
        assert(pushed[q1] == rec[q1]);
        if q2 < rec.len() {
            assert(pushed[q2] == rec[q2]);
        } else {
            assert(pushed[q2] == b);
        }
    }
    assert forall|q1: int, q2: int| 0 <= q1 < q2 < pushed.len() implies ((
    #[trigger] pushed[q1]).key)@ != ((#[trigger] pushed[q2]).key)@ by {
        assert(pushed[q1] == rec[q1]);
        if q2 < rec.len() {
            assert(pushed[q2] == rec[q2]);
        } else {
            assert(pushed[q2] == b);
        }
    }
    assert forall|i: int|
        0 <= i < idx + 1 && #[trigger] day_included(z, dd[i] as int, interval, ws, sm, em) implies
        exists|q: int|
            0 <= q < pushed.len() && ((#[trigger] pushed[q]).key)@ == day_key(
                z,
                dd[i] as int,
                interval,
                ws,
            ) by {
        if i < idx {
            let q0 = choose|q: int|
                0 <= q < rec.len() && ((#[trigger] rec[q]).key)@ == day_key(
                    z,
                    dd[i] as int,
                    interval,
                    ws,
                );
            assert(((pushed[q0]).key)@ == day_key(z, dd[i] as int, interval, ws));
        } else {
            assert(((pushed[rec.len() as int]).key)@ == day_key(z, dd[i] as int, interval, ws));
        }
    }
}

/// Fold one candidate day into the collection, returning the updated
/// witness list of source-day indexes.
#[verifier::rlimit(100)]
#[verifier::spinoff_prover]
fn absorb_day(
    rec: &mut Vec<Bucket>,
    day: i64,
    Ghost(dd): Ghost<Seq<i64>>,
    Ghost(idx): Ghost<int>,
    Ghost(srcs): Ghost<Seq<int>>,
    z: &Zone,
    interval: Interval,
    ws: WeekStart,
    start_ms: i64,
    end_ms: i64,
) -> (r: Result<Ghost<Seq<int>>, CliError>)
    requires
        0 <= idx < dd.len(),
        dd[idx] == day,
        days_ok(dd, interval, ws),
        coll_ok(z@, dd, idx, interval, ws, start_ms as int, end_ms as int, srcs, old(rec)@),
        days_before_year(10000) == 3652425,
        days_before_year(9999) == 3652060,
    ensures
        r is Ok ==> coll_ok(
            z@,
            dd,
            idx + 1,
            interval,
            ws,
            start_ms as int,
            end_ms as int,
            r->Ok_0@,
            final(rec)@,
        ),
        r is Err ==> r->Err_0.kind is Runtime && !day_enumerable(z@, day as int, interval, ws),
{
    let ghost zv = z@;
    let ghost sm = start_ms as int;
    let ghost em = end_ms as int;
    let step = match bucket_of_day(day, z, interval, ws, start_ms, end_ms) {
        Ok(s) => s,
        Err(e) => {
            return Err(e);
        },
    };
    match step {
        None => {
            proof {
                lemma_skip_day(zv, dd, idx, interval, ws, sm, em, srcs, rec@);
            }
            Ok(Ghost(srcs))
        },
        Some(b) => {
            if key_exists(rec, &b.key) {
                proof {
                    lemma_skip_day(zv, dd, idx, interval, ws, sm, em, srcs, rec@);
                }
                Ok(Ghost(srcs))
            } else {
                proof {
                    use_type_invariant(z);
                    lemma_push_order(zv, dd, idx, interval, ws, sm, em, srcs, rec@, b);
                    lemma_push_day(zv, dd, idx, interval, ws, sm, em, srcs, rec@, b);
                }
                rec.push(b);
                Ok(Ghost(srcs.push(idx)))
            }
        },
    }
}

/// A successful enumeration result: for the (unique) candidate-day
/// list of the interval, some witness assignment satisfies the full
/// collection contract over the returned buckets.
pub open spec fn range_result_ok(
    z: Seq<char>,
    interval: Interval,
    ws: WeekStart,
    sm: int,
    em: int,
    out: Seq<Bucket>,
) -> bool {
    exists|dd: Seq<i64>|
        #[trigger] is_candidate_days(local_day(z, sm), local_day(z, em), interval, ws, dd) && (
        exists|srcs: Seq<int>|
            #[trigger] coll_ok(z, dd, dd.len() as int, interval, ws, sm, em, srcs, out))
}

/// A failed enumeration: some candidate day cannot be enumerated.
pub open spec fn range_result_err(
    z: Seq<char>,
    interval: Interval,
    ws: WeekStart,
    sm: int,
    em: int,
) -> bool {
    exists|dd: Seq<i64>|
        #[trigger] is_candidate_days(local_day(z, sm), local_day(z, em), interval, ws, dd) && (
        exists|i: int|
            0 <= i < dd.len() && !(#[trigger] day_enumerable(z, dd[i] as int, interval, ws)))
}

/// Enumerate the buckets overlapping `[start_ms, end_ms)` in a zone.
///
/// The result is pinned by [`coll_ok`] over the candidate days: every
/// returned bucket is, field for field, the bucket of an included
/// candidate day; every included candidate day's key appears exactly
/// once; and the list ascends strictly by resolved start instant.  The
/// enumeration fails, with a runtime-kind error, when some candidate
/// day cannot be enumerated; the candidate list itself is unique by
/// [`lemma_candidate_days_unique`].
#[verifier::spinoff_prover]
#[verifier::rlimit(100)]
pub fn generate_buckets_in_range(
    start_ms: i64,
    end_ms: i64,
    z: &Zone,
    interval: Interval,
    ws: WeekStart,
) -> (r: Result<Vec<Bucket>, CliError>)
    requires
        valid_epoch_ms(start_ms as int),
        valid_epoch_ms(end_ms as int),
    ensures
        r is Ok ==> range_result_ok(
            z@,
            interval,
            ws,
            start_ms as int,
            end_ms as int,
            r->Ok_0@,
        ),
        r is Err ==> r->Err_0.kind is Runtime && range_result_err(
            z@,
            interval,
            ws,
            start_ms as int,
            end_ms as int,
        ),
{
    proof {
        lemma_epoch_shift();
    }
    let d0 = local_day_exec(start_ms, z);
    let d1 = local_day_exec(end_ms, z);
    let days = candidate_days(d0, d1, interval, ws);
    proof {
        lemma_candidate_days_props(d0 as int, d1 as int, interval, ws, days@);
        assert(days_ok(days@, interval, ws));
    }
    let ghost zv = z@;
    let ghost dd = days@;
    let ghost sm = start_ms as int;
    let ghost em = end_ms as int;
    let mut rec: Vec<Bucket> = Vec::new();
    let ghost mut srcs: Seq<int> = Seq::empty();
    let mut idx: usize = 0;
    while idx < days.len()
        invariant
            0 <= idx <= days.len(),
            zv == z@,
            dd == days@,
            sm == start_ms as int,
            em == end_ms as int,
            d0 as int == local_day(zv, sm),
            d1 as int == local_day(zv, em),
            is_candidate_days(d0 as int, d1 as int, interval, ws, dd),
            days_before_year(10000) == 3652425,
            days_before_year(9999) == 3652060,
            days_ok(dd, interval, ws),
            coll_ok(zv, dd, idx as int, interval, ws, sm, em, srcs, rec@),
        decreases days.len() - idx,
    {
        let day = days[idx];
        match absorb_day(&mut rec, day, Ghost(dd), Ghost(idx as int), Ghost(srcs), z, interval,
            ws, start_ms, end_ms) {
            Ok(new_srcs) => {
                proof {
                    srcs = new_srcs@;
                }
            },
            Err(e) => {
                proof {
                    assert(!day_enumerable(z@, dd[idx as int] as int, interval, ws));
                    assert(is_candidate_days(
                        local_day(z@, start_ms as int),
                        local_day(z@, end_ms as int),
                        interval,
                        ws,
                        dd,
                    ));
                    assert(range_result_err(z@, interval, ws, start_ms as int, end_ms as int));
                }
                return Err(e);
            },
        }
        idx = idx + 1;
    }
    proof {
        assert(coll_ok(
            z@,
            dd,
            dd.len() as int,
            interval,
            ws,
            start_ms as int,
            end_ms as int,
            srcs,
            rec@,
        ));
        assert(is_candidate_days(
            local_day(z@, start_ms as int),
            local_day(z@, end_ms as int),
            interval,
            ws,
            dd,
        ));
        assert(range_result_ok(z@, interval, ws, start_ms as int, end_ms as int, rec@));
    }
    Ok(rec)
}

} // verus!
