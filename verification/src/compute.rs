//! Bucket computation.
//!
//! A bucket's boundaries are derived entirely in local calendar
//! arithmetic — the local date of the instant, then the day, week or
//! month bracket around it — and each boundary midnight is then
//! resolved to UTC independently.  That is what makes a spring-forward
//! day a 23-hour bucket and a fall-back day a 25-hour one.

use vstd::prelude::*;

use crate::cal::{
    civil_of_day, day_number, day_of_civil, days_before_month, days_before_year, days_in_month,
    days_in_year, dom_of_day, lemma_day_split, lemma_days_before_year_mono, month_of_day,
    weekday_from_monday, weekday_from_monday_exec, weekday_from_sunday, weekday_from_sunday_exec,
    year_of_day,
};
use crate::epoch::{epoch_shift_s, lemma_epoch_shift, lemma_valid_ms_to_s, ms_to_s, sec_of_ms,
    valid_epoch_ms};
use crate::error::TzBucketError;
use crate::models::{Bucket, BucketResult, InputTimestamp, Interval, WeekStart};
use crate::parse::{parse_timestamp, parse_timestamp_spec, TimestampFormat};
use crate::render::{
    date_text, local_text, month_text, render_date, render_local, render_month, render_utc,
    utc_text,
};
use crate::text::trimmed;
use crate::tz::{
    local_midnight_to_utc, local_of, midnight_epoch_s, parse_tz, probe_s, resolve_local_spec,
    utc_candidates_of, utc_to_local, zone_facts, Zone,
};

verus! {

/// The week start actually used: Monday when none was given.
pub open spec fn week_start_or_default(ws: Option<WeekStart>) -> WeekStart {
    match ws {
        Some(w) => w,
        None => WeekStart::Monday,
    }
}

/// Days since the configured week start for a day number.
pub open spec fn days_since_week_start(n: int, ws: WeekStart) -> int {
    match ws {
        WeekStart::Monday => weekday_from_monday(n),
        WeekStart::Sunday => weekday_from_sunday(n),
    }
}

/// The first local day of the bucket around local day `d`.
pub open spec fn start_day_of(d: int, interval: Interval, ws: WeekStart) -> int {
    match interval {
        Interval::Day => d,
        Interval::Week => d - days_since_week_start(d, ws),
        Interval::Month => day_number(year_of_day(d), month_of_day(d), 1),
    }
}

/// The first local day after the bucket around local day `d`.
pub open spec fn end_day_of(d: int, interval: Interval, ws: WeekStart) -> int {
    match interval {
        Interval::Day => d + 1,
        Interval::Week => start_day_of(d, interval, ws) + 7,
        Interval::Month => if month_of_day(d) == 12 {
            day_number(year_of_day(d) + 1, 1, 1)
        } else {
            day_number(year_of_day(d), month_of_day(d) + 1, 1)
        },
    }
}

/// The bucket key for local day `d`: start date for day and week
/// buckets, the day's month for month buckets.
pub open spec fn key_text_of(d: int, interval: Interval, ws: WeekStart) -> Seq<char> {
    match interval {
        Interval::Month => month_text(d),
        _ => date_text(start_day_of(d, interval, ws)),
    }
}

/// The local calendar day (as a day number) on which an instant falls
/// in a zone.
pub open spec fn local_day(z: Seq<char>, ms: int) -> int {
    (local_of(z, sec_of_ms(ms)) + epoch_shift_s()) / 86400
}

pub open spec fn bucket_start_day(z: Seq<char>, ms: int, interval: Interval, ws: WeekStart) -> int {
    start_day_of(local_day(z, ms), interval, ws)
}

pub open spec fn bucket_end_day(z: Seq<char>, ms: int, interval: Interval, ws: WeekStart) -> int {
    end_day_of(local_day(z, ms), interval, ws)
}

pub open spec fn bucket_key_text(
    z: Seq<char>,
    ms: int,
    interval: Interval,
    ws: WeekStart,
) -> Seq<char> {
    key_text_of(local_day(z, ms), interval, ws)
}

/// The UTC instant the bucket starts at: its start midnight, resolved.
pub open spec fn bucket_start_utc_s(
    z: Seq<char>,
    ms: int,
    interval: Interval,
    ws: WeekStart,
) -> int {
    resolve_local_spec(z, midnight_epoch_s(bucket_start_day(z, ms, interval, ws)))
}

/// The UTC instant the bucket ends at: its end midnight, resolved.
pub open spec fn bucket_end_utc_s(z: Seq<char>, ms: int, interval: Interval, ws: WeekStart) -> int {
    resolve_local_spec(z, midnight_epoch_s(bucket_end_day(z, ms, interval, ws)))
}

/// What every field of a computed bucket reads.
#[verifier::opaque]
pub open spec fn bucket_spec(
    z: Seq<char>,
    ms: int,
    interval: Interval,
    ws: WeekStart,
    b: Bucket,
) -> bool {
    let s = bucket_start_utc_s(z, ms, interval, ws);
    let t = bucket_end_utc_s(z, ms, interval, ws);
    &&& b.key@ == bucket_key_text(z, ms, interval, ws)
    &&& b.start_utc@ == utc_text(s)
    &&& b.end_utc@ == utc_text(t)
    &&& b.start_local@ == local_text(s, local_of(z, s) - s)
    &&& b.end_local@ == local_text(t, local_of(z, t) - t)
}

/// The bucket days bracket the local day and stay in the renderable
/// window.
pub proof fn lemma_day_bracket(d: int, interval: Interval, ws: WeekStart)
    requires
        365 <= d <= days_before_year(9999),
    ensures
        start_day_of(d, interval, ws) <= d < end_day_of(d, interval, ws),
        d - 30 <= start_day_of(d, interval, ws),
        end_day_of(d, interval, ws) <= start_day_of(d, interval, ws) + 31,
        0 <= start_day_of(d, interval, ws),
        end_day_of(d, interval, ws) < days_before_year(10000),
{
    lemma_epoch_shift();
    match interval {
        Interval::Day => {
        },
        Interval::Week => {
            assert(0 <= (d + 5) % 7 < 7 && 0 <= (d + 6) % 7 < 7) by (nonlinear_arith);
        },
        Interval::Month => {
            lemma_day_split(d);
            let y = year_of_day(d);
            let m = month_of_day(d);
            let dom = dom_of_day(d);
            assert(days_before_month(y, m + 1) == days_before_month(y, m) + days_in_month(y, m));
            crate::cal::lemma_days_before_month_full(y);
            assert(day_number(y, m, 1) == d - (dom - 1));
            if m == 12 {
                assert(days_before_year(y + 1) == days_before_year(y) + days_in_year(y));
                assert(day_number(y + 1, 1, 1) == days_before_year(y + 1));
                assert(end_day_of(d, interval, ws) == day_number(y, m, 1) + days_in_month(y, m));
            } else {
                assert(end_day_of(d, interval, ws) == day_number(y, m, 1) + days_in_month(y, m));
            }
        },
    }
}

/// Compute the bucket days and key for local day `d`.
fn bucket_days(d: i64, interval: Interval, ws: WeekStart) -> (r: (i64, i64, String))
    requires
        365 <= d <= days_before_year(9999),
    ensures
        r.0 == start_day_of(d as int, interval, ws),
        r.1 == end_day_of(d as int, interval, ws),
        r.2@ == key_text_of(d as int, interval, ws),
{
    proof {
        lemma_epoch_shift();
        lemma_day_bracket(d as int, interval, ws);
    }
    match interval {
        Interval::Day => {
            let k = render_date(d);
            (d, d + 1, k)
        },
        Interval::Week => {
            let wd = match ws {
                WeekStart::Monday => weekday_from_monday_exec(d),
                WeekStart::Sunday => weekday_from_sunday_exec(d),
            };
            let s = d - wd;
            let k = render_date(s);
            (s, s + 7, k)
        },
        Interval::Month => {
            let cd = civil_of_day(d);
            proof {
                lemma_day_split(d as int);
                if cd.month == 12 && cd.year + 1 > 9999 {
                    lemma_days_before_year_mono(10000, cd.year as int + 1);
                    assert(false);
                }
            }
            let s = day_of_civil(cd.year, cd.month, 1);
            let e2: i64 = if cd.month == 12 {
                day_of_civil(cd.year + 1, 1, 1)
            } else {
                day_of_civil(cd.year, cd.month + 1, 1)
            };
            proof {
                assert(day_number(cd.year as int + 1, 1, 1) == days_before_year(cd.year as int + 1));
            }
            let k = render_month(d);
            (s, e2, k)
        },
    }
}

/// Compute a time bucket for a UTC instant given in epoch milliseconds.
///
/// The instant's local calendar date in the zone fixes the bucket; each
/// of the two boundary midnights is then resolved to UTC on its own
/// ([`resolve_local_spec`]), and the local boundary texts are re-derived
/// from those resolved instants so they carry the offsets actually in
/// effect.
pub fn local_day_exec(instant_ms: i64, z: &Zone) -> (r: i64)
    requires
        valid_epoch_ms(instant_ms as int),
    ensures
        r == local_day(z@, instant_ms as int),
        365 <= r <= days_before_year(9999),
{
    proof {
        lemma_epoch_shift();
    }
    let e = ms_to_s(instant_ms);
    proof {
        crate::tz::lemma_valid_probe(e as int);
    }
    let local_s = utc_to_local(e, z);
    let la: i64 = local_s + 62167219200;
    proof {
        assert(la == local_of(z@, e as int) + epoch_shift_s());
        assert(365 * 86400 <= la < (days_before_year(9999) + 1) * 86400);
    }
    let d: i64 = la / 86400;
    proof {
        vstd::arithmetic::div_mod::lemma_div_is_ordered(365int * 86400, la as int, 86400);
        assert(365int * 86400 / 86400 == 365);
        vstd::arithmetic::div_mod::lemma_multiply_divide_lt(
            la as int,
            days_before_year(9999) + 1,
            86400,
        );
        assert(d == local_day(z@, instant_ms as int));
        assert(365 <= d <= days_before_year(9999));
    }
    d
}

#[verifier::rlimit(100)]
pub fn compute_bucket(
    instant_ms: i64,
    z: &Zone,
    interval: Interval,
    week_start: Option<WeekStart>,
) -> (b: Bucket)
    requires
        valid_epoch_ms(instant_ms as int),
    ensures
        bucket_spec(z@, instant_ms as int, interval, week_start_or_default(week_start), b),
        crate::epoch::renderable_epoch_s(
            bucket_start_utc_s(z@, instant_ms as int, interval, week_start_or_default(week_start)),
        ),
        crate::epoch::renderable_epoch_s(
            bucket_end_utc_s(z@, instant_ms as int, interval, week_start_or_default(week_start)),
        ),
        ({
            let s = bucket_start_utc_s(z@, instant_ms as int, interval, week_start_or_default(week_start));
            let m = midnight_epoch_s(bucket_start_day(z@, instant_ms as int, interval, week_start_or_default(week_start)));
            -86400 < s - m < 86400 || s == m
        }),
        ({
            let t = bucket_end_utc_s(z@, instant_ms as int, interval, week_start_or_default(week_start));
            let m = midnight_epoch_s(bucket_end_day(z@, instant_ms as int, interval, week_start_or_default(week_start)));
            -86400 < t - m < 86400 || t == m
        }),
        bucket_start_utc_s(z@, instant_ms as int, interval, week_start_or_default(week_start))
            < bucket_end_utc_s(z@, instant_ms as int, interval, week_start_or_default(week_start)),
{
    proof {
        reveal(bucket_spec);
        lemma_epoch_shift();
    }
    let d = local_day_exec(instant_ms, z);
    let ws = match week_start {
        Some(w) => w,
        None => WeekStart::Monday,
    };
    let (start_day, end_day, key) = bucket_days(d, interval, ws);
    proof {
        lemma_day_bracket(d as int, interval, ws);
    }
    let start_utc = local_midnight_to_utc(start_day, z);
    let end_utc = local_midnight_to_utc(end_day, z);
    proof {
        assert(probe_s(start_utc as int));
        assert(probe_s(end_utc as int));
        use_type_invariant(z);
        let zv = z@;
        let sm = midnight_epoch_s(start_day as int);
        let em = midnight_epoch_s(end_day as int);
        assert(probe_s(sm));
        assert(probe_s(em));
        assert(em - sm >= 86400);
        let cs = utc_candidates_of(zv, sm);
        let ce = utc_candidates_of(zv, em);
        if cs.len() > 0 && ce.len() > 0 {
            assert(cs.first() < ce.first());
        }
        assert(start_utc < end_utc);
    }
    let start_off = utc_to_local(start_utc, z) - start_utc;
    let end_off = utc_to_local(end_utc, z) - end_utc;
    let start_local = render_local(start_utc, start_off);
    let end_local = render_local(end_utc, end_off);
    let start_utc_text = render_utc(start_utc);
    let end_utc_text = render_utc(end_utc);
    Bucket { key, start_local, end_local, start_utc: start_utc_text, end_utc: end_utc_text }
}


/// Compute a complete bucket record from a timestamp string: parse the
/// zone, parse the timestamp, compute the bucket.
pub fn compute_bucket_from_string(
    input: &str,
    format: TimestampFormat,
    tz_name: &str,
    interval: Interval,
    week_start: Option<WeekStart>,
) -> (r: Result<BucketResult, TzBucketError>)
    ensures
        r is Ok <==> crate::tz::is_zone_name(tz_name@) && parse_timestamp_spec(
            trimmed(input@),
            format,
        ) is Some,
        r is Ok ==> ({
            let ms = parse_timestamp_spec(trimmed(input@), format)->0;
            &&& r->Ok_0.input.ts@ == trimmed(input@)
            &&& r->Ok_0.input.epoch_ms == ms
            &&& r->Ok_0.tz@ == tz_name@
            &&& r->Ok_0.interval == interval
            &&& bucket_spec(tz_name@, ms, interval, week_start_or_default(week_start), r->Ok_0.bucket)
        }),
        !crate::tz::is_zone_name(tz_name@) ==> r is Err && r->Err_0 is InvalidTimezone,
        crate::tz::is_zone_name(tz_name@) && parse_timestamp_spec(trimmed(input@), format) is None
            ==> r is Err && r->Err_0 is ParseError,
{
    let z = match parse_tz(tz_name) {
        Ok(z) => z,
        Err(e) => {
            return Err(e);
        },
    };
    let ms = match parse_timestamp(input, format) {
        Ok(m) => m,
        Err(e) => {
            return Err(e);
        },
    };
    proof {
        crate::parse::lemma_parse_gives_valid(trimmed(input@), format);
    }
    let bucket = compute_bucket(ms, &z, interval, week_start);
    let ts = crate::text::trim_spaces(input);
    Ok(
        BucketResult {
            input: InputTimestamp { ts, epoch_ms: ms },
            tz: tz_name.to_owned(),
            interval,
            bucket,
        },
    )
}

/// On a local day with no transition — both boundary midnights of a
/// day bucket resolve uniquely, with the same UTC offset — the bucket
/// spans exactly 24 hours of real time.
pub proof fn lemma_day_bucket_24_hours(z: Seq<char>, ms: int, ws: WeekStart)
    requires
        utc_candidates_of(z, midnight_epoch_s(bucket_start_day(z, ms, Interval::Day, ws))).len()
            == 1,
        utc_candidates_of(z, midnight_epoch_s(bucket_end_day(z, ms, Interval::Day, ws))).len()
            == 1,
        midnight_epoch_s(bucket_start_day(z, ms, Interval::Day, ws)) - utc_candidates_of(
            z,
            midnight_epoch_s(bucket_start_day(z, ms, Interval::Day, ws)),
        ).first() == midnight_epoch_s(bucket_end_day(z, ms, Interval::Day, ws))
            - utc_candidates_of(
            z,
            midnight_epoch_s(bucket_end_day(z, ms, Interval::Day, ws)),
        ).first(),
    ensures
        bucket_end_utc_s(z, ms, Interval::Day, ws) - bucket_start_utc_s(z, ms, Interval::Day, ws)
            == 86400,
{
    let d = local_day(z, ms);
    assert(bucket_end_day(z, ms, Interval::Day, ws) == d + 1);
    assert(midnight_epoch_s(d + 1) - midnight_epoch_s(d) == 86400);
}

/// `compute_bucket` is a pure function of its inputs: any two buckets
/// meeting its contract for the same inputs read identically, field by
/// field.
pub proof fn lemma_bucket_deterministic(
    z: Seq<char>,
    ms: int,
    interval: Interval,
    ws: WeekStart,
    b1: Bucket,
    b2: Bucket,
)
    requires
        bucket_spec(z, ms, interval, ws, b1),
        bucket_spec(z, ms, interval, ws, b2),
    ensures
        b1.key@ == b2.key@,
        b1.start_local@ == b2.start_local@,
        b1.end_local@ == b2.end_local@,
        b1.start_utc@ == b2.start_utc@,
        b1.end_utc@ == b2.end_utc@,
{
    reveal(bucket_spec);
}

/// An instant lies inside its own bucket: at or after the resolved
/// start boundary and strictly before the resolved end boundary.
///
/// The start midnight must resolve to at least one instant, and the
/// end midnight to exactly one: when a fall-back overlap covers the
/// end midnight itself, an instant on the repeated stretch of evening
/// can land at or past the earliest reading of that midnight, and the
/// property genuinely fails.
pub proof fn lemma_bucket_brackets_instant(
    z: Seq<char>,
    ms: int,
    interval: Interval,
    ws: WeekStart,
)
    requires
        valid_epoch_ms(ms),
        zone_facts(z),
        utc_candidates_of(z, midnight_epoch_s(bucket_start_day(z, ms, interval, ws))).len() >= 1,
        utc_candidates_of(z, midnight_epoch_s(bucket_end_day(z, ms, interval, ws))).len() == 1,
    ensures
        bucket_start_utc_s(z, ms, interval, ws) * 1000 <= ms,
        ms < bucket_end_utc_s(z, ms, interval, ws) * 1000,
{
    lemma_epoch_shift();
    lemma_valid_ms_to_s(ms);
    crate::epoch::lemma_sec_of_ms(ms);
    let e = sec_of_ms(ms);
    crate::tz::lemma_valid_probe(e);
    let l = local_of(z, e);
    assert(utc_candidates_of(z, l).contains(e));
    assert(-86400 < l - e < 86400);
    let la = l + epoch_shift_s();
    let d = local_day(z, ms);
    assert(d == la / 86400);
    assert(la == 86400 * d + la % 86400 && 0 <= la % 86400 < 86400) by (nonlinear_arith)
        requires d == la / 86400, la > 0;
    assert(365 * 86400 <= la < (days_before_year(9999) + 1) * 86400);
    assert(365 <= d <= days_before_year(9999));
    lemma_day_bracket(d, interval, ws);
    let sd = bucket_start_day(z, ms, interval, ws);
    let ed = bucket_end_day(z, ms, interval, ws);
    let m = midnight_epoch_s(sd);
    let m2 = midnight_epoch_s(ed);
    assert(m <= l);
    assert(l < m2);
    assert(probe_s(l));
    assert(probe_s(m));
    assert(probe_s(m2));
    let cs = utc_candidates_of(z, m);
    let cl = utc_candidates_of(z, l);
    let ce = utc_candidates_of(z, m2);
    assert(cl.len() > 0);
    assert(cl.len() <= 2 && (cl.len() == 2 ==> cl[0] < cl[1]));
    assert(cs.len() <= 2 && (cs.len() == 2 ==> cs[0] < cs[1]));
    let i = choose|i: int| 0 <= i < cl.len() && cl[i] == e;
    assert(cl.first() <= e <= cl.last());
    if m < l {
        assert(cs.first() < cl.first() && cs.last() < cl.last());
    }
    assert(bucket_start_utc_s(z, ms, interval, ws) == cs.first());
    assert(cs.first() <= e);
    assert(cs.first() * 1000 <= e * 1000);
    assert(ce.first() == ce.last());
    assert(cl.last() < ce.last());
    assert(e < ce.first());
    assert(bucket_end_utc_s(z, ms, interval, ws) == ce.first());
    assert(ms < ce.first() * 1000);
}

} // verus!
