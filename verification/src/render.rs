//! Rendering of instants and dates as fixed-layout calendar text:
//! `YYYY-MM-DD`, `YYYY-MM`, and RFC3339 date-times with either a `Z`
//! suffix or an explicit `+HH:MM`/`-HH:MM` offset.

use vstd::prelude::*;

use crate::cal::{
    civil_of_day, days_before_year, dom_of_day, lemma_year_of_day, month_of_day, year_of_day,
};
use crate::epoch::{abs_of, abs_of_exec, lemma_epoch_shift, renderable_epoch_s};
use crate::text::{dec_fixed, pow10, push_dec_fixed};
use vstd::string::StringExecFns;

verus! {

/// The `YYYY-MM-DD` text of a day number.
pub open spec fn date_text(n: int) -> Seq<char> {
    dec_fixed(year_of_day(n), 4) + seq!['-'] + dec_fixed(month_of_day(n), 2) + seq!['-']
        + dec_fixed(dom_of_day(n), 2)
}

/// The `YYYY-MM` text of a day number's month.
pub open spec fn month_text(n: int) -> Seq<char> {
    dec_fixed(year_of_day(n), 4) + seq!['-'] + dec_fixed(month_of_day(n), 2)
}

/// The `HH:MM:SS` text of a second of day.
pub open spec fn time_text(sod: int) -> Seq<char> {
    dec_fixed(sod / 3600, 2) + seq![':'] + dec_fixed(sod % 3600 / 60, 2) + seq![':'] + dec_fixed(
        sod % 60,
        2,
    )
}

/// The `YYYY-MM-DDTHH:MM:SS` text of a count of seconds since 0000-01-01.
pub open spec fn naive_text(a: int) -> Seq<char> {
    date_text(a / 86400) + seq!['T'] + time_text(a % 86400)
}

/// The `+HH:MM` or `-HH:MM` suffix for a UTC offset in seconds.  Seconds
/// of offset below a whole minute are dropped.
pub open spec fn offset_suffix(off: int) -> Seq<char> {
    let mag = if off >= 0 {
        off
    } else {
        -off
    };
    let sign = if off >= 0 {
        seq!['+']
    } else {
        seq!['-']
    };
    sign + dec_fixed(mag / 3600, 2) + seq![':'] + dec_fixed(mag % 3600 / 60, 2)
}

/// The UTC rendering of an instant: naive text plus `Z`.
pub open spec fn utc_text(e: int) -> Seq<char> {
    naive_text(abs_of(e)) + seq!['Z']
}

/// The local rendering of an instant under a UTC offset: the shifted
/// wall clock plus the offset suffix.
pub open spec fn local_text(e: int, off: int) -> Seq<char> {
    naive_text(abs_of(e) + off) + offset_suffix(off)
}

pub proof fn lemma_pow10_small()
    ensures
        pow10(2) == 100,
        pow10(3) == 1000,
        pow10(4) == 10000,
{
    reveal_with_fuel(pow10, 5);
}

/// Append the `YYYY-MM-DD` text of day number `n`.
pub fn push_date(out: &mut String, n: i64)
    requires
        0 <= n < days_before_year(10000),
    ensures
        final(out)@ == old(out)@ + date_text(n as int),
{
    proof {
        lemma_pow10_small();
        reveal_strlit("-");
    }
    let cd = civil_of_day(n);
    push_dec_fixed(out, cd.year, 4);
    out.append("-");
    push_dec_fixed(out, cd.month, 2);
    out.append("-");
    push_dec_fixed(out, cd.day, 2);
    proof {
        assert(final(out)@ =~= old(out)@ + date_text(n as int));
    }
}

/// Append the `YYYY-MM` text of day number `n`.
pub fn push_month(out: &mut String, n: i64)
    requires
        0 <= n < days_before_year(10000),
    ensures
        final(out)@ == old(out)@ + month_text(n as int),
{
    proof {
        lemma_pow10_small();
        reveal_strlit("-");
    }
    let cd = civil_of_day(n);
    push_dec_fixed(out, cd.year, 4);
    out.append("-");
    push_dec_fixed(out, cd.month, 2);
    proof {
        assert(final(out)@ =~= old(out)@ + month_text(n as int));
    }
}

/// Append the `HH:MM:SS` text of a second of day.
pub fn push_time(out: &mut String, sod: i64)
    requires
        0 <= sod < 86400,
    ensures
        final(out)@ == old(out)@ + time_text(sod as int),
{
    proof {
        lemma_pow10_small();
        reveal_strlit(":");
    }
    push_dec_fixed(out, sod / 3600, 2);
    out.append(":");
    push_dec_fixed(out, sod % 3600 / 60, 2);
    out.append(":");
    push_dec_fixed(out, sod % 60, 2);
    proof {
        assert(final(out)@ =~= old(out)@ + time_text(sod as int));
    }
}

/// Append the `YYYY-MM-DDTHH:MM:SS` text of seconds since 0000-01-01.
pub fn push_naive(out: &mut String, a: i64)
    requires
        0 <= a < days_before_year(10000) * 86400,
    ensures
        final(out)@ == old(out)@ + naive_text(a as int),
{
    proof {
        reveal_strlit("T");
        lemma_epoch_shift();
        assert(a as int == 86400 * (a as int / 86400) + a as int % 86400 && 0 <= a as int % 86400
            < 86400) by (nonlinear_arith);
        let dmax = days_before_year(10000);
        assert(a as int / 86400 < dmax) by (nonlinear_arith)
            requires
                (a as int) < dmax * 86400,
                a as int == 86400 * (a as int / 86400) + a as int % 86400,
                0 <= a as int % 86400;
    }
    let day: i64 = a / 86400;
    let sod: i64 = a % 86400;
    push_date(out, day);
    out.append("T");
    push_time(out, sod);
    proof {
        assert(final(out)@ =~= old(out)@ + naive_text(a as int));
    }
}

/// Render an instant in UTC, `YYYY-MM-DDTHH:MM:SSZ`.
pub fn render_utc(e: i64) -> (r: String)
    requires
        renderable_epoch_s(e as int),
    ensures
        r@ == utc_text(e as int),
{
    proof {
        reveal_strlit("Z");
    }
    let a = abs_of_exec(e);
    let mut out = String::new();
    push_naive(&mut out, a);
    out.append("Z");
    proof {
        assert(out@ =~= utc_text(e as int));
    }
    out
}

/// Render an instant as local wall-clock text under the given UTC
/// offset, `YYYY-MM-DDTHH:MM:SS+HH:MM`.
pub fn render_local(e: i64, off: i64) -> (r: String)
    requires
        renderable_epoch_s(e as int),
        -86400 < off < 86400,
        0 <= abs_of(e as int) + off < days_before_year(10000) * 86400,
    ensures
        r@ == local_text(e as int, off as int),
{
    proof {
        reveal_strlit("+");
        reveal_strlit("-");
        reveal_strlit(":");
        lemma_pow10_small();
        lemma_epoch_shift();
    }
    let a = abs_of_exec(e);
    let mut out = String::new();
    push_naive(&mut out, a + off);
    let mag: i64 = if off >= 0 {
        out.append("+");
        off
    } else {
        out.append("-");
        -off
    };
    proof {
        assert(mag as int % 3600 < 3600 && mag as int % 3600 >= 0) by (nonlinear_arith)
            requires mag >= 0;
        assert(mag as int / 3600 < 24 && mag as int / 3600 >= 0) by (nonlinear_arith)
            requires 0 <= mag < 86400;
    }
    push_dec_fixed(&mut out, mag / 3600, 2);
    out.append(":");
    push_dec_fixed(&mut out, mag % 3600 / 60, 2);
    proof {
        assert(out@ =~= local_text(e as int, off as int));
    }
    out
}

/// Render the `YYYY-MM-DDTHH:MM:SS` local wall-clock text of a count of
/// local seconds measured from the epoch (a naive local time).
pub fn render_naive_epoch(e: i64) -> (r: String)
    requires
        renderable_epoch_s(e as int),
    ensures
        r@ == naive_text(abs_of(e as int)),
{
    let a = abs_of_exec(e);
    let mut out = String::new();
    push_naive(&mut out, a);
    proof {
        assert(out@ =~= naive_text(abs_of(e as int)));
    }
    out
}

/// Render a day number as its `YYYY-MM-DD` date.
pub fn render_date(n: i64) -> (r: String)
    requires
        0 <= n < days_before_year(10000),
    ensures
        r@ == date_text(n as int),
{
    let mut out = String::new();
    push_date(&mut out, n);
    proof {
        assert(out@ =~= date_text(n as int));
    }
    out
}

/// Render a day number's month as `YYYY-MM`.
pub fn render_month(n: i64) -> (r: String)
    requires
        0 <= n < days_before_year(10000),
    ensures
        r@ == month_text(n as int),
{
    let mut out = String::new();
    push_month(&mut out, n);
    proof {
        assert(out@ =~= month_text(n as int));
    }
    out
}

} // verus!
