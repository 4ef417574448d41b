//! Proleptic-Gregorian calendar arithmetic.
//!
//! Dates are mapped to and from a linear day count ("day number"): the
//! number of days since 0000-01-01.  All arithmetic here is purely
//! mathematical; no timezone is involved.

use vstd::prelude::*;

verus! {

/// A year has an extra day when divisible by 4, except centuries not
/// divisible by 400.
pub open spec fn is_leap_year(y: int) -> bool {
    (y % 4 == 0 && y % 100 != 0) || y % 400 == 0
}

pub open spec fn days_in_year(y: int) -> int {
    if is_leap_year(y) {
        366
    } else {
        365
    }
}

/// Length of month `m` (1-based) of year `y`.
pub open spec fn days_in_month(y: int, m: int) -> int {
    if m == 2 {
        if is_leap_year(y) {
            29
        } else {
            28
        }
    } else if m == 4 || m == 6 || m == 9 || m == 11 {
        30
    } else {
        31
    }
}

/// Days from 0000-01-01 to the first day of year `y`.
pub open spec fn days_before_year(y: int) -> int
    decreases y,
{
    if y <= 0 {
        0
    } else {
        days_before_year(y - 1) + days_in_year(y - 1)
    }
}

/// Days from the first of January of year `y` to the first day of month `m`.
pub open spec fn days_before_month(y: int, m: int) -> int
    decreases m,
{
    if m <= 1 {
        0
    } else {
        days_before_month(y, m - 1) + days_in_month(y, m - 1)
    }
}

/// Day number of the calendar date `y-m-d`.
pub open spec fn day_number(y: int, m: int, d: int) -> int {
    days_before_year(y) + days_before_month(y, m) + (d - 1)
}

pub open spec fn valid_ymd(y: int, m: int, d: int) -> bool {
    &&& 0 <= y <= 9999
    &&& 1 <= m <= 12
    &&& 1 <= d <= days_in_month(y, m)
}

/// Closed form for `days_before_year`, used so that concrete values can be
/// evaluated without unrolling the recursion.
pub proof fn lemma_days_before_year_closed(y: int)
    requires
        0 <= y,
    ensures
        days_before_year(y) == 365 * y + (y + 3) / 4 - (y + 99) / 100 + (y + 399) / 400,
    decreases y,
{
    if y > 0 {
        lemma_days_before_year_closed(y - 1);
        assert((y + 3) / 4 == (y - 1 + 3) / 4 + (if (y - 1) % 4 == 0 { 1int } else { 0 }))
            by (nonlinear_arith);
        assert((y + 99) / 100 == (y - 1 + 99) / 100 + (if (y - 1) % 100 == 0 { 1int } else { 0 }))
            by (nonlinear_arith);
        assert((y + 399) / 400 == (y - 1 + 399) / 400 + (if (y - 1) % 400 == 0 { 1int } else { 0 }))
            by (nonlinear_arith);
    }
}

pub proof fn lemma_days_before_year_bounds(y: int)
    requires
        0 <= y,
    ensures
        365 * y <= days_before_year(y) <= 366 * y,
    decreases y,
{
    if y > 0 {
        lemma_days_before_year_bounds(y - 1);
    }
}

/// The months of a year partition it: the days before a hypothetical
/// thirteenth month are exactly the days of the year.
pub proof fn lemma_days_before_month_full(y: int)
    ensures
        days_before_month(y, 13) == days_in_year(y),
{
    assert(days_before_month(y, 13) == days_in_year(y)) by {
        reveal_with_fuel(days_before_month, 13);
    }
}

pub proof fn lemma_days_before_month_mono(y: int, m1: int, m2: int)
    requires
        m1 <= m2,
    ensures
        days_before_month(y, m1) <= days_before_month(y, m2),
    decreases m2 - m1,
{
    if m1 < m2 {
        lemma_days_before_month_mono(y, m1, m2 - 1);
    }
}

/// Exact evaluation of `days_before_month` for every real month, so that
/// executable code can use a table.
pub proof fn lemma_days_before_month_table(y: int)
    ensures
        days_before_month(y, 1) == 0,
        days_before_month(y, 2) == 31,
        days_before_month(y, 3) == 59 + (if is_leap_year(y) { 1int } else { 0 }),
        days_before_month(y, 4) == 90 + (if is_leap_year(y) { 1int } else { 0 }),
        days_before_month(y, 5) == 120 + (if is_leap_year(y) { 1int } else { 0 }),
        days_before_month(y, 6) == 151 + (if is_leap_year(y) { 1int } else { 0 }),
        days_before_month(y, 7) == 181 + (if is_leap_year(y) { 1int } else { 0 }),
        days_before_month(y, 8) == 212 + (if is_leap_year(y) { 1int } else { 0 }),
        days_before_month(y, 9) == 243 + (if is_leap_year(y) { 1int } else { 0 }),
        days_before_month(y, 10) == 273 + (if is_leap_year(y) { 1int } else { 0 }),
        days_before_month(y, 11) == 304 + (if is_leap_year(y) { 1int } else { 0 }),
        days_before_month(y, 12) == 334 + (if is_leap_year(y) { 1int } else { 0 }),
{
    reveal_with_fuel(days_before_month, 13);
}

/// Whether a year is a leap year, executably.
pub fn leap_year(y: i64) -> (r: bool)
    requires
        0 <= y,
    ensures
        r == is_leap_year(y as int),
{
    (y % 4 == 0 && y % 100 != 0) || y % 400 == 0
}

/// Length of a month, executably.
pub fn month_length(y: i64, m: i64) -> (r: i64)
    requires
        0 <= y,
    ensures
        r == days_in_month(y as int, m as int),
{
    if m == 2 {
        if leap_year(y) {
            29
        } else {
            28
        }
    } else if m == 4 || m == 6 || m == 9 || m == 11 {
        30
    } else {
        31
    }
}

/// `days_before_year`, executably, through the closed form.
pub fn days_before_year_exec(y: i64) -> (r: i64)
    requires
        0 <= y <= 10000,
    ensures
        r == days_before_year(y as int),
{
    proof {
        lemma_days_before_year_closed(y as int);
    }
    365 * y + (y + 3) / 4 - (y + 99) / 100 + (y + 399) / 400
}

/// `days_before_month`, executably, through the table.
pub fn days_before_month_exec(y: i64, m: i64) -> (r: i64)
    requires
        0 <= y,
        1 <= m <= 12,
    ensures
        r == days_before_month(y as int, m as int),
{
    proof {
        lemma_days_before_month_table(y as int);
    }
    let leap: i64 = if leap_year(y) {
        1
    } else {
        0
    };
    match m {
        1 => 0,
        2 => 31,
        3 => 59 + leap,
        4 => 90 + leap,
        5 => 120 + leap,
        6 => 151 + leap,
        7 => 181 + leap,
        8 => 212 + leap,
        9 => 243 + leap,
        10 => 273 + leap,
        11 => 304 + leap,
        _ => 334 + leap,
    }
}

/// The year containing day number `n`: the greatest `y` with
/// `days_before_year(y) <= n`.
pub open spec fn year_of_day(n: int) -> int {
    choose|y: int|
        0 <= y && #[trigger] days_before_year(y) <= n < days_before_year(y) + days_in_year(y)
}

/// For every day number in range such a year exists and is unique, so
/// `year_of_day` is well defined.
pub proof fn lemma_year_of_day(n: int, y: int)
    requires
        0 <= y,
        days_before_year(y) <= n < days_before_year(y) + days_in_year(y),
    ensures
        year_of_day(n) == y,
{
    assert(0 <= y && days_before_year(y) <= n < days_before_year(y) + days_in_year(y));
    let w = year_of_day(n);
    assert(0 <= w && days_before_year(w) <= n < days_before_year(w) + days_in_year(w));
    if w < y {
        lemma_days_before_year_mono(w + 1, y);
    }
    if y < w {
        lemma_days_before_year_mono(y + 1, w);
    }
}

pub proof fn lemma_days_before_year_mono(y1: int, y2: int)
    requires
        y1 <= y2,
    ensures
        days_before_year(y1) <= days_before_year(y2),
    decreases y2 - y1,
{
    if y1 < y2 {
        lemma_days_before_year_mono(y1, y2 - 1);
    }
}

/// The month containing day number `n` within its year.
pub open spec fn month_of_day(n: int) -> int {
    choose|m: int|
        1 <= m <= 12 && #[trigger] days_before_month(year_of_day(n), m) <= n - days_before_year(
            year_of_day(n),
        ) < days_before_month(year_of_day(n), m + 1)
}

/// The day of the month of day number `n`, 1-based.
pub open spec fn dom_of_day(n: int) -> int {
    n - days_before_year(year_of_day(n)) - days_before_month(year_of_day(n), month_of_day(n)) + 1
}

/// For a day in range of its year, the month satisfying the bracketing
/// condition is unique, so `month_of_day` is well defined.
pub proof fn lemma_month_of_day(n: int, m: int)
    requires
        1 <= m <= 12,
        days_before_month(year_of_day(n), m) <= n - days_before_year(year_of_day(n))
            < days_before_month(year_of_day(n), m + 1),
    ensures
        month_of_day(n) == m,
{
    let y = year_of_day(n);
    let rem = n - days_before_year(y);
    assert(1 <= m <= 12 && days_before_month(y, m) <= rem < days_before_month(y, m + 1));
    let w = month_of_day(n);
    assert(1 <= w <= 12 && days_before_month(y, w) <= rem < days_before_month(y, w + 1));
    if w < m {
        lemma_days_before_month_mono(y, w + 1, m);
    }
    if m < w {
        lemma_days_before_month_mono(y, m + 1, w);
    }
}

/// Splitting the day number of a valid date gives the date back.
pub proof fn lemma_civil_inverse(y: int, m: int, d: int)
    requires
        valid_ymd(y, m, d),
    ensures
        year_of_day(day_number(y, m, d)) == y,
        month_of_day(day_number(y, m, d)) == m,
        dom_of_day(day_number(y, m, d)) == d,
{
    let n = day_number(y, m, d);
    lemma_days_before_month_full(y);
    lemma_days_before_month_mono(y, m + 1, 13);
    assert(days_before_month(y, m) + days_in_month(y, m) == days_before_month(y, m + 1));
    lemma_days_before_month_mono(y, 1, m);
    lemma_year_of_day(n, y);
    lemma_month_of_day(n, m);
}

/// A civil date, produced by splitting a day number.
pub struct CivilDate {
    pub year: i64,
    pub month: i64,
    pub day: i64,
}

impl CivilDate {
    pub open spec fn wf(self) -> bool {
        &&& valid_ymd(self.year as int, self.month as int, self.day as int)
        &&& day_number(self.year as int, self.month as int, self.day as int) >= 0
    }
}

/// Split a day number into its calendar date.
pub fn civil_of_day(n: i64) -> (r: CivilDate)
    requires
        days_before_year(0) <= n < days_before_year(10000),
    ensures
        r.wf(),
        day_number(r.year as int, r.month as int, r.day as int) == n,
        r.year as int == year_of_day(n as int),
        r.month as int == month_of_day(n as int),
        r.day as int == dom_of_day(n as int),
{
    proof {
        lemma_days_before_year_closed(10000);
    }
    let mut y: i64 = n / 366;
    proof {
        lemma_days_before_year_bounds(y as int);
        assert(366 * (n as int / 366) <= n) by (nonlinear_arith)
            requires n >= 0;
    }
    loop
        invariant
            0 <= y <= 10000,
            days_before_year(y as int) <= n < days_before_year(10000),
        ensures
            0 <= y < 10000,
            days_before_year(y as int) <= n < days_before_year(y as int) + days_in_year(y as int),
        decreases days_before_year(10000) - days_before_year(y as int),
    {
        proof {
            lemma_days_before_year_mono(y as int, 10000);
        }
        if y >= 10000 {
            proof {
                assert(false);
            }
        }
        let next = days_before_year_exec(y + 1);
        if n < next {
            break;
        }
        y = y + 1;
    }
    let rem: i64 = n - days_before_year_exec(y);
    proof {
        lemma_days_before_month_table(y as int);
        lemma_days_before_month_full(y as int);
    }
    let mut m: i64 = 1;
    while m < 12 && rem >= days_before_month_exec(y, m + 1)
        invariant
            1 <= m <= 12,
            0 <= y < 10000,
            rem == n - days_before_year(y as int),
            days_before_month(y as int, m as int) <= rem < days_in_year(y as int),
            days_before_month(y as int, 13) == days_in_year(y as int),
        decreases 12 - m,
    {
        m = m + 1;
    }
    proof {
        if m < 12 {
            assert(rem < days_before_month(y as int, m as int + 1));
        } else {
            assert(rem < days_before_month(y as int, 13));
        }
    }
    let d: i64 = rem - days_before_month_exec(y, m) + 1;
    proof {
        lemma_year_of_day(n as int, y as int);
        lemma_month_of_day(n as int, m as int);
    }
    CivilDate { year: y, month: m, day: d }
}

/// Day number of a date, executably.
pub fn day_of_civil(y: i64, m: i64, d: i64) -> (r: i64)
    requires
        valid_ymd(y as int, m as int, d as int),
    ensures
        r == day_number(y as int, m as int, d as int),
        0 <= r < days_before_year(10000),
{
    proof {
        lemma_days_before_year_closed(10000);
        lemma_days_before_year_mono(y as int + 1, 10000);
        lemma_days_before_month_table(y as int);
        lemma_days_before_month_full(y as int);
        lemma_days_before_month_mono(y as int, m as int + 1, 13);
        lemma_days_before_year_bounds(y as int);
    }
    days_before_year_exec(y) + days_before_month_exec(y, m) + (d - 1)
}

/// Every day number below the year-10000 line falls in some year, so
/// the `choose` behind `year_of_day` is inhabited.
pub proof fn lemma_day_in_some_year(n: int, y: int)
    requires
        0 <= y <= 9999,
        days_before_year(y) <= n < days_before_year(10000),
    ensures
        0 <= year_of_day(n) <= 9999,
        days_before_year(year_of_day(n)) <= n < days_before_year(year_of_day(n)) + days_in_year(
            year_of_day(n),
        ),
    decreases 10000 - y,
{
    if n < days_before_year(y) + days_in_year(y) {
        lemma_year_of_day(n, y);
        if year_of_day(n) > 9999 {
            lemma_days_before_year_mono(10000, year_of_day(n));
        }
    } else {
        assert(days_before_year(y + 1) == days_before_year(y) + days_in_year(y));
        lemma_day_in_some_year(n, y + 1);
    }
}

/// Every day number splits into a valid calendar date whose day number
/// it is: the spec-level counterpart of `civil_of_day`.
pub proof fn lemma_day_split(n: int)
    requires
        0 <= n < days_before_year(10000),
    ensures
        valid_ymd(year_of_day(n), month_of_day(n), dom_of_day(n)),
        day_number(year_of_day(n), month_of_day(n), dom_of_day(n)) == n,
    decreases 0int,
{
    lemma_day_in_some_year(n, 0);
    let y = year_of_day(n);
    let rem = n - days_before_year(y);
    lemma_days_before_month_full(y);
    lemma_month_walk(n, 1);
    let m = month_of_day(n);
    assert(days_before_month(y, m) <= rem < days_before_month(y, m + 1));
}

/// Every in-year remainder falls in some month.
proof fn lemma_month_walk(n: int, m: int)
    requires
        1 <= m <= 12,
        0 <= year_of_day(n) <= 9999,
        days_before_year(year_of_day(n)) <= n,
        days_before_month(year_of_day(n), m) <= n - days_before_year(year_of_day(n))
            < days_before_month(year_of_day(n), 13),
    ensures
        1 <= month_of_day(n) <= 12,
        days_before_month(year_of_day(n), month_of_day(n)) <= n - days_before_year(year_of_day(n))
            < days_before_month(year_of_day(n), month_of_day(n) + 1),
    decreases 12 - m,
{
    let y = year_of_day(n);
    let rem = n - days_before_year(y);
    if rem < days_before_month(y, m + 1) {
        lemma_month_of_day(n, m);
    } else {
        assert(m < 12) by {
            if m == 12 {
                assert(days_before_month(y, 13) == days_before_month(y, 12) + days_in_month(y, 12));
            }
        }
        lemma_month_walk(n, m + 1);
    }
}

/// Day of week of a day number, Monday-based: Monday is 0 and Sunday is 6.
/// Day number 0, 0000-01-01, was a Saturday.
pub open spec fn weekday_from_monday(n: int) -> int {
    (n + 5) % 7
}

pub fn weekday_from_monday_exec(n: i64) -> (r: i64)
    requires
        0 <= n,
        n + 5 <= i64::MAX,
    ensures
        r == weekday_from_monday(n as int),
        0 <= r < 7,
{
    (n + 5) % 7
}

/// Day of week of a day number, Sunday-based: Sunday is 0 and Saturday
/// is 6.
pub open spec fn weekday_from_sunday(n: int) -> int {
    (n + 6) % 7
}

pub fn weekday_from_sunday_exec(n: i64) -> (r: i64)
    requires
        0 <= n,
        n + 6 <= i64::MAX,
    ensures
        r == weekday_from_sunday(n as int),
        0 <= r < 7,
{
    (n + 6) % 7
}

} // verus!
