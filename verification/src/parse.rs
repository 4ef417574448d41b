//! Timestamp parsing: epoch milliseconds, epoch seconds, and RFC3339
//! date-times, plus the format auto-detection heuristic.
//!
//! The grammar accepted here is stated exactly by the spec functions in
//! this module; every parser's contract is an if-and-only-if against
//! them.  The representable instant range is that of
//! [`crate::epoch::valid_epoch_ms`]: calendar years 1..=9998.

use vstd::prelude::*;

use crate::cal::{day_number, day_of_civil, days_before_year, days_in_month, month_length,
    valid_ymd};
use crate::epoch::{epoch_ms_in_range, lemma_epoch_shift, valid_epoch_ms, valid_epoch_s};
use crate::error::TzBucketError;
use crate::render::utc_text;
use crate::text::{all_digits, digit_of_char, digits_val, dec_int, is_digit_char, parse_i64,
    parse_i64_spec, pow10, render_i64, str_concat, trim_spaces, trimmed};
use vstd::string::StrSliceExecFns;
use vstd::string::StringExecFns;

verus! {

/// Supported timestamp formats.
#[derive(Debug, Clone, Copy, PartialEq, Eq, Structural)]
pub enum TimestampFormat {
    /// Unix epoch milliseconds (e.g. "1793362500000").
    EpochMs,
    /// Unix epoch seconds (e.g. "1793362500").
    EpochS,
    /// RFC3339 text (e.g. "2026-03-29T00:15:00Z").
    Rfc3339,
}

impl Default for TimestampFormat {
    /// The default format is epoch milliseconds.
    fn default() -> (r: Self)
        ensures
            r is EpochMs,
    {
        TimestampFormat::EpochMs
    }
}

impl TimestampFormat {
    /// The lower-case name of the format.
    pub fn as_text(&self) -> (r: String)
        ensures
            *self is EpochMs ==> r@ == "epoch_ms"@,
            *self is EpochS ==> r@ == "epoch_s"@,
            *self is Rfc3339 ==> r@ == "rfc3339"@,
    {
        match self {
            TimestampFormat::EpochMs => "epoch_ms".to_owned(),
            TimestampFormat::EpochS => "epoch_s".to_owned(),
            TimestampFormat::Rfc3339 => "rfc3339".to_owned(),
        }
    }

    /// Parse a format name, ASCII-case-insensitively.
    pub fn parse_name(s: &str) -> (r: Result<TimestampFormat, TzBucketError>)
        ensures
            crate::text::seq_eq_ci(s@, "epoch_ms"@) ==> r is Ok && r->Ok_0 is EpochMs,
            crate::text::seq_eq_ci(s@, "epoch_s"@) ==> r is Ok && r->Ok_0 is EpochS,
            crate::text::seq_eq_ci(s@, "rfc3339"@) ==> r is Ok && r->Ok_0 is Rfc3339,
            !(crate::text::seq_eq_ci(s@, "epoch_ms"@) || crate::text::seq_eq_ci(s@, "epoch_s"@)
                || crate::text::seq_eq_ci(s@, "rfc3339"@)) ==> r is Err && r->Err_0 is ParseError
                && r->Err_0->ParseError_0@ == "Unknown format: '"@ + s@
                + "'. Expected 'epoch_ms', 'epoch_s', or 'rfc3339'"@,
    {
        proof {
            reveal_strlit("epoch_ms");
            reveal_strlit("epoch_s");
            reveal_strlit("rfc3339");
        }
        if crate::text::str_eq_ci(s, "epoch_ms") {
            Ok(TimestampFormat::EpochMs)
        } else if crate::text::str_eq_ci(s, "epoch_s") {
            proof {
                if crate::text::seq_eq_ci(s@, "rfc3339"@) {
                    assert(crate::text::char_eq_ci(s@[0], "epoch_s"@[0]));
                    assert(crate::text::char_eq_ci(s@[0], "rfc3339"@[0]));
                    assert(false);
                }
            }
            Ok(TimestampFormat::EpochS)
        } else if crate::text::str_eq_ci(s, "rfc3339") {
            Ok(TimestampFormat::Rfc3339)
        } else {
            let msg = str_concat(
                str_concat("Unknown format: '", s).as_str(),
                "'. Expected 'epoch_ms', 'epoch_s', or 'rfc3339'",
            );
            Err(TzBucketError::ParseError(msg))
        }
    }
}

impl core::str::FromStr for TimestampFormat {
    type Err = TzBucketError;

    fn from_str(s: &str) -> Result<Self, TzBucketError> {
        TimestampFormat::parse_name(s)
    }
}

/// `w` digit characters stand at position `i` of `s`.
pub open spec fn digits_at(s: Seq<char>, i: int, w: int) -> bool {
    0 <= i && 0 <= w && i + w <= s.len() && all_digits(s.subrange(i, i + w))
}

/// The value of the `w` digits at position `i`.
pub open spec fn dval_at(s: Seq<char>, i: int, w: int) -> int {
    digits_val(s.subrange(i, i + w))
}

/// A `YYYY-MM-DD` calendar date stands at the start of `s`, with real
/// month and day-of-month values.
pub open spec fn date_ok(s: Seq<char>) -> bool {
    &&& s.len() >= 10
    &&& digits_at(s, 0, 4)
    &&& s[4] == '-'
    &&& digits_at(s, 5, 2)
    &&& s[7] == '-'
    &&& digits_at(s, 8, 2)
    &&& 1 <= dval_at(s, 5, 2) <= 12
    &&& 1 <= dval_at(s, 8, 2) <= days_in_month(dval_at(s, 0, 4), dval_at(s, 5, 2))
}

/// An `HH:MM:SS` clock time stands at position `i` of `s`.
pub open spec fn time_ok(s: Seq<char>, i: int) -> bool {
    &&& i + 8 <= s.len()
    &&& digits_at(s, i, 2)
    &&& s[i + 2] == ':'
    &&& digits_at(s, i + 3, 2)
    &&& s[i + 5] == ':'
    &&& digits_at(s, i + 6, 2)
    &&& dval_at(s, i, 2) <= 23
    &&& dval_at(s, i + 3, 2) <= 59
    &&& dval_at(s, i + 6, 2) <= 59
}

/// The date and time separators RFC3339 permits.
pub open spec fn rfc_sep(c: char) -> bool {
    c == 'T' || c == 't' || c == ' '
}

/// The head of an RFC3339 date-time: date, separator, clock time.
pub open spec fn rfc_head_ok(s: Seq<char>) -> bool {
    s.len() >= 19 && date_ok(s) && rfc_sep(s[10]) && time_ok(s, 11)
}

/// The first position at or after `i` that does not hold a digit.
pub open spec fn digits_end(s: Seq<char>, i: int) -> int
    decreases s.len() - i,
{
    if 0 <= i < s.len() && is_digit_char(s[i]) {
        digits_end(s, i + 1)
    } else {
        i
    }
}

/// Where the UTC-offset part of an RFC3339 text begins: after the
/// fractional seconds when present, else right after the clock time.
pub open spec fn offset_pos(s: Seq<char>) -> int {
    if s.len() > 19 && s[19] == '.' && digits_end(s, 20) > 20 {
        digits_end(s, 20)
    } else {
        19
    }
}

/// The milliseconds carried by the fractional-second digits: the first
/// three digits, zero-padded on the right; deeper digits are dropped.
pub open spec fn frac_ms(s: Seq<char>) -> int {
    if offset_pos(s) == 19 {
        0
    } else {
        let fr = s.subrange(20, offset_pos(s));
        if fr.len() >= 3 {
            digits_val(fr.take(3))
        } else {
            digits_val(fr) * pow10(3 - fr.len())
        }
    }
}

/// A UTC offset stands at position `p` and ends the text: `Z`, `z`, or a
/// signed `HH:MM`.
pub open spec fn offset_ok(s: Seq<char>, p: int) -> bool {
    if !(0 <= p < s.len()) {
        false
    } else if s[p] == 'Z' || s[p] == 'z' {
        s.len() == p + 1
    } else if s[p] == '+' || s[p] == '-' {
        &&& s.len() == p + 6
        &&& digits_at(s, p + 1, 2)
        &&& s[p + 3] == ':'
        &&& digits_at(s, p + 4, 2)
        &&& dval_at(s, p + 1, 2) <= 23
        &&& dval_at(s, p + 4, 2) <= 59
    } else {
        false
    }
}

/// The offset in seconds east of UTC at position `p`.
pub open spec fn offset_secs(s: Seq<char>, p: int) -> int {
    if 0 <= p < s.len() && s[p] == '+' {
        dval_at(s, p + 1, 2) * 3600 + dval_at(s, p + 4, 2) * 60
    } else if 0 <= p < s.len() && s[p] == '-' {
        -(dval_at(s, p + 1, 2) * 3600 + dval_at(s, p + 4, 2) * 60)
    } else {
        0
    }
}

/// A complete RFC3339 date-time with mandatory offset.
#[verifier::opaque]
pub open spec fn rfc3339_ok(s: Seq<char>) -> bool {
    rfc_head_ok(s) && offset_ok(s, offset_pos(s))
}

/// The epoch seconds of the civil fields read at the head of `s`,
/// interpreted as a UTC wall clock.
pub open spec fn head_naive_secs(s: Seq<char>) -> int {
    (day_number(dval_at(s, 0, 4), dval_at(s, 5, 2), dval_at(s, 8, 2)) - days_before_year(1970))
        * 86400 + dval_at(s, 11, 2) * 3600 + dval_at(s, 14, 2) * 60 + dval_at(s, 17, 2)
}

/// The epoch milliseconds an RFC3339 text denotes.
#[verifier::opaque]
pub open spec fn rfc3339_ms(s: Seq<char>) -> int {
    (head_naive_secs(s) - offset_secs(s, offset_pos(s))) * 1000 + frac_ms(s)
}

/// Read `w <= 9` digits at position `i`, or nothing if any character
/// there is not a digit or the text is too short.
pub(crate) fn read_digits(s: &str, i: usize, w: usize) -> (r: Option<i64>)
    requires
        i + w <= usize::MAX,
        w <= 9,
    ensures
        r is Some <==> digits_at(s@, i as int, w as int),
        r is Some ==> r->0 == dval_at(s@, i as int, w as int) && 0 <= r->0 < pow10(w as int),
{
    if i + w > s.unicode_len() {
        return None;
    }
    let mut acc: i64 = 0;
    let mut j: usize = 0;
    proof {
        assert(s@.subrange(i as int, i as int) =~= Seq::<char>::empty());
        crate::text::lemma_digits_val_upper(s@.subrange(i as int, i as int));
    }
    while j < w
        invariant
            0 <= j <= w,
            w <= 9,
            i + w <= s@.len(),
            i + w <= usize::MAX,
            all_digits(s@.subrange(i as int, i as int + j as int)),
            acc == digits_val(s@.subrange(i as int, i as int + j as int)),
            0 <= acc < pow10(j as int),
        decreases w - j,
    {
        proof {
            crate::text::lemma_pow10_le(j as int, 8);
            assert(pow10(8) == 100000000) by {
                reveal_with_fuel(pow10, 9);
            }
        }
        let c = s.get_char(i + j);
        let d = digit_of_char(c);
        proof {
            let sub1 = s@.subrange(i as int, i as int + j + 1);
            assert(sub1.drop_last() =~= s@.subrange(i as int, i as int + j));
            assert(sub1.last() == s@[i as int + j]);
        }
        if d < 0 {
            proof {
                let subw = s@.subrange(i as int, i as int + w as int);
                assert(subw[j as int] == s@[i as int + j]);
                assert(!all_digits(subw));
            }
            return None;
        }
        acc = acc * 10 + d;
        j = j + 1;
    }
    proof {
        crate::text::lemma_digits_val_upper(s@.subrange(i as int, i as int + w as int));
    }
    Some(acc)
}

/// Whether character `i` of `s` equals `c`; false when out of range.
pub(crate) fn char_at_is(s: &str, i: usize, c: char) -> (r: bool)
    ensures
        r <==> (i < s@.len() && s@[i as int] == c),
{
    if i >= s.unicode_len() {
        return false;
    }
    s.get_char(i) == c
}

/// The result of reading the date-and-time head of an RFC3339 or local
/// date-time text: the civil field values.
pub(crate) struct HeadFields {
    pub day: i64,
    pub hh: i64,
    pub mi: i64,
    pub ss: i64,
}

/// Read and validate `YYYY-MM-DD{sep}HH:MM:SS` at the start of `s`,
/// with the separators `accept_t`/`accept_space` controls allow.
pub(crate) fn read_head(s: &str, strict_t: bool) -> (r: Option<HeadFields>)
    ensures
        r is Some <==> (rfc_head_ok(s@) && (strict_t ==> s@[10] == 'T' || s@[10] == ' ')),
        r is Some ==> {
            &&& r->0.day == day_number(dval_at(s@, 0, 4), dval_at(s@, 5, 2), dval_at(s@, 8, 2))
            &&& 0 <= r->0.day < days_before_year(10000)
            &&& r->0.hh == dval_at(s@, 11, 2) && 0 <= r->0.hh <= 23
            &&& r->0.mi == dval_at(s@, 14, 2) && 0 <= r->0.mi <= 59
            &&& r->0.ss == dval_at(s@, 17, 2) && 0 <= r->0.ss <= 59
        },
{
    let y = match read_digits(s, 0, 4) {
        Some(v) => v,
        None => {
            return None;
        },
    };
    if !char_at_is(s, 4, '-') {
        return None;
    }
    let m = match read_digits(s, 5, 2) {
        Some(v) => v,
        None => {
            return None;
        },
    };
    if !char_at_is(s, 7, '-') {
        return None;
    }
    let d = match read_digits(s, 8, 2) {
        Some(v) => v,
        None => {
            return None;
        },
    };
    if m < 1 || m > 12 {
        return None;
    }
    if d < 1 || d > month_length(y, m) {
        return None;
    }
    let sep_t = char_at_is(s, 10, 'T');
    let sep_lt = char_at_is(s, 10, 't');
    let sep_sp = char_at_is(s, 10, ' ');
    if strict_t {
        if !(sep_t || sep_sp) {
            return None;
        }
    } else {
        if !(sep_t || sep_lt || sep_sp) {
            return None;
        }
    }
    let hh = match read_digits(s, 11, 2) {
        Some(v) => v,
        None => {
            return None;
        },
    };
    if !char_at_is(s, 13, ':') {
        return None;
    }
    let mi = match read_digits(s, 14, 2) {
        Some(v) => v,
        None => {
            return None;
        },
    };
    if !char_at_is(s, 16, ':') {
        return None;
    }
    let ss = match read_digits(s, 17, 2) {
        Some(v) => v,
        None => {
            return None;
        },
    };
    if hh > 23 || mi > 59 || ss > 59 {
        return None;
    }
    proof {
        crate::render::lemma_pow10_small();
        assert(valid_ymd(y as int, m as int, d as int));
    }
    let day = day_of_civil(y, m, d);
    Some(HeadFields { day, hh, mi, ss })
}

/// Parse RFC3339 text into epoch milliseconds.
#[verifier::rlimit(80)]
fn parse_rfc3339(t: &str) -> (r: Result<i64, TzBucketError>)
    ensures
        r is Ok <==> rfc3339_ok(t@) && valid_epoch_ms(rfc3339_ms(t@)),
        r is Ok ==> r->Ok_0 == rfc3339_ms(t@),
        r is Err ==> r->Err_0 is ParseError,
        !rfc3339_ok(t@) ==> r is Err && r->Err_0->ParseError_0@ == "Invalid RFC3339 timestamp: '"@
            + t@ + "'"@,
        rfc3339_ok(t@) && !valid_epoch_ms(rfc3339_ms(t@)) ==> r is Err
            && r->Err_0->ParseError_0@ == "Timestamp out of range: '"@ + t@ + "'"@,
{
    proof {
        reveal(rfc3339_ok);
        reveal(rfc3339_ms);
    }
    let head = read_head(t, false);
    let n = t.unicode_len();
    match head {
        None => Err(
            TzBucketError::ParseError(
                str_concat(str_concat("Invalid RFC3339 timestamp: '", t).as_str(), "'"),
            ),
        ),
        Some(h) => {
            // Fractional seconds, if any.
            let mut p: usize = 19;
            let mut frac: i64 = 0;
            let has_frac = char_at_is(t, 19, '.') && n > 20 && digit_of_char(t.get_char(20)) >= 0;
            if has_frac {
                let mut j: usize = 20;
                while j < n && digit_of_char(t.get_char(j)) >= 0
                    invariant
                        20 <= j <= n,
                        n == t@.len(),
                        forall|k: int| 20 <= k < j ==> is_digit_char(#[trigger] t@[k]),
                        digits_end(t@, 20) == digits_end(t@, j as int),
                    decreases n - j,
                {
                    j = j + 1;
                }
                proof {
                    assert(digits_end(t@, j as int) == j);
                    assert(offset_pos(t@) == j);
                }
                let fe = j;
                let w: usize = if fe - 20 >= 3 {
                    3
                } else {
                    fe - 20
                };
                proof {
                    let fr = t@.subrange(20, fe as int);
                    assert(all_digits(fr));
                    if fe - 20 >= 3 {
                        assert(fr.take(3) =~= t@.subrange(20, 23));
                        assert(all_digits(fr.take(3)));
                    }
                    crate::render::lemma_pow10_small();
                }
                match read_digits(t, 20, w) {
                    Some(v) => {
                        if w == 3 {
                            frac = v;
                        } else if w == 2 {
                            frac = v * 10;
                        } else {
                            frac = v * 100;
                        }
                    },
                    None => {
                        proof {
                            assert(false);
                        }
                    },
                }
                proof {
                    assert(frac == frac_ms(t@));
                    assert(0 <= frac < 1000);
                }
                p = fe;
            } else {
                proof {
                    if t@.len() > 19 && t@[19] == '.' {
                        if n > 20 && is_digit_char(t@[20]) {
                            assert(false);
                        } else {
                            assert(digits_end(t@, 20) == 20);
                        }
                    }
                    assert(offset_pos(t@) == 19);
                    assert(frac_ms(t@) == 0);
                }
            }
            // The offset.
            let zu = char_at_is(t, p, 'Z') || char_at_is(t, p, 'z');
            let plus = char_at_is(t, p, '+');
            let minus = char_at_is(t, p, '-');
            let mut off: i64 = 0;
            let mut ok = false;
            if zu {
                ok = p + 1 == n;
            } else if plus || minus {
                if n - p == 6 {
                    let ohh = read_digits(t, p + 1, 2);
                    let omm = read_digits(t, p + 4, 2);
                    if char_at_is(t, p + 3, ':') {
                        match (ohh, omm) {
                            (Some(a), Some(b)) => {
                                if a <= 23 && b <= 59 {
                                    ok = true;
                                    off = if plus {
                                        a * 3600 + b * 60
                                    } else {
                                        -(a * 3600 + b * 60)
                                    };
                                }
                            },
                            _ => {},
                        }
                    }
                }
            }
            if !ok {
                proof {
                    assert(!offset_ok(t@, p as int));
                }
                return Err(
                    TzBucketError::ParseError(
                        str_concat(str_concat("Invalid RFC3339 timestamp: '", t).as_str(), "'"),
                    ),
                );
            }
            proof {
                assert(offset_ok(t@, p as int));
                assert(off == offset_secs(t@, p as int));
                lemma_epoch_shift();
            }
            let secs: i64 = (h.day - 719528) * 86400 + h.hh * 3600 + h.mi * 60 + h.ss - off;
            let ms: i64 = secs * 1000 + frac;
            proof {
                assert(ms == rfc3339_ms(t@));
            }
            if epoch_ms_in_range(ms) {
                Ok(ms)
            } else {
                Err(
                    TzBucketError::ParseError(
                        str_concat(str_concat("Timestamp out of range: '", t).as_str(), "'"),
                    ),
                )
            }
        },
    }
}

/// What parsing yields for each format, over already-trimmed text.
pub open spec fn parse_timestamp_spec(t: Seq<char>, f: TimestampFormat) -> Option<int> {
    match f {
        TimestampFormat::EpochMs => match parse_i64_spec(t) {
            Some(v) => if valid_epoch_ms(v) {
                Some(v)
            } else {
                None
            },
            None => None,
        },
        TimestampFormat::EpochS => match parse_i64_spec(t) {
            Some(v) => if valid_epoch_s(v) {
                Some(v * 1000)
            } else {
                None
            },
            None => None,
        },
        TimestampFormat::Rfc3339 => if rfc3339_ok(t) && valid_epoch_ms(rfc3339_ms(t)) {
            Some(rfc3339_ms(t))
        } else {
            None
        },
    }
}

/// Parse a timestamp string according to the specified format, after
/// trimming surrounding whitespace.  Returns the instant in epoch
/// milliseconds.
pub fn parse_timestamp(input: &str, format: TimestampFormat) -> (r: Result<i64, TzBucketError>)
    ensures
        r is Ok <==> parse_timestamp_spec(trimmed(input@), format) is Some,
        r is Ok ==> r->Ok_0 == parse_timestamp_spec(trimmed(input@), format)->0,
        r is Err ==> r->Err_0 is ParseError,
        format is EpochMs && parse_i64_spec(trimmed(input@)) is None ==> r->Err_0->ParseError_0@
            == "Invalid epoch milliseconds: '"@ + trimmed(input@) + "'. Expected integer value."@,
        format is EpochMs && parse_i64_spec(trimmed(input@)) is Some && !valid_epoch_ms(
            parse_i64_spec(trimmed(input@))->0,
        ) ==> r->Err_0->ParseError_0@ == "Epoch milliseconds out of range: "@ + dec_int(
            parse_i64_spec(trimmed(input@))->0,
        ),
        format is EpochS && parse_i64_spec(trimmed(input@)) is None ==> r->Err_0->ParseError_0@
            == "Invalid epoch seconds: '"@ + trimmed(input@) + "'. Expected integer value."@,
        format is EpochS && parse_i64_spec(trimmed(input@)) is Some && !valid_epoch_s(
            parse_i64_spec(trimmed(input@))->0,
        ) ==> r->Err_0->ParseError_0@ == "Epoch seconds out of range: "@ + dec_int(
            parse_i64_spec(trimmed(input@))->0,
        ),
        format is Rfc3339 && !rfc3339_ok(trimmed(input@)) ==> r->Err_0->ParseError_0@
            == "Invalid RFC3339 timestamp: '"@ + trimmed(input@) + "'"@,
        format is Rfc3339 && rfc3339_ok(trimmed(input@)) && !valid_epoch_ms(rfc3339_ms(trimmed(input@)))
            ==> r->Err_0->ParseError_0@ == "Timestamp out of range: '"@ + trimmed(input@) + "'"@,
{
    let t = trim_spaces(input);
    parse_trimmed(t.as_str(), format)
}

/// [`parse_timestamp`] over text already free of surrounding spaces.
pub(crate) fn parse_trimmed(tr: &str, format: TimestampFormat) -> (r: Result<i64, TzBucketError>)
    ensures
        r is Ok <==> parse_timestamp_spec(tr@, format) is Some,
        r is Ok ==> r->Ok_0 == parse_timestamp_spec(tr@, format)->0,
        r is Err ==> r->Err_0 is ParseError,
        format is EpochMs && parse_i64_spec(tr@) is None ==> r->Err_0->ParseError_0@
            == "Invalid epoch milliseconds: '"@ + tr@ + "'. Expected integer value."@,
        format is EpochMs && parse_i64_spec(tr@) is Some && !valid_epoch_ms(
            parse_i64_spec(tr@)->0,
        ) ==> r->Err_0->ParseError_0@ == "Epoch milliseconds out of range: "@ + dec_int(
            parse_i64_spec(tr@)->0,
        ),
        format is EpochS && parse_i64_spec(tr@) is None ==> r->Err_0->ParseError_0@
            == "Invalid epoch seconds: '"@ + tr@ + "'. Expected integer value."@,
        format is EpochS && parse_i64_spec(tr@) is Some && !valid_epoch_s(
            parse_i64_spec(tr@)->0,
        ) ==> r->Err_0->ParseError_0@ == "Epoch seconds out of range: "@ + dec_int(
            parse_i64_spec(tr@)->0,
        ),
        format is Rfc3339 && !rfc3339_ok(tr@) ==> r->Err_0->ParseError_0@
            == "Invalid RFC3339 timestamp: '"@ + tr@ + "'"@,
        format is Rfc3339 && rfc3339_ok(tr@) && !valid_epoch_ms(rfc3339_ms(tr@))
            ==> r->Err_0->ParseError_0@ == "Timestamp out of range: '"@ + tr@ + "'"@,
{
    match format {
        TimestampFormat::EpochMs => {
            match parse_i64(tr) {
                None => Err(
                    TzBucketError::ParseError(
                        str_concat(
                            str_concat("Invalid epoch milliseconds: '", tr).as_str(),
                            "'. Expected integer value.",
                        ),
                    ),
                ),
                Some(v) => {
                    if epoch_ms_in_range(v) {
                        Ok(v)
                    } else {
                        Err(
                            TzBucketError::ParseError(
                                str_concat(
                                    "Epoch milliseconds out of range: ",
                                    render_i64(v).as_str(),
                                ),
                            ),
                        )
                    }
                },
            }
        },
        TimestampFormat::EpochS => {
            match parse_i64(tr) {
                None => Err(
                    TzBucketError::ParseError(
                        str_concat(
                            str_concat("Invalid epoch seconds: '", tr).as_str(),
                            "'. Expected integer value.",
                        ),
                    ),
                ),
                Some(v) => {
                    let ok = crate::epoch::epoch_s_in_range(v);
                    if ok {
                        proof {
                            lemma_epoch_shift();
                        }
                        Ok(v * 1000)
                    } else {
                        Err(
                            TzBucketError::ParseError(
                                str_concat("Epoch seconds out of range: ", render_i64(v).as_str()),
                            ),
                        )
                    }
                },
            }
        },
        TimestampFormat::Rfc3339 => parse_rfc3339(tr),
    }
}

/// A successful parse always yields a representable instant.
pub proof fn lemma_parse_gives_valid(t: Seq<char>, f: TimestampFormat)
    ensures
        parse_timestamp_spec(t, f) is Some ==> valid_epoch_ms(parse_timestamp_spec(t, f)->0),
{
    match f {
        TimestampFormat::EpochS => {
            if parse_timestamp_spec(t, f) is Some {
                let v = parse_i64_spec(t)->0;
                crate::epoch::lemma_valid_s_to_ms(v);
            }
        },
        _ => {
        },
    }
}

/// Whether trimmed text looks like RFC3339 rather than a bare number:
/// it holds a `T`, a `Z`, a `+`, or a `-` where an offset suffix would
/// put one.
pub open spec fn looks_rfc3339(t: Seq<char>) -> bool {
    t.contains('T') || t.contains('Z') || t.contains('+') || (t.len() > 6 && t[t.len() - 6] == '-')
}

/// What auto-detection yields: RFC3339 when the shape suggests it, else
/// an integer read as milliseconds when large, as seconds otherwise.
pub open spec fn parse_auto_spec(t: Seq<char>) -> Option<int> {
    if looks_rfc3339(t) {
        parse_timestamp_spec(t, TimestampFormat::Rfc3339)
    } else {
        match parse_i64_spec(t) {
            Some(v) => if v > 10000000000 {
                parse_timestamp_spec(t, TimestampFormat::EpochMs)
            } else {
                parse_timestamp_spec(t, TimestampFormat::EpochS)
            },
            None => None,
        }
    }
}

/// Parse a timestamp string, auto-detecting the format.
///
/// The heuristic is ambiguous near its magnitude threshold and for
/// pre-1970 epoch values, which never look like milliseconds; that is a
/// documented limitation, not corrected here.
pub fn parse_timestamp_auto(input: &str) -> (r: Result<i64, TzBucketError>)
    ensures
        r is Ok <==> parse_auto_spec(trimmed(input@)) is Some,
        r is Ok ==> r->Ok_0 == parse_auto_spec(trimmed(input@))->0,
        r is Err ==> r->Err_0 is ParseError,
{
    let t = trim_spaces(input);
    let tr = t.as_str();
    let n = tr.unicode_len();
    let mut looks = false;
    let mut i: usize = 0;
    while i < n
        invariant
            0 <= i <= n,
            n == tr@.len(),
            looks <==> exists|k: int|
                0 <= k < i && (tr@[k] == 'T' || tr@[k] == 'Z' || tr@[k] == '+'),
        decreases n - i,
    {
        let c = tr.get_char(i);
        if c == 'T' || c == 'Z' || c == '+' {
            looks = true;
        }
        i = i + 1;
    }
    if n > 6 {
        if tr.get_char(n - 6) == '-' {
            looks = true;
        }
    }
    proof {
        assert(tr@.contains('T') <==> exists|k: int| 0 <= k < tr@.len() && tr@[k] == 'T');
        assert(tr@.contains('Z') <==> exists|k: int| 0 <= k < tr@.len() && tr@[k] == 'Z');
        assert(tr@.contains('+') <==> exists|k: int| 0 <= k < tr@.len() && tr@[k] == '+');
        assert(looks <==> looks_rfc3339(tr@));
    }
    if looks {
        return parse_rfc3339(tr);
    }
    match parse_i64(tr) {
        Some(v) => {
            if v > 10000000000 {
                parse_trimmed(tr, TimestampFormat::EpochMs)
            } else {
                parse_trimmed(tr, TimestampFormat::EpochS)
            }
        },
        None => Err(
            TzBucketError::ParseError(
                str_concat(
                    str_concat("Could not auto-detect format for: '", input).as_str(),
                    "'",
                ),
            ),
        ),
    }
}


/// Inside a concatenation-built text, a block that reads as a
/// fixed-width rendering of `v` reads back as `v`.
proof fn lemma_block_digits(s: Seq<char>, i: int, v: int, w: int)
    requires
        0 <= i,
        0 <= w,
        i + w <= s.len(),
        0 <= v < pow10(w),
        s.subrange(i, i + w) =~= crate::text::dec_fixed(v, w),
    ensures
        digits_at(s, i, w),
        dval_at(s, i, w) == v,
{
    crate::text::lemma_dec_fixed_val(v, w);
}

/// The UTC rendering of an instant parses back to the instant, with no
/// fractional part and a zero offset.
pub proof fn lemma_utc_round_trip(e: int)
    requires
        crate::epoch::renderable_epoch_s(e),
    ensures
        rfc3339_ok(utc_text(e)),
        rfc3339_ms(utc_text(e)) == e * 1000,
{
    reveal(rfc3339_ok);
    reveal(rfc3339_ms);
    lemma_epoch_shift();
    crate::render::lemma_pow10_small();
    reveal_strlit("Z");
    let a = crate::epoch::abs_of(e);
    let day = a / 86400;
    let sod = a % 86400;
    assert(a == 86400 * day + sod && 0 <= sod < 86400) by (nonlinear_arith)
        requires day == a / 86400, sod == a % 86400, a >= 0;
    assert(day < days_before_year(10000)) by (nonlinear_arith)
        requires
            a < days_before_year(10000) * 86400,
            a == 86400 * day + sod,
            0 <= sod;
    crate::cal::lemma_day_split(day);
    let y = crate::cal::year_of_day(day);
    let m = crate::cal::month_of_day(day);
    let dd = crate::cal::dom_of_day(day);
    let hh = sod / 3600;
    let r1 = sod % 3600;
    let mi = r1 / 60;
    let ss = sod % 60;
    assert(sod == 3600 * hh + r1 && 0 <= r1 < 3600) by (nonlinear_arith)
        requires hh == sod / 3600, r1 == sod % 3600, 0 <= sod < 86400;
    assert(hh <= 23) by (nonlinear_arith)
        requires sod < 86400, sod == 3600 * hh + r1, 0 <= r1;
    assert(r1 == 60 * mi + r1 % 60 && 0 <= r1 % 60 < 60 && mi <= 59) by (nonlinear_arith)
        requires mi == r1 / 60, 0 <= r1 < 3600;
    vstd::arithmetic::div_mod::lemma_mod_multiples_vanish(60 * hh, r1, 60);
    assert(sod == 60 * (60 * hh) + r1) by (nonlinear_arith)
        requires sod == 3600 * hh + r1;
    assert(ss == r1 % 60);
    let s = utc_text(e);
    let yt = crate::text::dec_fixed(y, 4);
    let mt = crate::text::dec_fixed(m, 2);
    let dt = crate::text::dec_fixed(dd, 2);
    let ht = crate::text::dec_fixed(hh, 2);
    let it = crate::text::dec_fixed(mi, 2);
    let st = crate::text::dec_fixed(ss, 2);
    crate::text::lemma_dec_fixed_val(y, 4);
    crate::text::lemma_dec_fixed_val(m, 2);
    crate::text::lemma_dec_fixed_val(dd, 2);
    crate::text::lemma_dec_fixed_val(hh, 2);
    crate::text::lemma_dec_fixed_val(mi, 2);
    crate::text::lemma_dec_fixed_val(ss, 2);
    assert(s =~= yt + seq!['-'] + mt + seq!['-'] + dt + seq!['T'] + ht + seq![':'] + it + seq![':']
        + st + seq!['Z']);
    assert(s.len() == 20);
    lemma_block_digits(s, 0, y, 4);
    assert(s[4] == '-');
    assert(s.subrange(5, 7) =~= mt);
    lemma_block_digits(s, 5, m, 2);
    assert(s[7] == '-');
    assert(s.subrange(8, 10) =~= dt);
    lemma_block_digits(s, 8, dd, 2);
    assert(s[10] == 'T');
    assert(s.subrange(11, 13) =~= ht);
    lemma_block_digits(s, 11, hh, 2);
    assert(s[13] == ':');
    assert(s.subrange(14, 16) =~= it);
    lemma_block_digits(s, 14, mi, 2);
    assert(s[16] == ':');
    assert(s.subrange(17, 19) =~= st);
    lemma_block_digits(s, 17, ss, 2);
    assert(s[19] == 'Z');
    assert(s.subrange(0, 4) =~= yt);
    assert(date_ok(s));
    assert(time_ok(s, 11));
    assert(rfc_head_ok(s));
    assert(offset_pos(s) == 19);
    assert(offset_ok(s, 19));
    assert(rfc3339_ok(s));
    assert(offset_secs(s, 19) == 0);
    assert(frac_ms(s) == 0);
    assert(head_naive_secs(s) == (day - days_before_year(1970)) * 86400 + hh * 3600 + mi * 60 + ss);
    assert(hh * 3600 + mi * 60 + ss == sod);
    assert((day - days_before_year(1970)) * 86400 == day * 86400 - days_before_year(1970) * 86400)
        by (nonlinear_arith);
    assert(day * 86400 + sod == a) by (nonlinear_arith)
        requires a == 86400 * day + sod;
    assert(rfc3339_ms(s) == e * 1000);
}

/// Reformatting a parsed RFC3339 text as UTC is idempotent: the
/// reformatted text denotes the same instant, so reformatting it again
/// changes nothing.
pub proof fn lemma_rfc3339_reformat_idempotent(s: Seq<char>)
    requires
        rfc3339_ok(s),
        valid_epoch_ms(rfc3339_ms(s)),
    ensures
        ({
            let e = crate::epoch::sec_of_ms(rfc3339_ms(s));
            rfc3339_ok(utc_text(e)) && crate::epoch::sec_of_ms(rfc3339_ms(utc_text(e))) == e
        }),
{
    let e = crate::epoch::sec_of_ms(rfc3339_ms(s));
    crate::epoch::lemma_valid_ms_to_s(rfc3339_ms(s));
    crate::epoch::lemma_valid_is_renderable(e);
    lemma_utc_round_trip(e);
    assert(rfc3339_ms(utc_text(e)) == e * 1000);
    assert(e * 1000 / 1000 == e) by (nonlinear_arith);
}

} // verus!
