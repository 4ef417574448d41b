//! The local-time resolver: classify a wall-clock reading in a zone as
//! normal, ambiguous or nonexistent, and resolve it under the
//! configured policies, including the bounded second-by-second gap
//! search behind the shift-forward policy.

use vstd::prelude::*;

use crate::cal::days_before_year;
use crate::epoch::{abs_of, lemma_epoch_shift, renderable_epoch_s, valid_epoch_s};
use crate::models::{AmbiguousPolicy, NonexistentPolicy};
use crate::options::CliError;
use crate::parse::{char_at_is, date_ok, digits_at, dval_at, read_digits, read_head, rfc_head_ok,
    time_ok};
use crate::render::{local_text, naive_text, render_local, render_naive_epoch};
use crate::text::str_concat;
use crate::tz::{local_lookup, local_of, probe_s, utc_candidates_of, utc_to_local, LocalLookup,
    Zone};
use vstd::string::StrSliceExecFns;
use vstd::string::StringExecFns;

verus! {

/// The separators accepted in a local date-time: `T` or a space.
pub open spec fn local_sep(c: char) -> bool {
    c == 'T' || c == ' '
}

/// An `HH:MM` clock time stands at position `i` of `s`.
pub open spec fn hm_ok(s: Seq<char>, i: int) -> bool {
    &&& i + 5 <= s.len()
    &&& digits_at(s, i, 2)
    &&& s[i + 2] == ':'
    &&& digits_at(s, i + 3, 2)
    &&& dval_at(s, i, 2) <= 23
    &&& dval_at(s, i + 3, 2) <= 59
}

/// A local wall-clock text: `YYYY-MM-DD` then `T` or a space, then
/// `HH:MM:SS` or `HH:MM`, and nothing else.
pub open spec fn local_naive_ok(t: Seq<char>) -> bool {
    ||| (t.len() == 19 && rfc_head_ok(t) && local_sep(t[10]))
    ||| (t.len() == 16 && date_ok(t) && local_sep(t[10]) && hm_ok(t, 11))
}

/// The wall-clock reading a local text denotes, as epoch-style seconds.
pub open spec fn local_naive_secs(t: Seq<char>) -> int {
    let base = (crate::cal::day_number(dval_at(t, 0, 4), dval_at(t, 5, 2), dval_at(t, 8, 2))
        - days_before_year(1970)) * 86400 + dval_at(t, 11, 2) * 3600 + dval_at(t, 14, 2) * 60;
    if t.len() == 19 {
        base + dval_at(t, 17, 2)
    } else {
        base
    }
}

/// Parse a local wall-clock time without offset.  Readings outside the
/// representable years 1..=9998 are rejected like malformed text.
pub fn parse_local_time(s: &str) -> (r: Result<i64, CliError>)
    ensures
        r is Ok <==> local_naive_ok(s@) && valid_epoch_s(local_naive_secs(s@)),
        r is Ok ==> r->Ok_0 == local_naive_secs(s@),
        r is Err ==> r->Err_0.kind is Input && r->Err_0.message@ == "Invalid local time format '"@
            + s@ + "'. Expected: YYYY-MM-DDTHH:MM:SS"@,
{
    proof {
        lemma_epoch_shift();
    }
    let n = s.unicode_len();
    let mut val: Option<i64> = None;
    if n == 19 {
        match read_head(s, true) {
            Some(h) => {
                let secs: i64 = (h.day - 719528) * 86400 + h.hh * 3600 + h.mi * 60 + h.ss;
                val = Some(secs);
            },
            None => {
            },
        }
    } else if n == 16 {
        let y = read_digits(s, 0, 4);
        let m = read_digits(s, 5, 2);
        let d = read_digits(s, 8, 2);
        let hh = read_digits(s, 11, 2);
        let mi = read_digits(s, 14, 2);
        let dashes = char_at_is(s, 4, '-') && char_at_is(s, 7, '-');
        let sep = char_at_is(s, 10, 'T') || char_at_is(s, 10, ' ');
        let colon = char_at_is(s, 13, ':');
        match (y, m, d, hh, mi) {
            (Some(yv), Some(mv), Some(dv), Some(hv), Some(iv)) => {
                if dashes && sep && colon && 1 <= mv && mv <= 12 && 1 <= dv && dv
                    <= crate::cal::month_length(yv, mv) && hv <= 23 && iv <= 59 {
                    proof {
                        crate::render::lemma_pow10_small();
                        assert(crate::cal::valid_ymd(yv as int, mv as int, dv as int));
                    }
                    let day = crate::cal::day_of_civil(yv, mv, dv);
                    let secs: i64 = (day - 719528) * 86400 + hv * 3600 + iv * 60;
                    val = Some(secs);
                }
            },
            _ => {
            },
        }
    }
    match val {
        Some(v) => {
            if crate::epoch::epoch_s_in_range(v) {
                return Ok(v);
            }
        },
        None => {
        },
    }
    Err(
        CliError::input(
            str_concat(
                str_concat("Invalid local time format '", s).as_str(),
                "'. Expected: YYYY-MM-DDTHH:MM:SS",
            ),
        ),
    )
}

/// The bound of the gap search: two days of seconds either way.
pub open spec fn search_bound() -> int {
    172800
}

/// `k` is the distance to the first wall-clock reading after `l` that
/// the zone can resolve.
pub open spec fn is_first_valid_after(z: Seq<char>, l: int, k: int) -> bool {
    &&& 1 <= k <= search_bound()
    &&& utc_candidates_of(z, l + k).len() > 0
    &&& forall|j: int| 1 <= j < k ==> #[trigger] utc_candidates_of(z, l + j).len() == 0
}

/// `k` is the distance to the last wall-clock reading before `l` that
/// the zone can resolve.
pub open spec fn is_first_valid_before(z: Seq<char>, l: int, k: int) -> bool {
    &&& 1 <= k <= search_bound()
    &&& utc_candidates_of(z, l - k).len() > 0
    &&& forall|j: int| 1 <= j < k ==> #[trigger] utc_candidates_of(z, l - j).len() == 0
}

/// A search hit: the distance walked, in seconds, and the UTC instant
/// the found reading resolves to.
#[derive(Debug, Clone, Copy, PartialEq, Eq, Structural)]
pub struct FoundReading {
    pub dist: i64,
    pub utc: i64,
}

/// Search forward, second by second, for the first resolvable reading;
/// returns its distance and its earliest UTC instant.
pub fn find_next_valid_local_time(local_s: i64, z: &Zone) -> (r: Option<FoundReading>)
    requires
        valid_epoch_s(local_s as int),
    ensures
        r is Some ==> is_first_valid_after(z@, local_s as int, r->0.dist as int),
        r is Some ==> r->0.utc as int == utc_candidates_of(z@, local_s as int + r->0.dist).first()
            && local_of(z@, r->0.utc as int) == local_s + r->0.dist && -86400 < r->0.utc - (local_s
            + r->0.dist) < 86400,
        r is None ==> forall|j: int|
            1 <= j <= search_bound() ==> #[trigger] utc_candidates_of(z@, local_s as int + j).len()
                == 0,
{
    proof {
        lemma_epoch_shift();
    }
    let mut k: i64 = 1;
    while k <= 172800
        invariant
            1 <= k <= 172801,
            valid_epoch_s(local_s as int),
            forall|j: int|
                1 <= j < k ==> #[trigger] utc_candidates_of(z@, local_s as int + j).len() == 0,
        decreases 172801 - k,
    {
        proof {
            lemma_epoch_shift();
        }
        match local_lookup(local_s + k, z) {
            LocalLookup::Nonexistent => {
                k = k + 1;
            },
            LocalLookup::Unique(t) => {
                return Some(FoundReading { dist: k, utc: t });
            },
            LocalLookup::Ambiguous(a, _b) => {
                return Some(FoundReading { dist: k, utc: a });
            },
        }
    }
    None
}

/// Search backward, second by second, for the last resolvable reading;
/// returns its distance and its latest UTC instant.
pub fn find_previous_valid_local_time(local_s: i64, z: &Zone) -> (r: Option<FoundReading>)
    requires
        valid_epoch_s(local_s as int),
    ensures
        r is Some ==> is_first_valid_before(z@, local_s as int, r->0.dist as int),
        r is Some ==> r->0.utc as int == utc_candidates_of(z@, local_s as int - r->0.dist).last()
            && local_of(z@, r->0.utc as int) == local_s - r->0.dist && -86400 < r->0.utc - (local_s
            - r->0.dist) < 86400,
        r is None ==> forall|j: int|
            1 <= j <= search_bound() ==> #[trigger] utc_candidates_of(z@, local_s as int - j).len()
                == 0,
{
    proof {
        lemma_epoch_shift();
    }
    let mut k: i64 = 1;
    while k <= 172800
        invariant
            1 <= k <= 172801,
            valid_epoch_s(local_s as int),
            forall|j: int|
                1 <= j < k ==> #[trigger] utc_candidates_of(z@, local_s as int - j).len() == 0,
        decreases 172801 - k,
    {
        proof {
            lemma_epoch_shift();
        }
        match local_lookup(local_s - k, z) {
            LocalLookup::Nonexistent => {
                k = k + 1;
            },
            LocalLookup::Unique(t) => {
                return Some(FoundReading { dist: k, utc: t });
            },
            LocalLookup::Ambiguous(_a, b) => {
                return Some(FoundReading { dist: k, utc: b });
            },
        }
    }
    None
}

/// Where a skipped reading lands after the shift-forward rule: the
/// reading is moved up by the width of the skipped region (the span
/// between its valid neighbours, less one second) and resolved again —
/// earliest first, falling back to the first reading past the gap.
pub open spec fn shift_result_spec(z: Seq<char>, l: int, kn: int, kp: int) -> int {
    let shifted = l + kn + kp - 1;
    let cand = utc_candidates_of(z, shifted);
    if cand.len() > 0 {
        cand.first()
    } else {
        utc_candidates_of(z, l + kn).first()
    }
}

/// Resolve a skipped reading by the shift-forward rule.
pub fn resolve_nonexistent_shift_forward(local_s: i64, z: &Zone) -> (r: Option<i64>)
    requires
        valid_epoch_s(local_s as int),
    ensures
        r is Some ==> exists|kn: int, kp: int|
            #[trigger] is_first_valid_after(z@, local_s as int, kn)
                && #[trigger] is_first_valid_before(z@, local_s as int, kp) && r->0
                == shift_result_spec(z@, local_s as int, kn, kp),
        r is Some ==> renderable_epoch_s(r->0 as int),
        r is Some ==> days_before_year(1) * 86400 - 86400 <= abs_of(r->0 as int)
            < days_before_year(9999) * 86400 + 6 * 86400,
        r is None ==> (forall|j: int|
            1 <= j <= search_bound() ==> #[trigger] utc_candidates_of(z@, local_s as int + j).len()
                == 0) || (forall|j: int|
            1 <= j <= search_bound() ==> #[trigger] utc_candidates_of(z@, local_s as int - j).len()
                == 0),
{
    proof {
        lemma_epoch_shift();
    }
    let prev = match find_previous_valid_local_time(local_s, z) {
        Some(p) => p,
        None => {
            return None;
        },
    };
    let next = match find_next_valid_local_time(local_s, z) {
        Some(x) => x,
        None => {
            return None;
        },
    };
    let gap: i64 = next.dist + prev.dist - 1;
    let shifted: i64 = local_s + gap;
    let ghost kn = next.dist as int;
    let ghost kp = prev.dist as int;
    let out: i64;
    match local_lookup(shifted, z) {
        LocalLookup::Nonexistent => {
            out = next.utc;
        },
        LocalLookup::Unique(t) => {
            out = t;
        },
        LocalLookup::Ambiguous(a, _b) => {
            out = a;
        },
    }
    proof {
        assert(is_first_valid_after(z@, local_s as int, kn) && is_first_valid_before(
            z@,
            local_s as int,
            kp,
        ) && out == shift_result_spec(z@, local_s as int, kn, kp));
    }
    Some(out)
}

/// The local-time text used in explanations and messages.
pub open spec fn local_time_text(l: int) -> Seq<char> {
    naive_text(abs_of(l))
}

/// How a resolved instant is rendered: local wall-clock text with the
/// offset in effect at that instant.
pub open spec fn rendered_at(z: Seq<char>, t: int) -> Seq<char> {
    local_text(t, local_of(z, t) - t)
}

/// The message a rejected ambiguous reading carries.
pub open spec fn ambiguous_message(z: Seq<char>, l: int) -> Seq<char> {
    "Ambiguous time '"@ + local_time_text(l) + "' in timezone '"@ + z
        + "'. Occurs twice due to DST fall back. Use --policy-ambiguous=first or --policy-ambiguous=second to resolve."@
}

/// The message a rejected nonexistent reading carries.
pub open spec fn nonexistent_message(z: Seq<char>, l: int) -> Seq<char> {
    "Nonexistent time '"@ + local_time_text(l) + "' in timezone '"@ + z
        + "'. Skipped due to DST spring forward. Use --policy-nonexistent=shift_forward to resolve."@
}

/// The resolution part of an explanation: which policy produced which
/// instant.
#[derive(Debug, Clone)]
pub struct Resolution {
    pub policy: String,
    pub result: String,
}

/// The explanation of one local-time reading.
#[derive(Debug, Clone)]
pub struct ExplainResult {
    pub local_time: String,
    pub tz: String,
    pub status: String,
    pub resolution: Option<Resolution>,
}

/// Classify a wall-clock reading in a zone and resolve it under the
/// given policies.
#[verifier::rlimit(100)]
pub fn explain_local_time(
    local_s: i64,
    z: &Zone,
    nonexistent_policy: NonexistentPolicy,
    ambiguous_policy: AmbiguousPolicy,
) -> (r: Result<ExplainResult, CliError>)
    requires
        valid_epoch_s(local_s as int),
    ensures
        ({
            let cand = utc_candidates_of(z@, local_s as int);
            let l = local_s as int;
            &&& r is Ok ==> r->Ok_0.local_time@ == local_time_text(l) && r->Ok_0.tz@ == z@
            &&& cand.len() == 1 ==> r is Ok && r->Ok_0.status@ == "normal"@
                && r->Ok_0.resolution is None
            &&& cand.len() == 2 && ambiguous_policy is Error ==> r is Err && r->Err_0.kind is Input
                && r->Err_0.status is Some && r->Err_0.status->0@ == "ambiguous"@
                && r->Err_0.message@ == ambiguous_message(z@, l)
            &&& cand.len() == 2 && ambiguous_policy is First ==> r is Ok && r->Ok_0.status@
                == "ambiguous"@ && r->Ok_0.resolution is Some && r->Ok_0.resolution->0.policy@
                == "first"@ && r->Ok_0.resolution->0.result@ == rendered_at(z@, cand[0])
            &&& cand.len() == 2 && ambiguous_policy is Second ==> r is Ok && r->Ok_0.status@
                == "ambiguous"@ && r->Ok_0.resolution is Some && r->Ok_0.resolution->0.policy@
                == "second"@ && r->Ok_0.resolution->0.result@ == rendered_at(z@, cand[1])
            &&& cand.len() == 0 && nonexistent_policy is Error ==> r is Err && r->Err_0.kind
                is Input && r->Err_0.status is Some && r->Err_0.status->0@ == "nonexistent"@
                && r->Err_0.message@ == nonexistent_message(z@, l)
            &&& cand.len() == 0 && nonexistent_policy is ShiftForward ==> (r is Ok <==> ((
            exists|k: int|
                1 <= k <= search_bound() && #[trigger] utc_candidates_of(z@, l + k).len() > 0) && (
            exists|k: int|
                1 <= k <= search_bound() && #[trigger] utc_candidates_of(z@, l - k).len() > 0)))
            &&& cand.len() == 0 && nonexistent_policy is ShiftForward && r is Ok ==> r->Ok_0.status@
                == "nonexistent"@ && r->Ok_0.resolution is Some && r->Ok_0.resolution->0.policy@
                == "shift_forward"@ && (exists|kn: int, kp: int|
                #[trigger] is_first_valid_after(z@, l, kn) && #[trigger] is_first_valid_before(
                    z@,
                    l,
                    kp,
                ) && r->Ok_0.resolution->0.result@ == rendered_at(z@, shift_result_spec(z@, l, kn, kp)))
            &&& cand.len() == 0 && nonexistent_policy is ShiftForward && r is Err ==> r->Err_0.kind
                is Runtime && r->Err_0.message@
                == "Could not resolve shifted time with shift_forward policy"@
        }),
{
    proof {
        lemma_epoch_shift();
        crate::epoch::lemma_valid_is_renderable(local_s as int);
        crate::tz::lemma_valid_probe(local_s as int);
    }
    let local_time = render_naive_epoch(local_s);
    let zone_name = z.name().to_owned();
    match local_lookup(local_s, z) {
        LocalLookup::Unique(_t) => Ok(
            ExplainResult {
                local_time,
                tz: zone_name,
                status: "normal".to_owned(),
                resolution: None,
            },
        ),
        LocalLookup::Ambiguous(first, second) => {
            match ambiguous_policy {
                AmbiguousPolicy::Error => {
                    let msg = str_concat(
                        str_concat(
                            str_concat(
                                str_concat("Ambiguous time '", local_time.as_str()).as_str(),
                                "' in timezone '",
                            ).as_str(),
                            z.name(),
                        ).as_str(),
                        "'. Occurs twice due to DST fall back. Use --policy-ambiguous=first or --policy-ambiguous=second to resolve.",
                    );
                    Err(CliError::policy(msg, "ambiguous"))
                },
                AmbiguousPolicy::First => {
                    let off = utc_to_local(first, z) - first;
                    let result = render_local(first, off);
                    Ok(
                        ExplainResult {
                            local_time,
                            tz: zone_name,
                            status: "ambiguous".to_owned(),
                            resolution: Some(
                                Resolution { policy: "first".to_owned(), result },
                            ),
                        },
                    )
                },
                AmbiguousPolicy::Second => {
                    let off = utc_to_local(second, z) - second;
                    let result = render_local(second, off);
                    Ok(
                        ExplainResult {
                            local_time,
                            tz: zone_name,
                            status: "ambiguous".to_owned(),
                            resolution: Some(
                                Resolution { policy: "second".to_owned(), result },
                            ),
                        },
                    )
                },
            }
        },
        LocalLookup::Nonexistent => {
            match nonexistent_policy {
                NonexistentPolicy::Error => {
                    let msg = str_concat(
                        str_concat(
                            str_concat(
                                str_concat("Nonexistent time '", local_time.as_str()).as_str(),
                                "' in timezone '",
                            ).as_str(),
                            z.name(),
                        ).as_str(),
                        "'. Skipped due to DST spring forward. Use --policy-nonexistent=shift_forward to resolve.",
                    );
                    Err(CliError::policy(msg, "nonexistent"))
                },
                NonexistentPolicy::ShiftForward => {
                    match resolve_nonexistent_shift_forward(local_s, z) {
                        Some(t) => {
                            let off = utc_to_local(t, z) - t;
                            let result = render_local(t, off);
                            Ok(
                                ExplainResult {
                                    local_time,
                                    tz: zone_name,
                                    status: "nonexistent".to_owned(),
                                    resolution: Some(
                                        Resolution { policy: "shift_forward".to_owned(), result },
                                    ),
                                },
                            )
                        },
                        None => Err(
                            CliError::runtime(
                                "Could not resolve shifted time with shift_forward policy".to_owned(),
                            ),
                        ),
                    }
                },
            }
        },
    }
}

/// The shifted instant the shift-forward rule yields never precedes
/// the first instant past the gap: the resolution lands at or after
/// the gap's far edge.
pub proof fn lemma_shift_lands_past_gap(z: Seq<char>, l: int, kn: int, kp: int)
    requires
        crate::tz::zone_facts(z),
        valid_epoch_s(l),
        is_first_valid_after(z, l, kn),
        is_first_valid_before(z, l, kp),
    ensures
        shift_result_spec(z, l, kn, kp) >= utc_candidates_of(z, l + kn).first(),
{
    lemma_epoch_shift();
    let shifted = l + kn + kp - 1;
    let cs = utc_candidates_of(z, shifted);
    let cn = utc_candidates_of(z, l + kn);
    assert(probe_s(shifted));
    assert(probe_s(l + kn));
    if cs.len() > 0 {
        if shifted > l + kn {
            assert(cn.first() < cs.first());
        } else {
            assert(shifted == l + kn);
        }
    }
}

} // verus!
