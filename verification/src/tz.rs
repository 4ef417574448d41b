//! The timezone provider boundary.
//!
//! Everything this crate knows about real timezones enters through the
//! trusted items of this module, which wrap chrono-tz.  A zone's
//! behaviour is named by two uninterpreted functions: `local_of`, the
//! wall clock a UTC instant shows in the zone, and `utc_candidates_of`,
//! the UTC instants at which the zone's wall clock shows a given
//! reading (none inside a spring-forward gap, two inside a fall-back
//! overlap).  Wall-clock readings are encoded as the epoch seconds of
//! the reading taken as if it were UTC.

use vstd::prelude::*;

use crate::cal::days_before_year;
use crate::epoch::{abs_of, epoch_shift_s, lemma_epoch_shift, valid_epoch_s};
use crate::error::TzBucketError;
use chrono::TimeZone;

verus! {

#[verifier::external_type_specification]
#[verifier::external_body]
pub struct ExTz(chrono_tz::Tz);

/// Whether a string is the name of a zone in the IANA database that
/// chrono-tz carries.
pub uninterp spec fn is_zone_name(s: Seq<char>) -> bool;

/// The wall-clock reading (as epoch-style seconds) that UTC instant
/// `utc_s` shows in the named zone.
pub uninterp spec fn local_of(zone: Seq<char>, utc_s: int) -> int;

/// The UTC instants, in ascending order, at which the named zone's wall
/// clock shows the reading `local_s`.
pub uninterp spec fn utc_candidates_of(zone: Seq<char>, local_s: int) -> Seq<int>;

/// The window of seconds the provider is consulted over: the renderable
/// years 0..=9999.  Representable instants (years 1..=9998) sit a full
/// year inside it, which covers every bucket boundary and the bounded
/// gap search.
pub open spec fn probe_s(e: int) -> bool {
    0 <= abs_of(e) < days_before_year(10000) * 86400
}

pub proof fn lemma_valid_probe(e: int)
    requires
        valid_epoch_s(e),
    ensures
        probe_s(e),
{
    lemma_epoch_shift();
}

/// What this crate assumes of a zone's conversion functions over the
/// probe window, read off chrono-tz's timespan representation: a zone is
/// a timeline of fixed-offset spans whose transitions lie much farther
/// apart than any offset change.
///
/// - every instant is among the candidates of its own wall-clock
///   reading;
/// - offsets are smaller than a day in magnitude (chrono's
///   `FixedOffset` bound);
/// - a reading has at most two candidates, ordered ascending;
/// - as the wall-clock reading grows, the earliest candidate grows
///   strictly, and so does the latest.
pub open spec fn zone_facts(z: Seq<char>) -> bool {
    &&& forall|t: int|
        probe_s(t) ==> utc_candidates_of(z, #[trigger] local_of(z, t)).contains(t)
    &&& forall|t: int| probe_s(t) ==> -86400 < #[trigger] local_of(z, t) - t < 86400
    &&& forall|l: int|
        probe_s(l) ==> (#[trigger] utc_candidates_of(z, l).len() <= 2 && (utc_candidates_of(
            z,
            l,
        ).len() == 2 ==> utc_candidates_of(z, l)[0] < utc_candidates_of(z, l)[1]))
    &&& forall|l1: int, l2: int|
        probe_s(l1) && probe_s(l2) && l1 < l2 && #[trigger] utc_candidates_of(z, l1).len() > 0
            && #[trigger] utc_candidates_of(z, l2).len() > 0 ==> utc_candidates_of(z, l1).first()
            < utc_candidates_of(z, l2).first() && utc_candidates_of(z, l1).last()
            < utc_candidates_of(z, l2).last()
}

/// A named IANA timezone.  Its mathematical identity is its name; the
/// chrono-tz value inside is the means of consulting the zone database.
#[derive(Debug)]
pub struct Zone {
    tz: chrono_tz::Tz,
    name: String,
}

impl View for Zone {
    type V = Seq<char>;

    closed spec fn view(&self) -> Seq<char> {
        self.name@
    }
}

impl Zone {
    /// Every zone value carries the conversion facts of its name: the
    /// only constructor is the trusted lookup, which asserts them.
    #[verifier::type_invariant]
    pub open spec fn wf(self) -> bool {
        zone_facts(self@)
    }

    /// The zone's IANA name.
    pub fn name(&self) -> (r: &str)
        ensures
            r@ == self@,
    {
        self.name.as_str()
    }
}

/// Relies on chrono-tz's `FromStr` for `Tz`, which succeeds exactly on
/// the IANA zone names compiled into the crate; the quantified
/// `zone_facts` are read off the timespan timeline that backs every
/// parsed zone.
#[verifier::external_body]
fn lookup_zone(name: &str) -> (r: Option<Zone>)
    ensures
        r is Some <==> is_zone_name(name@),
        r is Some ==> r->0@ == name@,
        r is Some ==> zone_facts(name@),
{
    match name.parse::<chrono_tz::Tz>() {
        Ok(tz) => Some(Zone { tz, name: name.to_string() }),
        Err(_) => None,
    }
}

/// Parse an IANA timezone name.
pub fn parse_tz(name: &str) -> (r: Result<Zone, TzBucketError>)
    ensures
        r is Ok <==> is_zone_name(name@),
        r is Ok ==> r->Ok_0@ == name@ && zone_facts(name@),
        r is Err ==> r->Err_0 is InvalidTimezone && r->Err_0->InvalidTimezone_0@ == name@,
{
    match lookup_zone(name) {
        Some(z) => Ok(z),
        None => Err(TzBucketError::InvalidTimezone(name.to_owned())),
    }
}

/// Relies on chrono's `TimeZone::from_utc_datetime` for chrono-tz's
/// `Tz`: the wall clock an instant shows is the instant plus the offset
/// of the timespan containing it, a function of zone and instant alone.
#[verifier::external_body]
pub fn utc_to_local(utc_s: i64, z: &Zone) -> (r: i64)
    requires
        probe_s(utc_s as int),
    ensures
        r as int == local_of(z@, utc_s as int),
        -86400 < r - utc_s < 86400,
{
    let dt = chrono::DateTime::from_timestamp(utc_s, 0).unwrap();
    let local = z.tz.from_utc_datetime(&dt.naive_utc());
    local.naive_local().and_utc().timestamp()
}

/// How a zone maps one wall-clock reading back to UTC.
#[derive(Debug, Clone, Copy, PartialEq, Eq, Structural)]
pub enum LocalLookup {
    /// The reading was skipped by a forward clock jump.
    Nonexistent,
    /// The reading occurred at exactly one UTC instant.
    Unique(i64),
    /// The reading occurred twice: at the earlier instant (still on the
    /// pre-transition offset) and at the later one.
    Ambiguous(i64, i64),
}

/// Relies on chrono's `TimeZone::from_local_datetime` for chrono-tz's
/// `Tz`: it returns the timespans whose local extent covers the
/// reading — none, one, or an adjacent pair ordered earlier-first — and
/// each returned instant shows the requested reading.
#[verifier::external_body]
pub fn local_lookup(local_s: i64, z: &Zone) -> (r: LocalLookup)
    requires
        probe_s(local_s as int),
    ensures
        r is Nonexistent <==> utc_candidates_of(z@, local_s as int).len() == 0,
        r is Unique <==> utc_candidates_of(z@, local_s as int).len() == 1,
        r is Ambiguous <==> utc_candidates_of(z@, local_s as int).len() == 2,
        r is Unique ==> utc_candidates_of(z@, local_s as int) == seq![r->Unique_0 as int]
            && local_of(z@, r->Unique_0 as int) == local_s && -86400 < r->Unique_0 - local_s
            < 86400,
        r is Ambiguous ==> utc_candidates_of(z@, local_s as int) == seq![
            r->Ambiguous_0 as int,
            r->Ambiguous_1 as int,
        ] && r->Ambiguous_0 < r->Ambiguous_1 && local_of(z@, r->Ambiguous_0 as int) == local_s
            && local_of(z@, r->Ambiguous_1 as int) == local_s && -86400 < r->Ambiguous_0 - local_s
            < 86400 && -86400 < r->Ambiguous_1 - local_s < 86400,
{
    let naive = chrono::DateTime::from_timestamp(local_s, 0).unwrap().naive_utc();
    match z.tz.from_local_datetime(&naive) {
        chrono::LocalResult::None => LocalLookup::Nonexistent,
        chrono::LocalResult::Single(d) => LocalLookup::Unique(d.timestamp()),
        chrono::LocalResult::Ambiguous(a, b) => LocalLookup::Ambiguous(a.timestamp(), b.timestamp()),
    }
}

/// How a wall-clock reading resolves to UTC when no policy is in play:
/// the unique instant, the earlier of two, or — for a skipped reading —
/// the reading itself taken as UTC, the provider's built-in fallback.
pub open spec fn resolve_local_spec(z: Seq<char>, l: int) -> int {
    let cand = utc_candidates_of(z, l);
    if cand.len() == 0 {
        l
    } else {
        cand.first()
    }
}

/// Convert a wall-clock reading in a zone to a single UTC instant,
/// using the default resolution of [`resolve_local_spec`].
pub fn local_to_utc(local_s: i64, z: &Zone) -> (r: i64)
    requires
        probe_s(local_s as int),
    ensures
        r as int == resolve_local_spec(z@, local_s as int),
        -86400 < r - local_s < 86400 || r == local_s,
        utc_candidates_of(z@, local_s as int).len() > 0 ==> local_of(z@, r as int) == local_s,
{
    match local_lookup(local_s, z) {
        LocalLookup::Nonexistent => local_s,
        LocalLookup::Unique(t) => t,
        LocalLookup::Ambiguous(a, _b) => a,
    }
}

/// The wall-clock reading of local midnight of a day number.
pub open spec fn midnight_epoch_s(day: int) -> int {
    day * 86400 - epoch_shift_s()
}

/// Convert local midnight of a day number to a single UTC instant.
pub fn local_midnight_to_utc(day: i64, z: &Zone) -> (r: i64)
    requires
        0 <= day < days_before_year(10000),
    ensures
        r as int == resolve_local_spec(z@, midnight_epoch_s(day as int)),
        -86400 < r - midnight_epoch_s(day as int) < 86400 || r == midnight_epoch_s(day as int),
        utc_candidates_of(z@, midnight_epoch_s(day as int)).len() > 0 ==> local_of(z@, r as int)
            == midnight_epoch_s(day as int),
{
    proof {
        lemma_epoch_shift();
    }
    let l: i64 = day * 86400 - 62167219200;
    local_to_utc(l, z)
}

/// Render an instant as local wall-clock text with its offset suffix.
pub fn format_rfc3339(utc_s: i64, offset_s: i64) -> (r: String)
    requires
        crate::epoch::renderable_epoch_s(utc_s as int),
        -86400 < offset_s < 86400,
        0 <= abs_of(utc_s as int) + offset_s < days_before_year(10000) * 86400,
    ensures
        r@ == crate::render::local_text(utc_s as int, offset_s as int),
{
    crate::render::render_local(utc_s, offset_s)
}

/// Render an instant as UTC text with the `Z` suffix.
pub fn format_rfc3339_utc(utc_s: i64) -> (r: String)
    requires
        crate::epoch::renderable_epoch_s(utc_s as int),
    ensures
        r@ == crate::render::utc_text(utc_s as int),
{
    crate::render::render_utc(utc_s)
}

} // verus!
