//! Command-level option parsing and the command-level error type, with
//! its mapping to exit codes.

use vstd::prelude::*;

use crate::error::TzBucketError;
use crate::models::{AmbiguousPolicy, Interval, NonexistentPolicy, WeekStart};
use crate::parse::TimestampFormat;
use crate::text::{seq_eq_ci, str_concat, str_eq_ci};
use crate::tz::{is_zone_name, parse_tz, zone_facts, Zone};

verus! {

/// Exit code for success.
pub const EXIT_SUCCESS: u8 = 0;

/// Exit code for input and policy errors.
pub const EXIT_INPUT_ERROR: u8 = 2;

/// Exit code for runtime errors.
pub const EXIT_RUNTIME_ERROR: u8 = 3;

/// How results are rendered.
#[derive(Debug, Clone, Copy, PartialEq, Eq, Structural)]
pub enum OutputFormat {
    Json,
    Text,
}

/// The two classes of command failure.
#[derive(Debug, Clone, Copy, PartialEq, Eq, Structural)]
pub enum ErrorKind {
    /// Bad input or a policy rejection.
    Input,
    /// An internal resolution failure.
    Runtime,
}

/// A command-level error: a kind, a message, and for policy rejections
/// a machine-readable status tag.
#[derive(Debug)]
pub struct CliError {
    pub kind: ErrorKind,
    pub message: String,
    pub status: Option<String>,
}

impl CliError {
    /// An input error.
    pub fn input(message: String) -> (r: Self)
        ensures
            r.kind is Input,
            r.message == message,
            r.status is None,
    {
        CliError { kind: ErrorKind::Input, message, status: None }
    }

    /// A policy rejection, carrying its status tag.
    pub fn policy(message: String, status: &str) -> (r: Self)
        ensures
            r.kind is Input,
            r.message == message,
            r.status is Some && r.status->0@ == status@,
    {
        CliError { kind: ErrorKind::Input, message, status: Some(status.to_owned()) }
    }

    /// A runtime error.
    pub fn runtime(message: String) -> (r: Self)
        ensures
            r.kind is Runtime,
            r.message == message,
            r.status is None,
    {
        CliError { kind: ErrorKind::Runtime, message, status: None }
    }

    /// The process exit code this error maps to.
    pub fn exit_code(&self) -> (r: u8)
        ensures
            self.kind is Input ==> r == 2,
            self.kind is Runtime ==> r == 3,
    {
        match self.kind {
            ErrorKind::Input => EXIT_INPUT_ERROR,
            ErrorKind::Runtime => EXIT_RUNTIME_ERROR,
        }
    }
}

/// The output format to render an error in, before the option itself
/// has parsed: JSON only when the text says so, case-insensitively.
pub fn output_format_hint(s: &str) -> (r: OutputFormat)
    ensures
        r is Json <==> seq_eq_ci(s@, "json"@),
{
    if str_eq_ci(s, "json") {
        OutputFormat::Json
    } else {
        OutputFormat::Text
    }
}

/// Parse the output-format option.
pub fn parse_output_format(s: &str) -> (r: Result<OutputFormat, CliError>)
    ensures
        seq_eq_ci(s@, "json"@) ==> r is Ok && r->Ok_0 is Json,
        seq_eq_ci(s@, "text"@) ==> r is Ok && r->Ok_0 is Text,
        !(seq_eq_ci(s@, "json"@) || seq_eq_ci(s@, "text"@)) ==> r is Err && r->Err_0.kind is Input
            && r->Err_0.message@ == "Invalid output_format '"@ + s@ + "'. Expected: json, text"@,
{
    proof {
        reveal_strlit("json");
        reveal_strlit("text");
    }
    if str_eq_ci(s, "json") {
        proof {
            if seq_eq_ci(s@, "text"@) {
                assert(crate::text::char_eq_ci(s@[0], "json"@[0]));
                assert(crate::text::char_eq_ci(s@[0], "text"@[0]));
                assert(false);
            }
        }
        Ok(OutputFormat::Json)
    } else if str_eq_ci(s, "text") {
        Ok(OutputFormat::Text)
    } else {
        Err(
            CliError::input(
                str_concat(
                    str_concat("Invalid output_format '", s).as_str(),
                    "'. Expected: json, text",
                ),
            ),
        )
    }
}

/// Parse the interval option.
pub fn parse_interval(s: &str) -> (r: Result<Interval, CliError>)
    ensures
        seq_eq_ci(s@, "day"@) ==> r is Ok && r->Ok_0 is Day,
        seq_eq_ci(s@, "week"@) ==> r is Ok && r->Ok_0 is Week,
        seq_eq_ci(s@, "month"@) ==> r is Ok && r->Ok_0 is Month,
        !(seq_eq_ci(s@, "day"@) || seq_eq_ci(s@, "week"@) || seq_eq_ci(s@, "month"@)) ==> r is Err
            && r->Err_0.kind is Input && r->Err_0.message@ == "Invalid interval '"@ + s@
            + "'. Expected: day, week, month"@,
{
    proof {
        reveal_strlit("day");
        reveal_strlit("week");
        reveal_strlit("month");
    }
    if str_eq_ci(s, "day") {
        Ok(Interval::Day)
    } else if str_eq_ci(s, "week") {
        Ok(Interval::Week)
    } else if str_eq_ci(s, "month") {
        Ok(Interval::Month)
    } else {
        Err(
            CliError::input(
                str_concat(
                    str_concat("Invalid interval '", s).as_str(),
                    "'. Expected: day, week, month",
                ),
            ),
        )
    }
}

/// Parse the week-start option.
pub fn parse_week_start(s: &str) -> (r: Result<WeekStart, CliError>)
    ensures
        seq_eq_ci(s@, "monday"@) ==> r is Ok && r->Ok_0 is Monday,
        seq_eq_ci(s@, "sunday"@) ==> r is Ok && r->Ok_0 is Sunday,
        !(seq_eq_ci(s@, "monday"@) || seq_eq_ci(s@, "sunday"@)) ==> r is Err && r->Err_0.kind
            is Input && r->Err_0.message@ == "Invalid week_start '"@ + s@
            + "'. Expected: monday, sunday"@,
{
    proof {
        reveal_strlit("monday");
        reveal_strlit("sunday");
    }
    if str_eq_ci(s, "monday") {
        proof {
            if seq_eq_ci(s@, "sunday"@) {
                assert(crate::text::char_eq_ci(s@[0], "monday"@[0]));
                assert(crate::text::char_eq_ci(s@[0], "sunday"@[0]));
                assert(false);
            }
        }
        Ok(WeekStart::Monday)
    } else if str_eq_ci(s, "sunday") {
        Ok(WeekStart::Sunday)
    } else {
        Err(
            CliError::input(
                str_concat(
                    str_concat("Invalid week_start '", s).as_str(),
                    "'. Expected: monday, sunday",
                ),
            ),
        )
    }
}

/// Parse the timestamp-format option.
pub fn parse_format(s: &str) -> (r: Result<TimestampFormat, CliError>)
    ensures
        seq_eq_ci(s@, "epoch_ms"@) ==> r is Ok && r->Ok_0 is EpochMs,
        seq_eq_ci(s@, "epoch_s"@) ==> r is Ok && r->Ok_0 is EpochS,
        seq_eq_ci(s@, "rfc3339"@) ==> r is Ok && r->Ok_0 is Rfc3339,
        !(seq_eq_ci(s@, "epoch_ms"@) || seq_eq_ci(s@, "epoch_s"@) || seq_eq_ci(s@, "rfc3339"@))
            ==> r is Err && r->Err_0.kind is Input && r->Err_0.message@ == "Invalid format '"@ + s@
            + "'. Expected: epoch_ms, epoch_s, rfc3339"@,
{
    proof {
        reveal_strlit("epoch_ms");
        reveal_strlit("epoch_s");
        reveal_strlit("rfc3339");
    }
    if str_eq_ci(s, "epoch_ms") {
        Ok(TimestampFormat::EpochMs)
    } else if str_eq_ci(s, "epoch_s") {
        proof {
            if seq_eq_ci(s@, "rfc3339"@) {
                assert(crate::text::char_eq_ci(s@[0], "epoch_s"@[0]));
                assert(crate::text::char_eq_ci(s@[0], "rfc3339"@[0]));
                assert(false);
            }
        }
        Ok(TimestampFormat::EpochS)
    } else if str_eq_ci(s, "rfc3339") {
        Ok(TimestampFormat::Rfc3339)
    } else {
        Err(
            CliError::input(
                str_concat(
                    str_concat("Invalid format '", s).as_str(),
                    "'. Expected: epoch_ms, epoch_s, rfc3339",
                ),
            ),
        )
    }
}

/// Parse the nonexistent-time policy option.
pub fn parse_nonexistent_policy(s: &str) -> (r: Result<NonexistentPolicy, CliError>)
    ensures
        seq_eq_ci(s@, "error"@) ==> r is Ok && r->Ok_0 is Error,
        seq_eq_ci(s@, "shift_forward"@) ==> r is Ok && r->Ok_0 is ShiftForward,
        !(seq_eq_ci(s@, "error"@) || seq_eq_ci(s@, "shift_forward"@)) ==> r is Err
            && r->Err_0.kind is Input && r->Err_0.message@ == "Invalid policy_nonexistent '"@ + s@
            + "'. Expected: error, shift_forward"@,
{
    proof {
        reveal_strlit("error");
        reveal_strlit("shift_forward");
    }
    if str_eq_ci(s, "error") {
        Ok(NonexistentPolicy::Error)
    } else if str_eq_ci(s, "shift_forward") {
        Ok(NonexistentPolicy::ShiftForward)
    } else {
        Err(
            CliError::input(
                str_concat(
                    str_concat("Invalid policy_nonexistent '", s).as_str(),
                    "'. Expected: error, shift_forward",
                ),
            ),
        )
    }
}

/// Parse the ambiguous-time policy option.
pub fn parse_ambiguous_policy(s: &str) -> (r: Result<AmbiguousPolicy, CliError>)
    ensures
        seq_eq_ci(s@, "error"@) ==> r is Ok && r->Ok_0 is Error,
        seq_eq_ci(s@, "first"@) ==> r is Ok && r->Ok_0 is First,
        seq_eq_ci(s@, "second"@) ==> r is Ok && r->Ok_0 is Second,
        !(seq_eq_ci(s@, "error"@) || seq_eq_ci(s@, "first"@) || seq_eq_ci(s@, "second"@)) ==> r
            is Err && r->Err_0.kind is Input && r->Err_0.message@ == "Invalid policy_ambiguous '"@
            + s@ + "'. Expected: error, first, second"@,
{
    proof {
        reveal_strlit("error");
        reveal_strlit("first");
        reveal_strlit("second");
    }
    if str_eq_ci(s, "error") {
        proof {
            if seq_eq_ci(s@, "first"@) {
                assert(crate::text::char_eq_ci(s@[0], "error"@[0]));
                assert(crate::text::char_eq_ci(s@[0], "first"@[0]));
                assert(false);
            }
        }
        Ok(AmbiguousPolicy::Error)
    } else if str_eq_ci(s, "first") {
        Ok(AmbiguousPolicy::First)
    } else if str_eq_ci(s, "second") {
        proof {
            if seq_eq_ci(s@, "first"@) {
                assert(crate::text::char_eq_ci(s@[1], "first"@[1]));
                assert(crate::text::char_eq_ci(s@[1], "second"@[1]));
                assert(false);
            }
        }
        Ok(AmbiguousPolicy::Second)
    } else {
        Err(
            CliError::input(
                str_concat(
                    str_concat("Invalid policy_ambiguous '", s).as_str(),
                    "'. Expected: error, first, second",
                ),
            ),
        )
    }
}

/// Parse a timezone name, reporting failure as a command input error.
pub fn parse_tz_or_input_error(name: &str) -> (r: Result<Zone, CliError>)
    ensures
        r is Ok <==> is_zone_name(name@),
        r is Ok ==> r->Ok_0@ == name@ && zone_facts(name@),
        r is Err ==> r->Err_0.kind is Input && r->Err_0.message@ == "Invalid timezone '"@ + name@
            + "': "@ + "Invalid timezone: "@ + name@,
{
    match parse_tz(name) {
        Ok(z) => Ok(z),
        Err(e) => {
            let detail = e.message();
            let msg = str_concat(
                str_concat(str_concat("Invalid timezone '", name).as_str(), "': ").as_str(),
                detail.as_str(),
            );
            proof {
                assert(msg@ =~= "Invalid timezone '"@ + name@ + "': "@ + "Invalid timezone: "@
                    + name@);
            }
            Err(CliError::input(msg))
        },
    }
}

/// Parse an RFC3339 timestamp, reporting failure as a command runtime
/// error; yields epoch milliseconds.
pub fn parse_rfc3339_to_utc(s: &str) -> (r: Result<i64, CliError>)
    ensures
        r is Ok <==> crate::parse::parse_timestamp_spec(s@, TimestampFormat::Rfc3339) is Some,
        r is Ok ==> r->Ok_0 == crate::parse::parse_timestamp_spec(
            s@,
            TimestampFormat::Rfc3339,
        )->0,
        r is Err ==> r->Err_0.kind is Runtime,
{
    match crate::parse::parse_trimmed(s, TimestampFormat::Rfc3339) {
        Ok(ms) => Ok(ms),
        Err(_) => Err(
            CliError::runtime(
                str_concat(str_concat("Failed to parse RFC3339 '", s).as_str(), "'"),
            ),
        ),
    }
}

} // verus!
