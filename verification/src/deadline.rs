use chrono::{DateTime, NaiveDate, NaiveDateTime};
use vstd::prelude::*;

use crate::span::Stamp;

verus! {

/// What a deadline text says, before any time zone is looked up.
#[derive(Clone, Copy, Debug, PartialEq, Eq, Structural)]
pub enum Deadline {
    /// An instant: the text named its UTC offset.
    Instant(Stamp),
    /// A wall-clock time in the local time zone, as the stamp that this
    /// wall-clock reading would be in UTC.
    LocalWallClock(Stamp),
}

/// What chrono's `DateTime::parse_from_str(text, format)` gives, as the
/// UNIX timestamp and sub-second nanoseconds of the parsed instant, or
/// `None` when the text does not match.
pub uninterp spec fn parsed_with_offset(text: Seq<char>, format: Seq<char>) -> Option<(i64, u32)>;

/// What chrono's `NaiveDateTime::parse_from_str(text, format)` gives, as
/// the timestamp and sub-second nanoseconds of that reading taken as UTC,
/// or `None` when the text does not match.
pub uninterp spec fn parsed_naive_datetime(text: Seq<char>, format: Seq<char>) -> Option<(i64, u32)>;

/// What chrono's `NaiveDate::parse_from_str(text, format)` gives, joined by
/// `and_hms_opt(hour, min, sec)` to that time of day, as the timestamp of
/// the result taken as UTC; `None` when the text does not match or the time
/// of day does not exist.
pub uninterp spec fn parsed_naive_date(
    text: Seq<char>,
    format: Seq<char>,
    hour: u32,
    min: u32,
    sec: u32,
) -> Option<i64>;

/// Calls chrono's `DateTime::parse_from_str` and reads the instant with
/// `timestamp` and `timestamp_subsec_nanos` (the offset itself is dropped).
/// Trusted: the result is the name `parsed_with_offset` of the arguments.
#[verifier::external_body]
fn parse_with_offset(text: &str, format: &str) -> (r: Option<(i64, u32)>)
    ensures
        r == parsed_with_offset(text@, format@),
{
    match DateTime::parse_from_str(text, format) {
        Ok(dt) => Some((dt.timestamp(), dt.timestamp_subsec_nanos())),
        Err(_) => None,
    }
}

/// Calls chrono's `NaiveDateTime::parse_from_str` and reads the result
/// through `and_utc` with `timestamp` and `timestamp_subsec_nanos`.
/// Trusted: the result is the name `parsed_naive_datetime` of the arguments.
#[verifier::external_body]
fn parse_naive_datetime(text: &str, format: &str) -> (r: Option<(i64, u32)>)
    ensures
        r == parsed_naive_datetime(text@, format@),
{
    match NaiveDateTime::parse_from_str(text, format) {
        Ok(naive) => {
            let as_utc = naive.and_utc();
            Some((as_utc.timestamp(), as_utc.timestamp_subsec_nanos()))
        },
        Err(_) => None,
    }
}

/// Calls chrono's `NaiveDate::parse_from_str`, joins the date to the given
/// time of day with `and_hms_opt`, and reads the result through `and_utc`
/// with `timestamp`.  Trusted: the result is the name `parsed_naive_date`
/// of the arguments.
#[verifier::external_body]
fn parse_naive_date(text: &str, format: &str, hour: u32, min: u32, sec: u32) -> (r: Option<i64>)
    ensures
        r == parsed_naive_date(text@, format@, hour, min, sec),
{
    match NaiveDate::parse_from_str(text, format) {
        Ok(date) => match date.and_hms_opt(hour, min, sec) {
            Some(moment) => Some(moment.and_utc().timestamp()),
            None => None,
        },
        Err(_) => None,
    }
}

/// The deadline that the three readings of a text give: with an offset
/// first, then as a local date and time, then as a local date at midnight.
pub open spec fn deadline_from_spec(
    with_offset: Option<(i64, u32)>,
    date_time: Option<(i64, u32)>,
    date: Option<i64>,
) -> Option<Deadline> {
    match with_offset {
        Some(p) => Some(Deadline::Instant(Stamp { secs: p.0, nanos: p.1 })),
        None => match date_time {
            Some(p) => Some(Deadline::LocalWallClock(Stamp { secs: p.0, nanos: p.1 })),
            None => match date {
                Some(midnight) => Some(Deadline::LocalWallClock(Stamp { secs: midnight, nanos: 0 })),
                None => None,
            },
        },
    }
}

/// Picks the deadline from the three readings of a text, in order of
/// preference: with an offset, as a local date and time, as a local date
/// (its midnight).
pub fn deadline_from(
    with_offset: Option<(i64, u32)>,
    date_time: Option<(i64, u32)>,
    date: Option<i64>,
) -> (d: Option<Deadline>)
    ensures
        d == deadline_from_spec(with_offset, date_time, date),
{
    if let Some((secs, nanos)) = with_offset {
        return Some(Deadline::Instant(Stamp { secs, nanos }));
    }
    if let Some((secs, nanos)) = date_time {
        return Some(Deadline::LocalWallClock(Stamp { secs, nanos }));
    }
    if let Some(midnight) = date {
        return Some(Deadline::LocalWallClock(Stamp { secs: midnight, nanos: 0 }));
    }
    None
}

/// The deadline that a text gives, by the three formats in turn.
pub open spec fn deadline_of_text(text: Seq<char>) -> Option<Deadline> {
    deadline_from_spec(
        parsed_with_offset(text, offset_format()),
        parsed_naive_datetime(text, date_time_format()),
        parsed_naive_date(text, date_format(), 0, 0, 0),
    )
}

/// The instant a deadline stands for: an instant as it is; a local
/// wall-clock reading as `local_instant`, the instant that the local time
/// zone gives for it; no readable deadline as `now`, a clock reading.
pub open spec fn target_spec(deadline: Option<Deadline>, local_instant: Stamp, now: Stamp) -> Stamp {
    match deadline {
        Some(Deadline::Instant(at)) => at,
        Some(Deadline::LocalWallClock(_)) => local_instant,
        None => now,
    }
}

/// The instant that a deadline stands for (see `target_spec`).
pub fn resolve_target(deadline: Option<Deadline>, local_instant: Stamp, now: Stamp) -> (target: Stamp)
    ensures
        target == target_spec(deadline, local_instant, now),
{
    match deadline {
        Some(Deadline::Instant(at)) => at,
        Some(Deadline::LocalWallClock(_)) => local_instant,
        None => now,
    }
}

/// The format of a deadline with an offset.
pub open spec fn offset_format() -> Seq<char> {
    "%Y-%m-%d %H:%M:%S %z"@
}

/// The format of a local date and time.
pub open spec fn date_time_format() -> Seq<char> {
    "%Y-%m-%d %H:%M:%S"@
}

/// The format of a local date.
pub open spec fn date_format() -> Seq<char> {
    "%Y-%m-%d"@
}

/// A deadline text that carries an offset stands for the instant it names,
/// whatever the local zone and the clock say.
pub proof fn lemma_target_with_offset(text: Seq<char>, secs: i64, nanos: u32, local_instant: Stamp, now: Stamp)
    requires
        parsed_with_offset(text, offset_format()) == Some((secs, nanos)),
    ensures
        target_spec(deadline_of_text(text), local_instant, now) == (Stamp { secs, nanos }),
{
}

/// A text with no offset that reads as a local date and time, or as a
/// local date, stands for the local zone's instant.
pub proof fn lemma_target_local(text: Seq<char>, local_instant: Stamp, now: Stamp)
    requires
        parsed_with_offset(text, offset_format()) is None,
        parsed_naive_datetime(text, date_time_format()) is Some || parsed_naive_date(
            text,
            date_format(),
            0,
            0,
            0,
        ) is Some,
    ensures
        target_spec(deadline_of_text(text), local_instant, now) == local_instant,
{
}

/// A text that reads in none of the formats stands for the clock reading.
pub proof fn lemma_target_unreadable(text: Seq<char>, local_instant: Stamp, now: Stamp)
    requires
        parsed_with_offset(text, offset_format()) is None,
        parsed_naive_datetime(text, date_time_format()) is None,
        parsed_naive_date(text, date_format(), 0, 0, 0) is None,
    ensures
        target_spec(deadline_of_text(text), local_instant, now) == now,
{
}

/// A text that reads only as a local date stands for the start of that
/// day, 00:00:00, on the wall clock.
pub proof fn lemma_deadline_date_only(text: Seq<char>, start: i64)
    requires
        parsed_with_offset(text, offset_format()) is None,
        parsed_naive_datetime(text, date_time_format()) is None,
        parsed_naive_date(text, date_format(), 0, 0, 0) == Some(start),
    ensures
        deadline_of_text(text) == Some(Deadline::LocalWallClock(Stamp { secs: start, nanos: 0 })),
{
}

/// Reads a deadline text: "YYYY-MM-DD HH:MM:SS +HH:MM", else
/// "YYYY-MM-DD HH:MM:SS" in local time, else "YYYY-MM-DD" (local midnight).
pub fn parse_datetime_from_str(datetime_str: &str) -> (d: Option<Deadline>)
    ensures
        d == deadline_of_text(datetime_str@),
{
    let with_offset = parse_with_offset(datetime_str, "%Y-%m-%d %H:%M:%S %z");
    if with_offset.is_some() {
        return deadline_from(with_offset, None, None);
    }
    let date_time = parse_naive_datetime(datetime_str, "%Y-%m-%d %H:%M:%S");
    if date_time.is_some() {
        return deadline_from(None, date_time, None);
    }
    // A date alone means the start of that day.
    let date = parse_naive_date(datetime_str, "%Y-%m-%d", 0, 0, 0);
    deadline_from(None, None, date)
}

} // verus!
