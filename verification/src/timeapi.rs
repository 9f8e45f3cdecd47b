use vstd::prelude::*;

use chrono::{Datelike, TimeZone, Timelike};
use std::str::FromStr;
use fuzzy_matcher::FuzzyMatcher;

verus! {

/// A civil date and time of day, as plain values: what the logic reads of
/// an instant in some timezone. Validity (a real calendar date, hours below
/// twenty-four) is the timezone conversion's concern: an impossible civil
/// time converts to no instant.
#[derive(Clone, Copy, Debug, PartialEq, Eq, Structural)]
pub struct CivilDateTime {
    pub year: i32,
    pub month: u8,
    pub day: u8,
    pub hour: u8,
    pub minute: u8,
    pub second: u8,
}

/// Whether the timezone database knows a zone of this name.
pub uninterp spec fn tz_known(name: Seq<char>) -> bool;

/// The civil time that a UTC instant reads as in the named zone, when the
/// zone is known and the instant is representable.
pub uninterp spec fn local_civil_of(tz: Seq<char>, ts: int) -> Option<CivilDateTime>;

/// The UTC instant that a civil time in the named zone denotes, when it
/// exists and is unambiguous.
pub uninterp spec fn utc_of(tz: Seq<char>, c: CivilDateTime) -> Option<i64>;

/// The calendar date that the date recognizer reads from free-form text,
/// relative to a base date.
pub uninterp spec fn parsed_date_of(text: Seq<char>, y: int, m: int, d: int) -> Option<
    (i32, u8, u8),
>;

/// The time of day that the time recognizer reads from free-form text,
/// relative to a base time.
pub uninterp spec fn parsed_time_of(text: Seq<char>, h: int, mi: int, s: int) -> Option<
    (u8, u8, u8),
>;

/// The text that strftime-style formatting of a UTC instant in the named
/// zone produces.
pub uninterp spec fn zone_format_of(ts: int, tz: Seq<char>, fmt: Seq<char>) -> Seq<char>;

/// The skim fuzzy-match score of a pattern against a choice, if they match
/// at all.
pub uninterp spec fn skim_score_of(choice: Seq<char>, pattern: Seq<char>) -> Option<i64>;

/// Relies on chrono_tz's `Tz::from_str`: a name parses exactly when the
/// compiled timezone database knows it.
#[verifier::external_body]
pub(crate) fn tz_valid(name: &str) -> (r: bool)
    ensures
        r == tz_known(name@),
{
    chrono_tz::Tz::from_str(name).is_ok()
}

/// Relies on chrono's timestamp conversion and chrono_tz's zone data to
/// read a UTC instant as civil time in a named zone; the result depends on
/// the arguments and the compiled timezone database alone. An unknown zone
/// name reads as nothing.
#[verifier::external_body]
pub(crate) fn local_civil(tz_name: &str, utc_ts: i64) -> (r: Option<CivilDateTime>)
    ensures
        r == local_civil_of(tz_name@, utc_ts as int),
        !tz_known(tz_name@) ==> r is None,
{
    let tz = match chrono_tz::Tz::from_str(tz_name) { Ok(t) => t, Err(_) => return None };
    let dt = match chrono::DateTime::<chrono::Utc>::from_timestamp(utc_ts, 0) {
        Some(d) => d.with_timezone(&tz),
        None => return None,
    };
    Some(CivilDateTime {
        year: dt.year(),
        month: dt.month() as u8,
        day: dt.day() as u8,
        hour: dt.hour() as u8,
        minute: dt.minute() as u8,
        second: dt.second() as u8,
    })
}

/// Relies on chrono's `from_local_datetime(..).single()` with chrono_tz's
/// zone data: the one UTC instant a civil time denotes in the zone, or
/// nothing when the civil time is impossible, skipped or ambiguous there.
#[verifier::external_body]
pub(crate) fn civil_to_utc(tz_name: &str, c: CivilDateTime) -> (r: Option<i64>)
    ensures
        r == utc_of(tz_name@, c),
        !tz_known(tz_name@) ==> r is None,
{
    let tz = match chrono_tz::Tz::from_str(tz_name) { Ok(t) => t, Err(_) => return None };
    let date = chrono::NaiveDate::from_ymd_opt(c.year, c.month as u32, c.day as u32);
    let date = match date { Some(d) => d, None => return None };
    let time = chrono::NaiveTime::from_hms_opt(c.hour as u32, c.minute as u32, c.second as u32);
    let time = match time { Some(t) => t, None => return None };
    match tz.from_local_datetime(&chrono::NaiveDateTime::new(date, time)).single() {
        Some(dt) => Some(dt.timestamp()),
        None => None,
    }
}

/// Relies on date_time_parser's `DateParser::parse_relative`: the calendar
/// date read from free-form text like `tomorrow` or `july 4th`, relative to
/// the base date; the result depends on the arguments alone. The recognizer
/// aborts on some inputs, all excluded by the `requires`: its regexes match
/// Unicode digits and case-folded letters while its captures parse as ASCII
/// (so the text must be ASCII), a few ASCII shapes reach an impossible
/// calendar date (decided by the verified `date_input_safe` guard), and a
/// base near the calendar's limits aborts the relative-day arithmetic.
#[verifier::external_body]
pub(crate) fn parse_date_relative(text: &str, base: CivilDateTime) -> (r: Option<(i32, u8, u8)>)
    requires
        vstd::string::is_ascii(text),
        crate::dateguard::date_input_safe(text@),
        -9999 <= base.year <= 9999,
    ensures
        r == parsed_date_of(text@, base.year as int, base.month as int, base.day as int),
{
    let today = chrono::NaiveDate::from_ymd_opt(base.year, base.month as u32, base.day as u32);
    let today = match today { Some(d) => d, None => return None };
    match date_time_parser::DateParser::parse_relative(text, today) {
        Some(d) => Some((d.year(), d.month() as u8, d.day() as u8)),
        None => None,
    }
}

/// Relies on date_time_parser's `TimeParser::parse_relative`: the time of
/// day read from free-form text like `8:30pm`, relative to the base time;
/// the result depends on the arguments alone. The text must be ASCII: the
/// recognizer's regexes match Unicode digits while its captures parse as
/// ASCII, so a non-ASCII digit aborts it. On ASCII text it is total — every
/// capture is at most two ASCII digits, impossible clock values go through
/// `from_hms_opt`, and the relative arithmetic wraps instead of failing.
#[verifier::external_body]
pub(crate) fn parse_time_relative(text: &str, base: CivilDateTime) -> (r: Option<(u8, u8, u8)>)
    requires
        vstd::string::is_ascii(text),
    ensures
        r == parsed_time_of(text@, base.hour as int, base.minute as int, base.second as int),
{
    let now = chrono::NaiveTime::from_hms_opt(base.hour as u32, base.minute as u32, base.second as u32);
    let now = match now { Some(t) => t, None => return None };
    match date_time_parser::TimeParser::parse_relative(text, now) {
        Some(t) => Some((t.hour() as u8, t.minute() as u8, t.second() as u8)),
        None => None,
    }
}

/// Relies on chrono's strftime-style formatting over chrono_tz's zone data;
/// chrono's month, weekday and zone names are locale-independent, so the
/// text depends on the arguments and the compiled database alone. Only the
/// two format strings the flows use are accepted, both of which chrono
/// formats without error.
#[verifier::external_body]
pub(crate) fn format_at_zone(ts: i64, tz_name: &str, fmt: &str) -> (r: Option<String>)
    requires
        fmt@ == "%A, %B %d, %H:%M %Z"@ || fmt@ == "%d/%m/%Y %H:%M"@,
    ensures
        r matches Some(out) ==> out@ == zone_format_of(ts as int, tz_name@, fmt@),
        !tz_known(tz_name@) ==> r is None,
        tz_known(tz_name@) && local_civil_of(tz_name@, ts as int) is Some ==> r is Some,
{
    let tz = match chrono_tz::Tz::from_str(tz_name) { Ok(t) => t, Err(_) => return None };
    let dt = match chrono::DateTime::<chrono::Utc>::from_timestamp(ts, 0) {
        Some(d) => d.with_timezone(&tz),
        None => return None,
    };
    Some(format!("{}", dt.format(fmt)))
}

/// Relies on fuzzy-matcher's skim scorer, in its default configuration with
/// an element limit of ten: deterministic in the two strings.
#[verifier::external_body]
pub(crate) fn fuzzy_score(choice: &str, pattern: &str) -> (r: Option<i64>)
    ensures
        r == skim_score_of(choice@, pattern@),
{
    fuzzy_matcher::skim::SkimMatcherV2::default().element_limit(10).fuzzy_match(choice, pattern)
}

} // verus!
