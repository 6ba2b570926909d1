//! Timestamps of reservations, and when they have passed.

use vstd::prelude::*;

use crate::numbers::{parse_i64, parsed_i64};

verus! {

/// A point in time: whole seconds since the Unix epoch, and nanoseconds on
/// top of them.
#[derive(Debug, Clone, Copy, PartialEq, Eq, Structural)]
pub struct TimePoint {
    pub secs: i64,
    pub nanos: u32,
}

impl TimePoint {
    pub open spec fn is_at_or_before(self, other: TimePoint) -> bool {
        self.secs < other.secs || (self.secs == other.secs && self.nanos <= other.nanos)
    }

    /// Whole microseconds since the Unix epoch.
    pub open spec fn micros(self) -> int {
        self.secs * 1_000_000 + (self.nanos / 1000) as int
    }

    pub fn at_or_before(&self, other: &TimePoint) -> (r: bool)
        ensures
            r == self.is_at_or_before(*other),
    {
        self.secs < other.secs || (self.secs == other.secs && self.nanos <= other.nanos)
    }

    pub fn as_micros(&self) -> (r: i128)
        ensures
            r == self.micros(),
    {
        (self.secs as i128) * 1_000_000 + ((self.nanos / 1000) as i128)
    }
}

/// The seconds and nanoseconds of what `DateTime::parse_from_rfc3339` reads.
pub uninterp spec fn rfc3339_time(text: Seq<char>) -> Option<(i64, u32)>;

/// The seconds and nanoseconds, taken as UTC, of what
/// `NaiveDateTime::parse_from_str` reads.
pub uninterp spec fn naive_time(text: Seq<char>, format: Seq<char>) -> Option<(i64, u32)>;

/// The text that `DateTime::to_rfc3339` gives for the time that
/// `Utc.timestamp_opt` makes of seconds and nanoseconds.
pub uninterp spec fn utc_text(secs: i64, nanos: u32) -> Option<Seq<char>>;

/// Calls `chrono::DateTime::parse_from_rfc3339`; what it reads is named, in
/// seconds since the epoch and nanoseconds on top of them.
#[verifier::external_body]
fn parse_rfc3339(text: &str) -> (r: Option<(i64, u32)>)
    ensures
        r == rfc3339_time(text@),
{
    let time = chrono::DateTime::parse_from_rfc3339(text).ok()?;
    Some((time.timestamp(), time.timestamp_subsec_nanos()))
}

/// Calls `chrono::NaiveDateTime::parse_from_str` and takes the time as UTC;
/// what it reads is named.
#[verifier::external_body]
fn parse_naive(text: &str, format: &str) -> (r: Option<(i64, u32)>)
    ensures
        r == naive_time(text@, format@),
{
    let time = chrono::NaiveDateTime::parse_from_str(text, format).ok()?.and_utc();
    Some((time.timestamp(), time.timestamp_subsec_nanos()))
}

/// Calls `chrono::TimeZone::timestamp_opt` for UTC and `to_rfc3339` on what it
/// makes; the text is named, and there is none where the time is out of range.
#[verifier::external_body]
pub(crate) fn print_utc(secs: i64, nanos: u32) -> (r: Option<String>)
    ensures
        r matches Some(text) ==> utc_text(secs, nanos) == Some(text@),
        r is None ==> utc_text(secs, nanos) is None,
{
    match chrono::TimeZone::timestamp_opt(&chrono::Utc, secs, nanos) {
        chrono::LocalResult::Single(time) => Some(time.to_rfc3339()),
        _ => None,
    }
}

/// A time with seconds and nanoseconds, without an offset.
pub const FRACTIONAL_FORMAT: &'static str = "%Y-%m-%dT%H:%M:%S%.f";

/// A time with seconds, without an offset.
pub const WHOLE_FORMAT: &'static str = "%Y-%m-%dT%H:%M:%S";

pub open spec fn point(time: (i64, u32)) -> TimePoint {
    TimePoint { secs: time.0, nanos: time.1 }
}

/// Whether a text has passed, given how it reads as a time with an offset, as
/// one without but with a fraction, and as one without either: the first
/// reading counts. Failing all three it is a number of microseconds, and what
/// cannot be read at all has not passed.
pub open spec fn passed(
    with_offset: Option<(i64, u32)>,
    fractional: Option<(i64, u32)>,
    whole: Option<(i64, u32)>,
    text: Seq<char>,
    now: TimePoint,
) -> bool {
    if with_offset is Some {
        point(with_offset->0).is_at_or_before(now)
    } else if fractional is Some {
        point(fractional->0).is_at_or_before(now)
    } else if whole is Some {
        point(whole->0).is_at_or_before(now)
    } else {
        match parsed_i64(text) {
            Some(micros) => micros <= now.micros(),
            None => false,
        }
    }
}

/// A timestamp has passed; at the very moment it has.
pub open spec fn expired(text: Seq<char>, now: TimePoint) -> bool {
    passed(
        rfc3339_time(text),
        naive_time(text, FRACTIONAL_FORMAT@),
        naive_time(text, WHOLE_FORMAT@),
        text,
        now,
    )
}

/// Decides from the three readings of a timestamp whether it has passed.
pub fn is_expired_reading(
    with_offset: Option<(i64, u32)>,
    fractional: Option<(i64, u32)>,
    whole: Option<(i64, u32)>,
    text: &str,
    now: &TimePoint,
) -> (r: bool)
    ensures
        r == passed(with_offset, fractional, whole, text@, *now),
{
    let reading = match with_offset {
        Some(time) => Some(time),
        None => match fractional {
            Some(time) => Some(time),
            None => whole,
        },
    };
    match reading {
        Some(time) => (TimePoint { secs: time.0, nanos: time.1 }).at_or_before(now),
        None => match parse_i64(text) {
            Some(micros) => (micros as i128) <= now.as_micros(),
            None => false,
        },
    }
}

/// Whether a timestamp has passed at `now`.
pub fn is_expired(text: &str, now: &TimePoint) -> (r: bool)
    ensures
        r == expired(text@, *now),
{
    is_expired_reading(
        parse_rfc3339(text),
        parse_naive(text, FRACTIONAL_FORMAT),
        parse_naive(text, WHOLE_FORMAT),
        text,
        now,
    )
}

/// What has passed stays passed.
pub proof fn law_expiry_is_final(text: Seq<char>, now: TimePoint, later: TimePoint)
    requires
        now.nanos < 1_000_000_000,
        later.nanos < 1_000_000_000,
        now.is_at_or_before(later),
        expired(text, now),
    ensures
        expired(text, later),
{
}

/// A timestamp that cannot be read keeps its reservation alive.
pub proof fn law_unreadable_is_not_expired(text: Seq<char>, now: TimePoint)
    requires
        rfc3339_time(text) is None,
        naive_time(text, FRACTIONAL_FORMAT@) is None,
        naive_time(text, WHOLE_FORMAT@) is None,
        parsed_i64(text) is None,
    ensures
        !expired(text, now),
{
}

/// Nanoseconds since the Unix epoch.
pub open spec fn nanos_of(secs: i64, nanos: u32) -> int {
    secs * 1_000_000_000 + nanos
}

/// A time has passed exactly where, in nanoseconds since the epoch, it is not
/// after now. Of the readings the first that there is counts, and a number of
/// microseconds only where there is none.
pub proof fn law_a_time_has_passed_once_it_is_reached(
    with_offset: Option<(i64, u32)>,
    fractional: Option<(i64, u32)>,
    whole: Option<(i64, u32)>,
    text: &str,
    now: &TimePoint,
    time: (i64, u32),
    micros: int,
    r: bool,
)
    requires
        call_ensures(is_expired_reading, (with_offset, fractional, whole, text, now), r),
        time.1 < 1_000_000_000,
        now.nanos < 1_000_000_000,
    ensures
        with_offset == Some(time) ==> (r <==> nanos_of(time.0, time.1) <= nanos_of(
            now.secs,
            now.nanos,
        )),
        with_offset is None && fractional == Some(time) ==> (r <==> nanos_of(time.0, time.1)
            <= nanos_of(now.secs, now.nanos)),
        with_offset is None && fractional is None && whole == Some(time) ==> (r <==> nanos_of(
            time.0,
            time.1,
        ) <= nanos_of(now.secs, now.nanos)),
        with_offset is None && fractional is None && whole is None && parsed_i64(text@) == Some(
            micros,
        ) ==> (r <==> micros * 1000 <= nanos_of(now.secs, now.nanos)),
        with_offset is None && fractional is None && whole is None && parsed_i64(text@) is None
            ==> !r,
{
}

/// A timestamp is read with an offset, or else without one but with a
/// fraction, or else without either.
pub proof fn law_timestamps_are_read_in_three_ways(text: &str, now: &TimePoint, r: bool)
    requires
        call_ensures(is_expired, (text, now), r),
    ensures
        r == passed(
            rfc3339_time(text@),
            naive_time(text@, "%Y-%m-%dT%H:%M:%S%.f"@),
            naive_time(text@, "%Y-%m-%dT%H:%M:%S"@),
            text@,
            *now,
        ),
{
}

/// Times are in the order of their nanoseconds since the epoch, and a time in
/// microseconds leaves out only what is less than one.
pub proof fn law_times_are_in_order(a: &TimePoint, b: &TimePoint, r: bool, micros: i128)
    requires
        a.nanos < 1_000_000_000,
        b.nanos < 1_000_000_000,
        call_ensures(TimePoint::at_or_before, (a, b), r),
        call_ensures(TimePoint::as_micros, (a,), micros),
    ensures
        r <==> nanos_of(a.secs, a.nanos) <= nanos_of(b.secs, b.nanos),
        micros * 1000 <= nanos_of(a.secs, a.nanos) < (micros + 1) * 1000,
{
}

} // verus!
