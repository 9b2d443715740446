//! Points in time: the clock, time stamps, ages and weekdays.

use crate::order::text_lt;
use vstd::prelude::*;

verus! {

/// A point in time: whole seconds since 1970-01-01T00:00:00 UTC without leap
/// seconds, and the nanoseconds since that second. During a leap second the
/// nanoseconds exceed a second.
#[derive(Debug, Clone, Copy)]
pub struct Moment {
    pub secs: i64,
    pub nanos: u32,
}

/// The last second that a time stamp can be written for, in the year 262142.
pub const LAST_SECOND: i64 = 8210266876799;

/// The last second of the year 9999.
pub const LAST_FOUR_DIGIT_SECOND: i64 = 253402300799;

/// The point in time that an RFC 3339 time stamp names, if the text is one.
pub uninterp spec fn rfc3339_moment(text: Seq<char>) -> Option<(i64, u32)>;

/// The RFC 3339 time stamp of a point in time, in UTC.
pub uninterp spec fn rfc3339_text(secs: i64, nanos: u32) -> Seq<char>;

/// `chrono::Utc::now` reads the system clock. It gives a second from 1970 on that
/// `chrono` can represent, and less than a second of nanoseconds.
#[verifier::external_body]
pub(crate) fn utc_now() -> (now: Moment)
    ensures
        0 <= now.secs <= LAST_SECOND,
        now.nanos < 1_000_000_000,
{
    let now = chrono::Utc::now();
    Moment { secs: now.timestamp(), nanos: now.timestamp_subsec_nanos() }
}

/// `chrono::DateTime::parse_from_rfc3339` reads a time stamp; what it accepts and
/// the point in time that it gives depend on the text alone.
#[verifier::external_body]
pub(crate) fn parse_rfc3339(text: &str) -> (moment: Option<Moment>)
    ensures
        match moment {
            Some(m) => rfc3339_moment(text@) == Some((m.secs, m.nanos)),
            None => rfc3339_moment(text@) is None,
        },
{
    let parsed = chrono::DateTime::parse_from_rfc3339(text).ok();
    parsed.map(|t| Moment { secs: t.timestamp(), nanos: t.timestamp_subsec_nanos() })
}

/// Whether a text stands among the time stamps of the years up to 9999 where a point in time
/// stands among the points in time: behind those of earlier points and before the others.
pub open spec fn stands_at(text: Seq<char>, secs: int, nanos: int) -> bool {
    forall|s: i64, n: u32|
        0 <= s <= LAST_FOUR_DIGIT_SECOND && n < 1_000_000_000 ==> (text_lt(
            #[trigger] rfc3339_text(s, n),
            text,
        ) <==> s < secs || s == secs && n < nanos)
}

/// `chrono::DateTime::to_rfc3339` writes the time stamp of a point in time, which
/// depends on that point alone. For the years up to 9999 reading the time stamp gives the
/// point in time back, and time stamps are ordered as the points in time are: the date and the
/// time of day are written with a fixed number of digits, and behind them stands either the
/// offset, which begins with a plus sign, or a dot and the digits of the second's fraction.
#[verifier::external_body]
pub(crate) fn format_rfc3339(moment: Moment) -> (text: String)
    requires
        0 <= moment.secs <= LAST_SECOND,
        moment.nanos < 1_000_000_000,
    ensures
        text@ == rfc3339_text(moment.secs, moment.nanos),
        moment.secs <= LAST_FOUR_DIGIT_SECOND ==> rfc3339_moment(text@)
            == Some((moment.secs, moment.nanos)),
        moment.secs <= LAST_FOUR_DIGIT_SECOND ==> stands_at(
            text@,
            moment.secs as int,
            moment.nanos as int,
        ),
{
    chrono::DateTime::from_timestamp(moment.secs, moment.nanos).unwrap().to_rfc3339()
}

/// Whether a text is the time stamp of some point in time that the clock can give.
pub open spec fn is_clock_text(text: Seq<char>) -> bool {
    exists|secs: i64, nanos: u32|
        0 <= secs <= LAST_SECOND && nanos < 1_000_000_000 && text == #[trigger] rfc3339_text(
            secs,
            nanos,
        )
}

/// The time stamp of the present moment.
pub fn now_text() -> (text: String)
    ensures
        is_clock_text(text@),
{
    let now = utc_now();
    format_rfc3339(now)
}

/// The nanoseconds from `earlier` to `later`. A leap second between the two, seen
/// by the time of day, counts.
pub open spec fn nanos_between(later: Moment, earlier: Moment) -> int {
    let a = later.secs as int % 86400;
    let b = earlier.secs as int % 86400;
    let leap: int = if a > b && earlier.nanos >= 1_000_000_000 {
        1
    } else if a < b && later.nanos >= 1_000_000_000 {
        -1
    } else {
        0
    };
    (later.secs - earlier.secs + leap) * 1_000_000_000 + later.nanos - earlier.nanos
}

/// Whether `later` is less than `hours` hours after `earlier`; a moment before
/// `earlier` is, too.
pub fn within_hours(later: Moment, earlier: Moment, hours: u32) -> (r: bool)
    ensures
        r == (nanos_between(later, earlier) < hours * 3600 * 1_000_000_000),
{
    let x: i128 = later.secs as i128;
    let y: i128 = earlier.secs as i128;
    let a: i128 = seconds_of_day(later.secs);
    let b: i128 = seconds_of_day(earlier.secs);
    let leap: i128 = if a > b && earlier.nanos >= 1_000_000_000 {
        1
    } else if a < b && later.nanos >= 1_000_000_000 {
        -1
    } else {
        0
    };
    let age: i128 = (x - y + leap) * 1_000_000_000 + later.nanos as i128 - earlier.nanos as i128;
    age < hours as i128 * 3600 * 1_000_000_000
}

/// The seconds since the last midnight UTC.
fn seconds_of_day(secs: i64) -> (r: i128)
    ensures
        r == secs as int % 86400,
{
    let s: i128 = secs as i128 + 9504000000000000000;
    assert(s % 86400 == secs as int % 86400) by {
        vstd::arithmetic::div_mod::lemma_mod_multiples_vanish(110000000000000, secs as int, 86400);
    }
    s % 86400
}

/// The weekday of a second at an offset of nine hours east, Japan's time: 0 for
/// Monday to 6 for Sunday. The epoch began on a Thursday.
pub open spec fn jst_weekday(secs: int) -> int {
    ((secs + 9 * 3600) / 86400 + 3) % 7
}

/// The weekday in Japan at a point in time: 0 for Monday to 6 for Sunday.
pub fn weekday_in_japan(moment: Moment) -> (day: i64)
    ensures
        day == jst_weekday(moment.secs as int),
        0 <= day <= 6,
{
    // A shift by whole weeks keeps the weekday and makes the number positive.
    let shift: i128 = 604800 * 20000000000000;
    let s: i128 = moment.secs as i128 + 9 * 3600 + shift;
    let day: i128 = (s / 86400 + 3) % 7;
    assert(s / 86400 == (moment.secs + 9 * 3600) / 86400 + 140000000000000) by {
        vstd::arithmetic::div_mod::lemma_hoist_over_denominator(
            moment.secs + 9 * 3600,
            140000000000000,
            86400,
        );
    }
    day as i64
}

} // verus!
