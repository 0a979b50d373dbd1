//! The wall clock and the rate of the kernel's tick counter.

use chrono::TimeZone;
use vstd::prelude::*;

verus! {

/// A reading of the local wall clock.
#[derive(Debug, Clone, Copy, PartialEq, Eq, Structural)]
pub struct Moment {
    /// Seconds since the start of 1970 in UTC.
    pub secs: i64,
    /// Nanoseconds within the second.
    pub nanos: u32,
    /// What local time is ahead of UTC by, in seconds.
    pub offset: i32,
}

/// The last second that has a calendar date.
pub const LAST_SECOND: i64 = 8_210_266_876_799;

pub const NANOS_PER_SECOND: u32 = 1_000_000_000;

pub const SECONDS_PER_HOUR: u32 = 3600;

impl Moment {
    /// Whether the reading is a point in time that has a calendar date.
    pub open spec fn valid(self) -> bool {
        &&& 0 <= self.secs <= LAST_SECOND
        &&& self.nanos < NANOS_PER_SECOND
        &&& -86_400 < self.offset < 86_400
    }

    /// The nanoseconds since the start of 1970 in UTC.
    pub open spec fn instant(self) -> int {
        self.secs * NANOS_PER_SECOND + self.nanos
    }

    /// Whether the moment is what the clock showed at the reading that was numbered `number`. Who
    /// reads the clock several times numbers the readings from zero, so that none of them can pass
    /// for another. Of readings that were made beside these and dropped nothing is said.
    pub closed spec fn read_as(self, number: nat) -> bool {
        call_ensures(numbered_now, (Ghost(number),), self)
    }

    /// The present moment, as the reading numbered `number`.
    pub(crate) fn reading(number: Ghost<nat>) -> (res: Moment)
        ensures
            res.read_as(number@),
            res.valid(),
    {
        numbered_now(number)
    }

    /// The present moment.
    pub fn now() -> (res: Moment)
        ensures
            res.read_as(0),
            res.valid(),
    {
        Moment::reading(Ghost(0))
    }

    /// The moment as RFC 3339 text.
    pub fn to_rfc3339(&self) -> (res: String)
        requires
            self.valid(),
        ensures
            res@ == rfc3339_of(*self),
            res@.len() > 0,
    {
        rfc3339(self.secs, self.nanos, self.offset)
    }

    /// The moment in local time as text of the given date pattern.
    pub fn format(&self, pattern: &str) -> (res: String)
        requires
            self.valid(),
            is_date_pattern(pattern@),
        ensures
            res@ == dated_text(self.secs, self.nanos, self.offset, pattern@),
    {
        format_date(self.secs, self.nanos, self.offset, pattern)
    }

    /// The nanoseconds that have passed since `start`; negative where the clock was set back.
    pub fn nanos_since(&self, start: &Moment) -> (res: i128)
        ensures
            res == self.instant() - start.instant(),
    {
        (self.secs as i128 - start.secs as i128) * 1_000_000_000 + self.nanos as i128
            - start.nanos as i128
    }
}

/// The present moment. The number tells the readings of one caller apart.
fn numbered_now(_number: Ghost<nat>) -> (res: Moment)
    ensures
        res.valid(),
{
    let (secs, nanos, offset): (i64, u32, i32) = local_now();
    Moment { secs, nanos, offset }
}

/// The nanoseconds of a number of hours.
pub open spec fn hours_nanos(hours: u8) -> int {
    hours * SECONDS_PER_HOUR * NANOS_PER_SECOND
}

/// The nanoseconds of a number of hours.
pub fn nanos_of_hours(hours: u8) -> (res: i128)
    ensures
        res == hours_nanos(hours),
{
    hours as i128 * 3600 * 1_000_000_000
}

/// The RFC 3339 text of a moment.
pub open spec fn rfc3339_of(moment: Moment) -> Seq<char> {
    rfc3339_text(moment.secs, moment.nanos, moment.offset)
}

/// The RFC 3339 text of the second `secs` and nanosecond `nanos` since the start of 1970 in UTC,
/// in local time that is ahead of UTC by `offset` seconds.
pub uninterp spec fn rfc3339_text(secs: i64, nanos: u32, offset: i32) -> Seq<char>;

/// The text that a date pattern makes of a moment given by the same plain values.
pub uninterp spec fn dated_text(secs: i64, nanos: u32, offset: i32, pattern: Seq<char>) -> Seq<
    char,
>;

/// Whether a date pattern holds no specifiers but those of the year, month, day, hour, minute and
/// second, each written by a percent sign and its letter.
pub open spec fn is_date_pattern(pattern: Seq<char>) -> bool
    decreases pattern.len(),
{
    if pattern.len() == 0 {
        true
    } else if pattern[0] == '%' {
        pattern.len() >= 2 && (pattern[1] == 'Y' || pattern[1] == 'm' || pattern[1] == 'd'
            || pattern[1] == 'H' || pattern[1] == 'M' || pattern[1] == 'S') && is_date_pattern(
            pattern.skip(2),
        )
    } else {
        is_date_pattern(pattern.skip(1))
    }
}

/// `chrono::Local::now` as plain values: the seconds and nanoseconds since the start of 1970 in
/// UTC and the local offset from UTC in seconds. The reading is one that chrono can represent and
/// the nanoseconds stay within the second. Which reading it is depends on the clock and on the
/// time zone of the machine.
#[verifier::external_body]
fn local_now() -> (res: (i64, u32, i32))
    ensures
        0 <= res.0 <= LAST_SECOND,
        res.1 < NANOS_PER_SECOND,
        -86_400 < res.2 < 86_400,
{
    let now = chrono::Local::now();
    (now.timestamp(), now.timestamp_subsec_nanos(), now.offset().local_minus_utc())
}

/// `chrono::DateTime::to_rfc3339` of the moment that the plain values stand for. The text depends
/// on them alone, and it is at least as long as `1996-12-19T16:39:57-08:00`. What the text is, is
/// named here and not described.
#[verifier::external_body]
fn rfc3339(secs: i64, nanos: u32, offset: i32) -> (res: String)
    requires
        0 <= secs <= LAST_SECOND,
        nanos < NANOS_PER_SECOND,
        -86_400 < offset < 86_400,
    ensures
        res@ == rfc3339_text(secs, nanos, offset),
        res@.len() >= 25,
{
    let zone = chrono::FixedOffset::east_opt(offset).unwrap();
    zone.timestamp_opt(secs, nanos).unwrap().to_rfc3339()
}

/// `chrono::DateTime::format` of the moment that the plain values stand for, as text. The text
/// depends on them and on the pattern alone. A pattern of the admitted form is never refused. What
/// the text is, is named here and not described.
#[verifier::external_body]
fn format_date(secs: i64, nanos: u32, offset: i32, pattern: &str) -> (res: String)
    requires
        0 <= secs <= LAST_SECOND,
        nanos < NANOS_PER_SECOND,
        -86_400 < offset < 86_400,
        is_date_pattern(pattern@),
    ensures
        res@ == dated_text(secs, nanos, offset, pattern@),
{
    let zone = chrono::FixedOffset::east_opt(offset).unwrap();
    zone.timestamp_opt(secs, nanos).unwrap().format(pattern).to_string()
}

/// `procfs::ticks_per_second`: the rate of the kernel's tick counter, which is a setting of the
/// machine. Nothing is claimed of it.
#[verifier::external_body]
fn ticks_per_second() -> u64 {
    procfs::ticks_per_second()
}

/// Whether a rate is what the machine gave when it was asked for the rate of its tick counter.
pub closed spec fn rate_was_read(clk_tck: u64) -> bool {
    call_ensures(ticks_per_second, (), clk_tck)
}

/// The clock ticks in a second on this machine.
pub fn tick_rate() -> (res: u64)
    ensures
        rate_was_read(res),
{
    ticks_per_second()
}

} // verus!
