//! Instants and calendar dates, as the numbers the daemon compares.

use vstd::prelude::*;

verus! {

/// Nanoseconds in one second.
pub const NANOS_PER_SEC: i128 = 1_000_000_000;

/// An instant in UTC: whole seconds since 1970-01-01T00:00:00Z and the
/// nanoseconds into that second.
#[derive(Debug, Clone, Copy, PartialEq, Eq, Structural)]
pub struct Timestamp {
    pub secs: i64,
    pub nanos: u32,
}

impl Timestamp {
    /// The instant as a count of nanoseconds since the epoch.
    pub open spec fn total_nanos(self) -> int {
        self.secs * 1_000_000_000 + self.nanos
    }

    /// Whether this instant comes strictly after `other`: by the seconds,
    /// and within one second by the nanoseconds.
    pub open spec fn is_after(self, other: Timestamp) -> bool {
        self.secs > other.secs || (self.secs == other.secs && self.nanos > other.nanos)
    }

    /// Whether more than `seconds` seconds lie between this instant and the
    /// later instant `now`.
    pub open spec fn is_older_than(self, seconds: i64, now: Timestamp) -> bool {
        now.total_nanos() - self.total_nanos() > seconds * 1_000_000_000
    }

    /// The first instant of the second `secs`.
    pub fn at_second(secs: i64) -> (t: Timestamp)
        ensures
            t == (Timestamp { secs, nanos: 0 }),
    {
        Timestamp { secs, nanos: 0 }
    }

    /// Compares two instants.
    pub fn after(&self, other: &Timestamp) -> (later: bool)
        ensures
            later == self.is_after(*other),
    {
        self.secs > other.secs || (self.secs == other.secs && self.nanos > other.nanos)
    }

    /// Tests an age limit: is the time from this instant to `now` longer
    /// than `seconds` seconds?
    pub fn older_than(&self, seconds: i64, now: &Timestamp) -> (older: bool)
        ensures
            older == self.is_older_than(seconds, *now),
    {
        let elapsed: i128 = (now.secs as i128 - self.secs as i128) * NANOS_PER_SEC
            + (now.nanos as i128 - self.nanos as i128);
        let limit: i128 = seconds as i128 * NANOS_PER_SEC;
        elapsed > limit
    }
}

/// The UTC second at which the calendar day `year`-`month`-`day` begins, or
/// `None` where the proleptic Gregorian calendar has no such day or the year
/// is outside the range that dates can hold.
pub uninterp spec fn midnight_of(year: i32, month: u32, day: u32) -> Option<i64>;

/// Asks chrono for the start of a calendar day: `NaiveDate::from_ymd_opt`
/// builds the date, `NaiveTime::MIN` puts it at 00:00:00, and
/// `DateTime::timestamp` counts the seconds from the epoch. The result is
/// a function of the three numbers alone; `midnight_of` is its name.
#[verifier::external_body]
fn midnight_timestamp(year: i32, month: u32, day: u32) -> (secs: Option<i64>)
    ensures
        secs == midnight_of(year, month, day),
{
    match chrono::NaiveDate::from_ymd_opt(year, month, day) {
        Some(date) => Some(date.and_time(chrono::NaiveTime::MIN).and_utc().timestamp()),
        None => None,
    }
}

/// Reads the clock through chrono's `Utc::now`, split into
/// `DateTime::timestamp` and `DateTime::timestamp_subsec_nanos`. Nothing is
/// promised of the instant that comes back.
#[verifier::external_body]
pub(crate) fn utc_now() -> (now: Timestamp) {
    let now = chrono::Utc::now();
    Timestamp { secs: now.timestamp(), nanos: now.timestamp_subsec_nanos() }
}

/// A day of the calendar, together with the instant at which it begins.
#[derive(Debug, Clone, Copy)]
pub struct Date {
    year: i32,
    month: u32,
    day: u32,
    midnight: i64,
}

impl Date {
    #[verifier::type_invariant]
    spec fn begins_at_midnight(self) -> bool {
        midnight_of(self.year, self.month, self.day) == Some(self.midnight)
    }

    pub closed spec fn year_of(self) -> i32 {
        self.year
    }

    pub closed spec fn month_of(self) -> u32 {
        self.month
    }

    pub closed spec fn day_of(self) -> u32 {
        self.day
    }

    /// The first instant of the day.
    pub closed spec fn start(self) -> Timestamp {
        Timestamp { secs: self.midnight, nanos: 0 }
    }

    /// The day `year`-`month`-`day`, if the calendar has it.
    pub fn from_ymd(year: i32, month: u32, day: u32) -> (date: Option<Date>)
        ensures
            date is Some <==> midnight_of(year, month, day) is Some,
            date matches Some(d) ==> {
                &&& d.year_of() == year
                &&& d.month_of() == month
                &&& d.day_of() == day
                &&& midnight_of(year, month, day) == Some(d.start().secs)
                &&& d.start().nanos == 0
            },
    {
        match midnight_timestamp(year, month, day) {
            Some(midnight) => Some(Date { year, month, day, midnight }),
            None => None,
        }
    }

    pub fn year(&self) -> (year: i32)
        ensures
            year == self.year_of(),
    {
        self.year
    }

    pub fn month(&self) -> (month: u32)
        ensures
            month == self.month_of(),
    {
        self.month
    }

    pub fn day(&self) -> (day: u32)
        ensures
            day == self.day_of(),
    {
        self.day
    }

    /// The first instant of the day, which is the one that the calendar
    /// gives for its year, month and day.
    pub fn midnight(&self) -> (start: Timestamp)
        ensures
            start == self.start(),
            start.nanos == 0,
            midnight_of(self.year_of(), self.month_of(), self.day_of()) == Some(start.secs),
    {
        proof {
            use_type_invariant(self);
        }
        Timestamp { secs: self.midnight, nanos: 0 }
    }
}

} // verus!
