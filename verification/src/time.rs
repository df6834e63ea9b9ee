//! Instants, durations and calendar days, counted in whole seconds.
//!
//! An instant is a number of seconds since the epoch; a day is 86 400 of them.
//! Adding a duration to an instant saturates at the last representable instant.

use vstd::prelude::*;

verus! {

/// Seconds in one calendar day.
pub const SECONDS_PER_DAY: u64 = 86_400;

/// Seconds in one hour.
pub const SECONDS_PER_HOUR: u64 = 3_600;

/// Seconds in one minute.
pub const SECONDS_PER_MINUTE: u64 = 60;

/// A span of time in whole seconds.
#[derive(Clone, Copy, Debug, PartialEq, Eq, Structural)]
pub struct Duration {
    pub secs: u64,
}

/// A point in time: whole seconds since the epoch.
#[derive(Clone, Copy, Debug, PartialEq, Eq, Structural)]
pub struct Timestamp {
    pub secs: u64,
}

/// A calendar day: whole days since the epoch.
#[derive(Clone, Copy, Debug, PartialEq, Eq, Structural)]
pub struct LocalDate {
    pub days: u64,
}

/// A time of day, to the minute.
#[derive(Clone, Copy, Debug, PartialEq, Eq, Structural)]
pub struct HourMinute {
    pub hour: u8,
    pub minute: u8,
}

/// The sum of two second counts, held at `u64::MAX` where it would pass it.
pub open spec fn saturating_sum(a: u64, b: u64) -> u64 {
    if a + b > u64::MAX {
        u64::MAX
    } else {
        (a + b) as u64
    }
}

/// The instant at which the time of day `hm` falls on `date`.
pub open spec fn instant_on(date: LocalDate, hm: HourMinute) -> u64 {
    let exact = date.days * 86_400 + hm.hour * 3_600 + hm.minute * 60;
    if exact > u64::MAX {
        u64::MAX
    } else {
        exact as u64
    }
}

impl Duration {
    /// A duration of `secs` seconds.
    pub fn from_secs(secs: u64) -> (d: Duration)
        ensures
            d.secs == secs,
    {
        Duration { secs }
    }

    /// A duration of `minutes` minutes; a negative count gives the empty
    /// duration, and one too long to count in seconds gives the longest.
    pub fn from_minutes(minutes: i64) -> (d: Duration)
        ensures
            minutes <= 0 ==> d.secs == 0,
            minutes > 0 && minutes * 60 <= u64::MAX ==> d.secs == minutes * 60,
            minutes > 0 && minutes * 60 > u64::MAX ==> d.secs == u64::MAX,
    {
        if minutes <= 0 {
            Duration { secs: 0 }
        } else {
            let m: u64 = minutes as u64;
            match m.checked_mul(SECONDS_PER_MINUTE) {
                Some(secs) => Duration { secs },
                None => Duration { secs: u64::MAX },
            }
        }
    }
}

impl HourMinute {
    /// Whether the fields name a time of day: an hour below 24 and a minute
    /// below 60.
    pub open spec fn valid(&self) -> bool {
        self.hour < 24 && self.minute < 60
    }

    /// The time of day `hour:minute`, if there is one.
    pub fn new(hour: u8, minute: u8) -> (r: Option<HourMinute>)
        ensures
            r.is_some() <==> hour < 24 && minute < 60,
            r.is_some() ==> r.unwrap().hour == hour && r.unwrap().minute == minute,
    {
        if hour < 24 && minute < 60 {
            Some(HourMinute { hour, minute })
        } else {
            None
        }
    }
}

impl Timestamp {
    /// The epoch, the earliest instant.
    pub fn zero() -> (t: Timestamp)
        ensures
            t.secs == 0,
    {
        Timestamp { secs: 0 }
    }

    /// The instant `secs` seconds after the epoch.
    pub fn from_secs(secs: u64) -> (t: Timestamp)
        ensures
            t.secs == secs,
    {
        Timestamp { secs }
    }

    /// This instant moved forward by `d`, saturating at the last instant.
    pub fn plus(self, d: Duration) -> (t: Timestamp)
        ensures
            t.secs == saturating_sum(self.secs, d.secs),
    {
        Timestamp { secs: self.secs.saturating_add(d.secs) }
    }

    /// The calendar day that holds this instant.
    pub fn get_date(&self) -> (date: LocalDate)
        ensures
            date.days == self.secs / 86_400,
    {
        LocalDate { days: self.secs / SECONDS_PER_DAY }
    }

    /// The instant at which `hm` falls on `date`.
    pub fn from_date_hm(date: &LocalDate, hm: &HourMinute) -> (t: Timestamp)
        ensures
            t.secs == instant_on(*date, *hm),
    {
        let h: u64 = hm.hour as u64;
        let m: u64 = hm.minute as u64;
        let in_day: u64 = h * SECONDS_PER_HOUR + m * SECONDS_PER_MINUTE;
        match date.days.checked_mul(SECONDS_PER_DAY) {
            Some(start) => Timestamp { secs: start.saturating_add(in_day) },
            None => Timestamp { secs: u64::MAX },
        }
    }

    /// As `from_date_hm`, for a time of day that may be absent.
    pub fn from_date_hm_opt(date: &LocalDate, hm: &Option<HourMinute>) -> (t: Option<Timestamp>)
        ensures
            hm.is_none() ==> t.is_none(),
            hm.is_some() ==> t.is_some() && t.unwrap().secs == instant_on(*date, hm.unwrap()),
    {
        match hm {
            Some(hm) => Some(Timestamp::from_date_hm(date, hm)),
            None => None,
        }
    }
}

/// A time of day on a day keeps that day, unless the instant saturates.
pub proof fn lemma_instant_on_keeps_date(date: LocalDate, hm: HourMinute)
    requires
        hm.valid(),
        date.days * 86_400 + 86_400 <= u64::MAX,
    ensures
        instant_on(date, hm) / 86_400 == date.days,
{
}

} // verus!
