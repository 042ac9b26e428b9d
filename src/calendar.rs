use chrono::Datelike;
use vstd::arithmetic::div_mod::{lemma_fundamental_div_mod, lemma_mod_multiples_vanish};
use vstd::prelude::*;

use crate::granularity::Granularity;

verus! {

/// Seconds in one hour.
pub const SECONDS_PER_HOUR: i64 = 3600;

/// Seconds in one day.
pub const SECONDS_PER_DAY: i64 = 86400;

/// The earliest supported instant, 0001-01-01T00:00:00Z, in seconds since the Unix epoch.
pub const MIN_INSTANT: i64 = -62135596800;

/// The latest supported instant, 9999-12-31T23:59:59Z, in seconds since the Unix epoch.
pub const MAX_INSTANT: i64 = 253402300799;

/// The day number (days since 1970-01-01) of 0001-01-01.
pub const MIN_DAY: i64 = -719162;

/// The day number (days since 1970-01-01) of 9999-12-31.
pub const MAX_DAY: i64 = 2932896;

/// An instant, in seconds since the Unix epoch, that lies in the supported range.
pub open spec fn valid_instant(t: int) -> bool {
    MIN_INSTANT <= t <= MAX_INSTANT
}

/// The start of the calendar month (UTC) that holds instant `t`, as chrono computes it.
pub uninterp spec fn month_start_of(t: int) -> int;

/// Midnight UTC of the calendar date `y-m-d` in seconds since the Unix epoch,
/// or `None` where chrono does not accept the date.
pub uninterp spec fn civil_midnight(y: int, m: int, d: int) -> Option<int>;

/// `t` rounded down to a multiple of `unit`.
pub open spec fn floor_to(t: int, unit: int) -> int {
    t - t % unit
}

/// The start of the bucket of granularity `g` that holds instant `t`.
pub open spec fn bucket_start(g: Granularity, t: int) -> int {
    match g {
        Granularity::Hourly => floor_to(t, SECONDS_PER_HOUR as int),
        Granularity::DayOfMonth => floor_to(t, SECONDS_PER_DAY as int),
        Granularity::Monthly => month_start_of(t),
    }
}

/// Relies on chrono's `DateTime::from_timestamp`, `with_day(1)` and `timestamp`:
/// the first day of the instant's UTC month, at midnight. Both calls succeed for
/// every instant of the supported range, and day 1 exists in every month.
#[verifier::external_body]
fn month_start(t: i64) -> (r: i64)
    requires
        valid_instant(t as int),
    ensures
        r as int == month_start_of(t as int),
{
    let date = chrono::DateTime::from_timestamp(t, 0).unwrap().date_naive();
    date.with_day(1).unwrap().and_time(chrono::NaiveTime::MIN).and_utc().timestamp()
}

/// Relies on chrono's `NaiveDate::from_ymd_opt` and `timestamp`: midnight UTC of
/// a calendar date, where the date exists.
#[verifier::external_body]
fn ymd_midnight(year: i32, month: u32, day: u32) -> (r: Option<i64>)
    ensures
        r matches Some(v) ==> civil_midnight(year as int, month as int, day as int) == Some(
            v as int,
        ),
        r is None ==> civil_midnight(year as int, month as int, day as int) is None,
{
    match chrono::NaiveDate::from_ymd_opt(year, month, day) {
        Some(date) => Some(date.and_time(chrono::NaiveTime::MIN).and_utc().timestamp()),
        None => None,
    }
}

/// `t` rounded down to a multiple of `unit`, where `unit` divides a day.
fn floor_instant(t: i64, unit: i64) -> (r: i64)
    requires
        valid_instant(t as int),
        unit == SECONDS_PER_HOUR || unit == SECONDS_PER_DAY,
    ensures
        r as int == floor_to(t as int, unit as int),
{
    let shifted: i64 = t - MIN_INSTANT;
    let rem: i64 = shifted % unit;
    proof {
        let a: int = MIN_INSTANT as int / unit as int;
        assert(unit as int * a == MIN_INSTANT as int);
        lemma_mod_multiples_vanish(a, shifted as int, unit as int);
    }
    t - rem
}

/// The start of the bucket of granularity `g` that holds instant `t`.
pub fn truncate(g: Granularity, t: i64) -> (r: i64)
    requires
        valid_instant(t as int),
    ensures
        r as int == bucket_start(g, t as int),
{
    match g {
        Granularity::Hourly => floor_instant(t, SECONDS_PER_HOUR),
        Granularity::DayOfMonth => floor_instant(t, SECONDS_PER_DAY),
        Granularity::Monthly => month_start(t),
    }
}

/// A UTC calendar date in the years 1 to 9999, held as its day number: the
/// count of days since 1970-01-01.
#[derive(Clone, Copy, Debug, PartialEq, Eq)]
pub struct CalendarDate {
    days: i64,
}

/// Midnight `v` is a supported instant on a day boundary.
pub open spec fn valid_midnight(v: int) -> bool {
    valid_instant(v) && v % (SECONDS_PER_DAY as int) == 0
}

impl CalendarDate {
    #[verifier::type_invariant]
    spec fn inv(self) -> bool {
        MIN_DAY <= self.days <= MAX_DAY
    }

    /// The day number of this date: days since 1970-01-01.
    pub closed spec fn day_number(self) -> int {
        self.days as int
    }

    /// The date with day number `days`, if it lies in the years 1 to 9999.
    pub fn from_days(days: i64) -> (r: Option<CalendarDate>)
        ensures
            r is Some <==> MIN_DAY <= days <= MAX_DAY,
            r matches Some(d) ==> d.day_number() == days,
    {
        if MIN_DAY <= days && days <= MAX_DAY {
            Some(CalendarDate { days })
        } else {
            None
        }
    }

    /// The date `year-month-day`, if it exists and lies in the years 1 to 9999.
    pub fn from_ymd(year: i32, month: u32, day: u32) -> (r: Option<CalendarDate>)
        ensures
            r is Some <==> (civil_midnight(year as int, month as int, day as int) matches Some(
                v,
            ) && valid_midnight(v)),
            r matches Some(d) ==> civil_midnight(year as int, month as int, day as int) == Some(
                d.day_number() * SECONDS_PER_DAY,
            ),
    {
        match ymd_midnight(year, month, day) {
            Some(v) => {
                if v < MIN_INSTANT || v > MAX_INSTANT {
                    return None;
                }
                let shifted: i64 = v - MIN_INSTANT;
                proof {
                    lemma_mod_multiples_vanish(MIN_DAY as int, shifted as int, SECONDS_PER_DAY as int);
                    lemma_fundamental_div_mod(shifted as int, SECONDS_PER_DAY as int);
                }
                if shifted % SECONDS_PER_DAY != 0 {
                    return None;
                }
                let days: i64 = shifted / SECONDS_PER_DAY + MIN_DAY;
                Some(CalendarDate { days })
            },
            None => None,
        }
    }

    /// The day number of this date: days since 1970-01-01.
    pub fn days(&self) -> (r: i64)
        ensures
            r == self.day_number(),
            MIN_DAY <= r <= MAX_DAY,
    {
        proof {
            use_type_invariant(self);
        }
        self.days
    }

    /// Midnight UTC at the start of this date, in seconds since the Unix epoch.
    pub fn midnight(&self) -> (r: i64)
        ensures
            r == self.day_number() * SECONDS_PER_DAY,
            MIN_INSTANT <= r,
            r + SECONDS_PER_DAY <= MAX_INSTANT + 1,
    {
        proof {
            use_type_invariant(self);
        }
        self.days * SECONDS_PER_DAY
    }
}

} // verus!
