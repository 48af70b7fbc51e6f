//! Calendar dates as day numbers, with the date arithmetic done by chrono.

use chrono::{NaiveDate, TimeDelta};
use vstd::prelude::*;

verus! {

/// Day number (days since 1970-01-01) of the earliest date chrono can represent,
/// January 1 of the year -262143.
pub const MIN_EPOCH_DAY: i32 = -96_465_292;

/// Day number (days since 1970-01-01) of the latest date chrono can represent,
/// December 31 of the year 262142.
pub const MAX_EPOCH_DAY: i32 = 95_026_236;

/// Earliest year chrono can represent.
pub const MIN_YEAR: i32 = -262_143;

/// Latest year chrono can represent.
pub const MAX_YEAR: i32 = 262_142;

/// Largest number of days a chrono duration can hold (`i64::MAX` milliseconds).
pub const MAX_DELTA_DAYS: i64 = 106_751_991_167;

/// A day number lies within chrono's calendar.
pub open spec fn in_calendar(day: int) -> bool {
    MIN_EPOCH_DAY <= day <= MAX_EPOCH_DAY
}

/// A day count that a chrono duration can hold.
pub open spec fn valid_delta(days: int) -> bool {
    -MAX_DELTA_DAYS <= days <= MAX_DELTA_DAYS
}

/// Gregorian leap-year rule (proleptic, year 0 is a leap year).
pub open spec fn is_leap_year(year: int) -> bool {
    year % 4 == 0 && (year % 100 != 0 || year % 400 == 0)
}

/// Number of days in a month of the proleptic Gregorian calendar.
pub open spec fn days_in_month(year: int, month: int) -> int {
    if month == 2 {
        if is_leap_year(year) { 29 } else { 28 }
    } else if month == 4 || month == 6 || month == 9 || month == 11 {
        30
    } else {
        31
    }
}

/// A year, month and day name a date chrono can represent.
pub open spec fn is_valid_ymd(year: int, month: int, day: int) -> bool {
    &&& MIN_YEAR <= year <= MAX_YEAR
    &&& 1 <= month <= 12
    &&& 1 <= day <= days_in_month(year, month)
}

/// The day number chrono assigns to a calendar date, if the date exists.
pub uninterp spec fn ymd_epoch_day(year: i32, month: u32, day: u32) -> Option<i32>;

/// Calls `chrono::NaiveDate::from_ymd_opt` and reads the date back with
/// `NaiveDate::to_epoch_days`. Claimed: the result is the named calendar
/// function of the arguments; it is present exactly for existing dates in
/// chrono's year range; a present day number lies in chrono's calendar.
/// Which day number a date gets is not stated beyond that name.
#[verifier::external_body]
fn chrono_ymd_to_epoch_day(year: i32, month: u32, day: u32) -> (r: Option<i32>)
    ensures
        r == ymd_epoch_day(year, month, day),
        r is Some <==> is_valid_ymd(year as int, month as int, day as int),
        r matches Some(x) ==> in_calendar(x as int),
{
    match NaiveDate::from_ymd_opt(year, month, day) {
        Some(d) => Some(d.to_epoch_days()),
        None => None,
    }
}

/// Calls `chrono::NaiveDate::checked_add_signed` with `TimeDelta::days(delta)`
/// on the date with day number `day`. Claimed: the sum of the day numbers when it
/// stays in chrono's calendar, and nothing otherwise.
#[verifier::external_body]
fn chrono_add_days(day: i32, delta: i64) -> (r: Option<i32>)
    requires
        in_calendar(day as int),
        valid_delta(delta as int),
    ensures
        r == (if in_calendar(day + delta) { Some((day + delta) as i32) } else { None::<i32> }),
{
    match NaiveDate::from_epoch_days(day).unwrap().checked_add_signed(TimeDelta::days(delta)) {
        Some(d) => Some(d.to_epoch_days()),
        None => None,
    }
}

/// Calls `chrono::NaiveDate::checked_sub_signed` with `TimeDelta::days(delta)`
/// on the date with day number `day`. Claimed: the difference of the day numbers
/// when it stays in chrono's calendar, and nothing otherwise.
#[verifier::external_body]
fn chrono_sub_days(day: i32, delta: i64) -> (r: Option<i32>)
    requires
        in_calendar(day as int),
        valid_delta(delta as int),
    ensures
        r == (if in_calendar(day - delta) { Some((day - delta) as i32) } else { None::<i32> }),
{
    match NaiveDate::from_epoch_days(day).unwrap().checked_sub_signed(TimeDelta::days(delta)) {
        Some(d) => Some(d.to_epoch_days()),
        None => None,
    }
}

/// Calls `chrono::NaiveDate::signed_duration_since` and `TimeDelta::num_days`.
/// Claimed: the number of days from `earlier` to `later`, that is the difference
/// of their day numbers.
#[verifier::external_body]
fn chrono_days_since(later: i32, earlier: i32) -> (r: i64)
    requires
        in_calendar(later as int),
        in_calendar(earlier as int),
    ensures
        r == later - earlier,
{
    let a = NaiveDate::from_epoch_days(later).unwrap();
    let b = NaiveDate::from_epoch_days(earlier).unwrap();
    a.signed_duration_since(b).num_days()
}

/// A calendar date, held as its day number counted from 1970-01-01.
#[derive(Clone, Copy, Debug, PartialEq, Eq, Structural, Hash, PartialOrd, Ord)]
pub struct Date {
    days: i32,
}

impl View for Date {
    type V = int;

    closed spec fn view(&self) -> int {
        self.days as int
    }
}

impl Date {
    #[verifier::type_invariant]
    spec fn within_calendar(self) -> bool {
        in_calendar(self.days as int)
    }

    /// The date with the given day number, if chrono can represent it.
    pub fn from_epoch_days(days: i32) -> (r: Option<Date>)
        ensures
            r is Some <==> in_calendar(days as int),
            r matches Some(d) ==> d@ == days,
    {
        if MIN_EPOCH_DAY <= days && days <= MAX_EPOCH_DAY {
            Some(Date { days })
        } else {
            None
        }
    }

    /// The date with the given year, month and day, if it exists.
    pub fn from_ymd(year: i32, month: u32, day: u32) -> (r: Option<Date>)
        ensures
            r is Some <==> is_valid_ymd(year as int, month as int, day as int),
            r matches Some(d) ==> ymd_epoch_day(year, month, day) == Some(d@ as i32) && in_calendar(d@),
    {
        match chrono_ymd_to_epoch_day(year, month, day) {
            Some(days) => Some(Date { days }),
            None => None,
        }
    }

    /// The day number of this date, counted from 1970-01-01.
    pub fn epoch_days(&self) -> (r: i32)
        ensures
            r == self@,
            in_calendar(self@),
    {
        proof {
            use_type_invariant(self);
        }
        self.days
    }

    /// This date falls strictly before `other`.
    pub fn before(&self, other: &Date) -> (r: bool)
        ensures
            r == (self@ < other@),
            in_calendar(self@),
            in_calendar(other@),
    {
        proof {
            use_type_invariant(self);
            use_type_invariant(other);
        }
        self.days < other.days
    }

    /// This date falls on or before `other`.
    pub fn on_or_before(&self, other: &Date) -> (r: bool)
        ensures
            r == (self@ <= other@),
            in_calendar(self@),
            in_calendar(other@),
    {
        proof {
            use_type_invariant(self);
            use_type_invariant(other);
        }
        self.days <= other.days
    }

    /// The date `delta` days later, if chrono can represent it.
    pub fn checked_add_days(&self, delta: i64) -> (r: Option<Date>)
        requires
            valid_delta(delta as int),
        ensures
            r is Some <==> in_calendar(self@ + delta),
            r matches Some(d) ==> d@ == self@ + delta,
            in_calendar(self@),
    {
        proof {
            use_type_invariant(self);
        }
        match chrono_add_days(self.days, delta) {
            Some(days) => Some(Date { days }),
            None => None,
        }
    }

    /// The date `delta` days earlier, if chrono can represent it.
    pub fn checked_sub_days(&self, delta: i64) -> (r: Option<Date>)
        requires
            valid_delta(delta as int),
        ensures
            r is Some <==> in_calendar(self@ - delta),
            r matches Some(d) ==> d@ == self@ - delta,
            in_calendar(self@),
    {
        proof {
            use_type_invariant(self);
        }
        match chrono_sub_days(self.days, delta) {
            Some(days) => Some(Date { days }),
            None => None,
        }
    }

    /// Whole days from `earlier` to this date (negative when `earlier` is later).
    pub fn days_since(&self, earlier: &Date) -> (r: i64)
        ensures
            r == self@ - earlier@,
    {
        proof {
            use_type_invariant(self);
            use_type_invariant(earlier);
        }
        chrono_days_since(self.days, earlier.days)
    }
}

} // verus!
