//! Calendar dates as plain year/month/day values, with the proleptic
//! Gregorian validity rules, and a date that may carry a time of day.

use vstd::prelude::*;

verus! {

/// A calendar date: a year, a month in 1..=12 and a day that exists in
/// that month of that year.
#[derive(Clone, Copy, Debug, PartialEq, Eq, Structural, Hash)]
pub struct NaiveDate {
    pub year: u32,
    pub month: u32,
    pub day: u32,
}

/// A time of day, seconds granularity.
#[derive(Clone, Copy, Debug, PartialEq, Eq, Structural, Hash)]
pub struct TimeOfDay {
    pub hour: u32,
    pub minute: u32,
    pub second: u32,
}

/// A calendar date that optionally carries a time of day.
#[derive(Clone, Copy, Debug, PartialEq, Eq, Structural, Hash)]
pub enum NaiveDateWithOptionalTime {
    NaiveDate(NaiveDate),
    NaiveDateTime(NaiveDate, TimeOfDay),
}

pub open spec fn spec_is_leap_year(year: u32) -> bool {
    year % 4 == 0 && (year % 100 != 0 || year % 400 == 0)
}

pub open spec fn spec_days_in_month(year: u32, month: u32) -> u32 {
    if month == 2 {
        if spec_is_leap_year(year) {
            29
        } else {
            28
        }
    } else if month == 4 || month == 6 || month == 9 || month == 11 {
        30
    } else {
        31
    }
}

/// The day/month/year triples that name a real calendar date.
pub open spec fn spec_valid_date(year: u32, month: u32, day: u32) -> bool {
    1 <= month <= 12 && 1 <= day <= spec_days_in_month(year, month)
}

/// Strict order on dates: by year, then month, then day.
pub open spec fn spec_date_lt(a: NaiveDate, b: NaiveDate) -> bool {
    a.year < b.year || (a.year == b.year && (a.month < b.month || (a.month == b.month
        && a.day < b.day)))
}

pub open spec fn spec_valid_time(t: TimeOfDay) -> bool {
    t.hour < 24 && t.minute < 60 && t.second < 60
}

/// The date part of a possibly time-carrying date.
pub open spec fn spec_date_part(d: NaiveDateWithOptionalTime) -> NaiveDate {
    match d {
        NaiveDateWithOptionalTime::NaiveDate(date) => date,
        NaiveDateWithOptionalTime::NaiveDateTime(date, _) => date,
    }
}

/// Order on possibly time-carrying dates: by the date part alone, a bare
/// date sorting with the midnight of the same day.
pub open spec fn spec_opt_time_le(a: NaiveDateWithOptionalTime, b: NaiveDateWithOptionalTime) -> bool {
    spec_date_lt(spec_date_part(a), spec_date_part(b)) || spec_date_part(a) == spec_date_part(b)
}

impl NaiveDate {
    pub open spec fn is_valid(self) -> bool {
        spec_valid_date(self.year, self.month, self.day)
    }

    pub fn is_leap_year(year: u32) -> (r: bool)
        ensures
            r == spec_is_leap_year(year),
    {
        year % 4 == 0 && (year % 100 != 0 || year % 400 == 0)
    }

    pub fn days_in_month(year: u32, month: u32) -> (r: u32)
        ensures
            r == spec_days_in_month(year, month),
    {
        if month == 2 {
            if NaiveDate::is_leap_year(year) {
                29
            } else {
                28
            }
        } else if month == 4 || month == 6 || month == 9 || month == 11 {
            30
        } else {
            31
        }
    }

    /// Builds the date if the triple names a real calendar date, and
    /// returns `None` exactly on the triples that do not.
    pub fn from_ymd_opt(year: u32, month: u32, day: u32) -> (r: Option<NaiveDate>)
        ensures
            spec_valid_date(year, month, day) <==> r is Some,
            r is Some ==> r->0 == (NaiveDate { year, month, day }),
    {
        if 1 <= month && month <= 12 && 1 <= day && day <= NaiveDate::days_in_month(year, month) {
            Some(NaiveDate { year, month, day })
        } else {
            None
        }
    }

    /// Builds a date known to be valid.
    pub fn from_ymd(year: u32, month: u32, day: u32) -> (r: NaiveDate)
        requires
            spec_valid_date(year, month, day),
        ensures
            r == (NaiveDate { year, month, day }),
    {
        NaiveDate { year, month, day }
    }

    /// Strictly-before comparison.
    pub fn lt(&self, other: &NaiveDate) -> (r: bool)
        ensures
            r == spec_date_lt(*self, *other),
    {
        self.year < other.year || (self.year == other.year && (self.month < other.month || (
        self.month == other.month && self.day < other.day)))
    }
}

impl NaiveDateWithOptionalTime {
    /// The date part, with any time of day dropped.
    pub fn date_part(&self) -> (r: NaiveDate)
        ensures
            r == spec_date_part(*self),
    {
        match self {
            NaiveDateWithOptionalTime::NaiveDate(date) => *date,
            NaiveDateWithOptionalTime::NaiveDateTime(date, _) => *date,
        }
    }
}

impl From<NaiveDate> for NaiveDateWithOptionalTime {
    fn from(date: NaiveDate) -> (r: NaiveDateWithOptionalTime) {
        NaiveDateWithOptionalTime::NaiveDate(date)
    }
}

impl vstd::std_specs::convert::FromSpecImpl<NaiveDate> for NaiveDateWithOptionalTime {
    open spec fn obeys_from_spec() -> bool {
        true
    }

    open spec fn from_spec(date: NaiveDate) -> NaiveDateWithOptionalTime {
        NaiveDateWithOptionalTime::NaiveDate(date)
    }
}

} // verus!
