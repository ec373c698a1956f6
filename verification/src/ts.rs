//! Civil UTC timestamps at one-second resolution, held as plain calendar
//! parts so that calendar-date identity and chronological order are ordinary
//! integer comparisons.

use vstd::prelude::*;

verus! {

/// A UTC timestamp: a civil calendar date plus a time of day.
#[derive(Clone, Copy, PartialEq, Eq, Structural, Debug)]
pub struct Timestamp {
    pub year: u32,
    pub month: u32,
    pub day: u32,
    pub hour: u32,
    pub minute: u32,
    pub second: u32,
}

pub open spec fn is_leap_year(y: int) -> bool {
    y % 4 == 0 && (y % 100 != 0 || y % 400 == 0)
}

pub open spec fn days_in_month(y: int, m: int) -> int {
    if m == 2 {
        if is_leap_year(y) {
            29
        } else {
            28
        }
    } else if m == 4 || m == 6 || m == 9 || m == 11 {
        30
    } else {
        31
    }
}

impl Timestamp {
    /// A representable timestamp: a real civil date with a four-digit year
    /// and an in-range time of day.
    pub open spec fn valid(self) -> bool {
        &&& self.year <= 9999
        &&& 1 <= self.month <= 12
        &&& 1 <= self.day <= days_in_month(self.year as int, self.month as int)
        &&& self.hour <= 23
        &&& self.minute <= 59
        &&& self.second <= 59
    }

    /// Two timestamps fall on the same calendar date.
    pub open spec fn same_date(self, o: Timestamp) -> bool {
        self.year == o.year && self.month == o.month && self.day == o.day
    }

    /// Strict chronological order: lexicographic on the calendar parts.
    pub open spec fn lt(self, o: Timestamp) -> bool {
        ||| self.year < o.year
        ||| (self.year == o.year && self.month < o.month)
        ||| (self.year == o.year && self.month == o.month && self.day < o.day)
        ||| (self.same_date(o) && self.hour < o.hour)
        ||| (self.same_date(o) && self.hour == o.hour && self.minute < o.minute)
        ||| (self.same_date(o) && self.hour == o.hour && self.minute == o.minute
            && self.second < o.second)
    }

    pub fn date_eq(&self, o: &Timestamp) -> (r: bool)
        ensures
            r == self.same_date(*o),
    {
        self.year == o.year && self.month == o.month && self.day == o.day
    }

    pub fn time_lt(&self, o: &Timestamp) -> (r: bool)
        ensures
            r == self.lt(*o),
    {
        if self.year != o.year {
            self.year < o.year
        } else if self.month != o.month {
            self.month < o.month
        } else if self.day != o.day {
            self.day < o.day
        } else if self.hour != o.hour {
            self.hour < o.hour
        } else if self.minute != o.minute {
            self.minute < o.minute
        } else {
            self.second < o.second
        }
    }

    /// Checks every range of `valid`.
    pub fn check_valid(&self) -> (r: bool)
        ensures
            r == self.valid(),
    {
        let dim: u32 = if self.month == 2 {
            let leap = self.year % 4 == 0 && (self.year % 100 != 0 || self.year % 400 == 0);
            if leap {
                29
            } else {
                28
            }
        } else if self.month == 4 || self.month == 6 || self.month == 9 || self.month == 11 {
            30
        } else {
            31
        };
        self.year <= 9999 && 1 <= self.month && self.month <= 12 && 1 <= self.day && self.day
            <= dim && self.hour <= 23 && self.minute <= 59 && self.second <= 59
    }
}

/// Chronological order is total: two timestamps are ordered or equal.
pub proof fn lemma_lt_total(a: Timestamp, b: Timestamp)
    ensures
        a.lt(b) || b.lt(a) || a == b,
{
}

/// Chronological order is transitive.
pub proof fn lemma_lt_trans(a: Timestamp, b: Timestamp, c: Timestamp)
    requires
        a.lt(b),
        b.lt(c),
    ensures
        a.lt(c),
{
}

} // verus!
