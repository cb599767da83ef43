use vstd::prelude::*;

verus! {

/// A calendar day (proleptic Gregorian) written as year, month and day.
#[derive(Debug, Clone, Copy, PartialEq, Eq, Structural)]
pub struct CalendarDate {
    pub year: i32,
    pub month: u32,
    pub day: u32,
}

pub open spec fn is_leap_year(y: int) -> bool {
    (y % 4 == 0 && y % 100 != 0) || y % 400 == 0
}

pub open spec fn days_in_month(y: int, m: int) -> int {
    if m == 2 {
        if is_leap_year(y) {
            29
        } else {
            28
        }
    } else if m == 4 || m == 6 || m == 9 || m == 11 {
        30
    } else {
        31
    }
}

/// A number that orders dates as the calendar does (for months <= 99, days <= 99).
pub open spec fn date_key(d: CalendarDate) -> int {
    d.year as int * 10000 + d.month as int * 100 + d.day as int
}

impl CalendarDate {
    /// A real calendar day whose year has at most four digits.
    pub open spec fn wf(&self) -> bool {
        &&& 0 <= self.year <= 9999
        &&& 1 <= self.month <= 12
        &&& 1 <= self.day <= days_in_month(self.year as int, self.month as int)
    }

    /// `self` falls on or before `other`.
    pub fn on_or_before(&self, other: &CalendarDate) -> (r: bool)
        requires
            self.wf(),
            other.wf(),
        ensures
            r == (date_key(*self) <= date_key(*other)),
    {
        if self.year != other.year {
            return self.year < other.year;
        }
        if self.month != other.month {
            return self.month < other.month;
        }
        self.day <= other.day
    }
}

} // verus!
