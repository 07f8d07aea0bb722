//! Calendar dates, clock times and the timestamps that order log files.

use vstd::prelude::*;

verus! {

/// `chrono::NaiveDate`, a calendar date; nothing is known of what is in it.
#[verifier::external_type_specification]
#[verifier::external_body]
pub struct ExNaiveDate(chrono::NaiveDate);

/// `chrono::NaiveTime`, a time of day; nothing is known of what is in it.
#[verifier::external_type_specification]
#[verifier::external_body]
pub struct ExNaiveTime(chrono::NaiveTime);

/// The first year that `chrono` can represent.
pub open spec fn min_year() -> int {
    -262143
}

/// The last year that `chrono` can represent.
pub open spec fn max_year() -> int {
    262142
}

/// Leap years of the proleptic Gregorian calendar.
pub open spec fn is_leap_year(year: int) -> bool {
    year % 4 == 0 && (year % 100 != 0 || year % 400 == 0)
}

/// Number of days of `month` in `year`; zero when `month` is no month.
pub open spec fn days_in_month(year: int, month: int) -> int {
    if month == 4 || month == 6 || month == 9 || month == 11 {
        30
    } else if month == 2 {
        if is_leap_year(year) {
            29
        } else {
            28
        }
    } else if 1 <= month <= 12 {
        31
    } else {
        0
    }
}

/// The day `year`-`month`-`day` exists and its year is representable.
pub open spec fn is_calendar_date(year: int, month: int, day: int) -> bool {
    &&& min_year() <= year <= max_year()
    &&& 1 <= month <= 12
    &&& 1 <= day <= days_in_month(year, month)
}

/// `hour`:`minute`:`second` is a time of day; leap seconds are not.
pub open spec fn is_clock_time(hour: int, minute: int, second: int) -> bool {
    &&& 0 <= hour < 24
    &&& 0 <= minute < 60
    &&& 0 <= second < 60
}

/// `chrono::NaiveDate::from_ymd_opt` yields a date exactly for the days that
/// exist in the proleptic Gregorian calendar, within the years it can hold.
pub assume_specification[ chrono::NaiveDate::from_ymd_opt ](
    year: i32,
    month: u32,
    day: u32,
) -> (date: Option<chrono::NaiveDate>)
    ensures
        date.is_some() == is_calendar_date(year as int, month as int, day as int),
;

/// `chrono::NaiveTime::from_hms_opt` yields a time exactly when the hour is
/// below 24 and minute and second are below 60.
pub assume_specification[ chrono::NaiveTime::from_hms_opt ](
    hour: u32,
    min: u32,
    sec: u32,
) -> (time: Option<chrono::NaiveTime>)
    ensures
        time.is_some() == is_clock_time(hour as int, min as int, sec as int),
;

/// A calendar date with a time of day, to the second, without a time zone.
#[derive(Clone, Copy, Debug, PartialEq, Eq, Structural)]
pub struct Timestamp {
    pub year: i32,
    pub month: u32,
    pub day: u32,
    pub hour: u32,
    pub minute: u32,
    pub second: u32,
}

impl Timestamp {
    /// The fields name a day that exists and a time of day.
    pub open spec fn valid(self) -> bool {
        &&& is_calendar_date(self.year as int, self.month as int, self.day as int)
        &&& is_clock_time(self.hour as int, self.minute as int, self.second as int)
    }

    /// `self` is strictly before `other`: the fields compared from the year
    /// down to the second.
    pub open spec fn earlier(self, other: Timestamp) -> bool {
        if self.year != other.year {
            self.year < other.year
        } else if self.month != other.month {
            self.month < other.month
        } else if self.day != other.day {
            self.day < other.day
        } else if self.hour != other.hour {
            self.hour < other.hour
        } else if self.minute != other.minute {
            self.minute < other.minute
        } else {
            self.second < other.second
        }
    }

    /// The timestamp with these fields, if they name a real date and time.
    pub fn new(year: i32, month: u32, day: u32, hour: u32, minute: u32, second: u32) -> (made:
        Option<Timestamp>)
        ensures
            made is Some <==> is_calendar_date(year as int, month as int, day as int)
                && is_clock_time(hour as int, minute as int, second as int),
            made is Some ==> made->0 == (Timestamp { year, month, day, hour, minute, second }),
    {
        if chrono::NaiveDate::from_ymd_opt(year, month, day).is_none() {
            return None;
        }
        if chrono::NaiveTime::from_hms_opt(hour, minute, second).is_none() {
            return None;
        }
        Some(Timestamp { year, month, day, hour, minute, second })
    }

    /// Whether `self` is strictly before `other`.
    pub fn is_earlier_than(&self, other: &Timestamp) -> (before: bool)
        ensures
            before == self.earlier(*other),
    {
        if self.year != other.year {
            self.year < other.year
        } else if self.month != other.month {
            self.month < other.month
        } else if self.day != other.day {
            self.day < other.day
        } else if self.hour != other.hour {
            self.hour < other.hour
        } else if self.minute != other.minute {
            self.minute < other.minute
        } else {
            self.second < other.second
        }
    }
}

/// No timestamp is before itself, and of two timestamps at most one is before
/// the other.
pub proof fn lemma_earlier_is_strict(a: Timestamp, b: Timestamp)
    ensures
        !a.earlier(a),
        a.earlier(b) ==> !b.earlier(a),
{
}

/// Being earlier carries over a timestamp in between.
pub proof fn lemma_earlier_is_transitive(a: Timestamp, b: Timestamp, c: Timestamp)
    requires
        a.earlier(b),
        b.earlier(c),
    ensures
        a.earlier(c),
{
}

/// Two different timestamps are ordered one way or the other.
pub proof fn lemma_earlier_is_total(a: Timestamp, b: Timestamp)
    ensures
        a == b || a.earlier(b) || b.earlier(a),
{
}

} // verus!
