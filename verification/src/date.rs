use vstd::prelude::*;
use crate::error::Error;

verus! {

/// A proleptic Gregorian year is a leap year when it is divisible by four,
/// except century years, which must be divisible by four hundred.
pub open spec fn is_leap_year(y: int) -> bool {
    (y % 4 == 0 && y % 100 != 0) || y % 400 == 0
}

/// Number of days in month `m` of year `y` (months are numbered from 1).
pub open spec fn days_in_month_of(y: int, m: int) -> int {
    if m == 2 {
        if is_leap_year(y) {
            29
        } else {
            28
        }
    } else if m == 4 || m == 6 || m == 9 || m == 11 {
        30
    } else {
        31
    }
}

/// The calendar dates this library can represent: every valid Gregorian
/// date from 0000-01-01 up to 9999-12-31.
pub open spec fn valid_date(y: int, m: int, d: int) -> bool {
    &&& 0 <= y <= 9999
    &&& 1 <= m <= 12
    &&& 1 <= d <= days_in_month_of(y, m)
}

/// A calendar date (year, month, day of month), no time-of-day component.
/// Every function of the library keeps dates valid (`wf`); equality and
/// ordering are by calendar day.
#[derive(Clone, Copy, PartialEq, Eq, Structural, Debug)]
pub struct Date {
    pub year: u16,
    pub month: u8,
    pub day: u8,
}

/// The smallest representable date, 0000-01-01.
pub open spec fn min_date() -> Date {
    Date { year: 0, month: 1, day: 1 }
}

/// The largest representable date, 9999-12-31.
pub open spec fn max_date() -> Date {
    Date { year: 9999, month: 12, day: 31 }
}

/// The calendar successor of `d` (meaningful for valid dates below the maximum).
pub open spec fn next_of(d: Date) -> Date {
    if (d.day as int) < days_in_month_of(d.year as int, d.month as int) {
        Date { day: (d.day + 1) as u8, ..d }
    } else if d.month < 12 {
        Date { month: (d.month + 1) as u8, day: 1, ..d }
    } else {
        Date { year: (d.year + 1) as u16, month: 1, day: 1 }
    }
}

/// The calendar predecessor of `d` (meaningful for valid dates above the minimum).
pub open spec fn prev_of(d: Date) -> Date {
    if d.day > 1 {
        Date { day: (d.day - 1) as u8, ..d }
    } else if d.month > 1 {
        Date {
            month: (d.month - 1) as u8,
            day: days_in_month_of(d.year as int, d.month - 1) as u8,
            ..d
        }
    } else {
        Date { year: (d.year - 1) as u16, month: 12, day: 31 }
    }
}

/// The date `n` days away from `d`, saturating at the calendar bounds
/// instead of leaving the representable range.
pub open spec fn plus_days_sat(d: Date, n: int) -> Date
    decreases (if n >= 0 { n } else { -n }),
{
    if n > 0 {
        if d == max_date() {
            d
        } else {
            plus_days_sat(next_of(d), n - 1)
        }
    } else if n < 0 {
        if d == min_date() {
            d
        } else {
            plus_days_sat(prev_of(d), n + 1)
        }
    } else {
        d
    }
}

impl Date {
    /// Validity: the date is a real Gregorian calendar day in range.
    pub open spec fn wf(self) -> bool {
        valid_date(self.year as int, self.month as int, self.day as int)
    }

    /// Numeric key of a date: its canonical YYYYMMDD digits read as a number.
    /// On valid dates the key orders dates chronologically and is injective.
    pub open spec fn key(self) -> int {
        self.year * 10000 + self.month * 100 + self.day
    }

    /// Builds a date from numeric parts, rejecting invalid combinations.
    pub fn new(year: i32, month: u8, day: u8) -> (r: Result<Date, Error>)
        ensures
            r is Ok <==> valid_date(year as int, month as int, day as int),
            r matches Ok(d) ==> d == (Date { year: year as u16, month, day }) && d.wf(),
            r matches Err(e) ==> e is OutOfRange,
    {
        if year < 0 || year > 9999 || month < 1 || month > 12 || day < 1 {
            return Err(Error::OutOfRange);
        }
        let dim = days_in_month(year as u16, month);
        if day > dim {
            return Err(Error::OutOfRange);
        }
        Ok(Date { year: year as u16, month, day })
    }

    /// The smallest representable date.
    pub fn first_day() -> (d: Date)
        ensures
            d == min_date(),
            d.wf(),
    {
        Date { year: 0, month: 1, day: 1 }
    }

    /// The largest representable date.
    pub fn last_day() -> (d: Date)
        ensures
            d == max_date(),
            d.wf(),
    {
        Date { year: 9999, month: 12, day: 31 }
    }

    /// The numeric key as a machine integer.
    pub fn key_value(&self) -> (k: u32)
        requires
            self.wf(),
        ensures
            k as int == self.key(),
    {
        (self.year as u32) * 10000 + (self.month as u32) * 100 + (self.day as u32)
    }

    /// Chronological comparison: `self` on or before `other`.
    pub fn le(&self, other: &Date) -> (r: bool)
        requires
            self.wf(),
            other.wf(),
        ensures
            r == (self.key() <= other.key()),
    {
        self.key_value() <= other.key_value()
    }

    /// The following calendar day, or `None` at the end of the range.
    pub fn next_day(&self) -> (r: Option<Date>)
        requires
            self.wf(),
        ensures
            r is Some <==> *self != max_date(),
            r matches Some(d) ==> d == next_of(*self) && d.wf(),
    {
        if self.year == 9999 && self.month == 12 && self.day == 31 {
            return None;
        }
        proof {
            lemma_next_wf(*self);
        }
        let dim = days_in_month(self.year, self.month);
        if self.day < dim {
            Some(Date { day: self.day + 1, ..*self })
        } else if self.month < 12 {
            Some(Date { month: self.month + 1, day: 1, ..*self })
        } else {
            Some(Date { year: self.year + 1, month: 1, day: 1 })
        }
    }

    /// The preceding calendar day, or `None` at the start of the range.
    pub fn previous_day(&self) -> (r: Option<Date>)
        requires
            self.wf(),
        ensures
            r is Some <==> *self != min_date(),
            r matches Some(d) ==> d == prev_of(*self) && d.wf(),
    {
        if self.year == 0 && self.month == 1 && self.day == 1 {
            return None;
        }
        proof {
            lemma_prev_wf(*self);
        }
        if self.day > 1 {
            Some(Date { day: self.day - 1, ..*self })
        } else if self.month > 1 {
            Some(Date { month: self.month - 1, day: days_in_month(self.year, self.month - 1), ..*self })
        } else {
            Some(Date { year: self.year - 1, month: 12, day: 31 })
        }
    }

    /// Moves `n` days from `self`, saturating at the calendar bounds rather
    /// than overflowing.
    pub fn add_days_saturating(&self, n: i64) -> (r: Date)
        requires
            self.wf(),
        ensures
            r == plus_days_sat(*self, n as int),
            r.wf(),
    {
        let clamped: i64 = if n > 99991231 {
            proof {
                lemma_key_bounds(*self);
                lemma_sat_hits_max(*self, n as int);
                lemma_sat_hits_max(*self, 99991231);
            }
            99991231
        } else if n < -99991231 {
            proof {
                lemma_key_bounds(*self);
                lemma_sat_hits_min(*self, n as int);
                lemma_sat_hits_min(*self, -99991231);
            }
            -99991231
        } else {
            n
        };
        let mut cur: Date = *self;
        proof {
            lemma_sat_wf(*self, clamped as int);
        }
        if clamped >= 0 {
            let mut i: i64 = 0;
            while i < clamped
                invariant
                    0 <= i <= clamped,
                    clamped <= 99991231,
                    cur.wf(),
                    plus_days_sat(cur, clamped - i) == plus_days_sat(*self, clamped as int),
                ensures
                    cur == plus_days_sat(*self, clamped as int),
                decreases clamped - i,
            {
                if cur.year == 9999 && cur.month == 12 && cur.day == 31 {
                    proof {
                        assert(plus_days_sat(cur, clamped - i) == cur);
                    }
                    break;
                }
                proof {
                    lemma_next_wf(cur);
                    assert(plus_days_sat(cur, clamped - i) == plus_days_sat(
                        next_of(cur),
                        clamped - i - 1,
                    ));
                }
                cur = match cur.next_day() {
                    Some(d) => d,
                    None => cur,
                };
                i = i + 1;
            }
        } else {
            let mut i: i64 = 0;
            while i > clamped
                invariant
                    clamped <= i <= 0,
                    -99991231 <= clamped,
                    cur.wf(),
                    plus_days_sat(cur, clamped - i) == plus_days_sat(*self, clamped as int),
                ensures
                    cur == plus_days_sat(*self, clamped as int),
                decreases i - clamped,
            {
                if cur.year == 0 && cur.month == 1 && cur.day == 1 {
                    proof {
                        assert(plus_days_sat(cur, clamped - i) == cur);
                    }
                    break;
                }
                proof {
                    lemma_prev_wf(cur);
                    assert(plus_days_sat(cur, clamped - i) == plus_days_sat(
                        prev_of(cur),
                        clamped - i + 1,
                    ));
                }
                cur = match cur.previous_day() {
                    Some(d) => d,
                    None => cur,
                };
                i = i - 1;
            }
        }
        cur
    }
}

/// Days in a month, as executable code.
pub fn days_in_month(year: u16, month: u8) -> (r: u8)
    requires
        1 <= month <= 12,
        year <= 9999,
    ensures
        r as int == days_in_month_of(year as int, month as int),
        28 <= r <= 31,
{
    if month == 2 {
        if (year % 4 == 0 && year % 100 != 0) || year % 400 == 0 {
            29
        } else {
            28
        }
    } else if month == 4 || month == 6 || month == 9 || month == 11 {
        30
    } else {
        31
    }
}

/// The key of a valid date lies between the keys of the two bounds, and
/// meets a bound's key only at that bound.
pub proof fn lemma_key_bounds(d: Date)
    requires
        d.wf(),
    ensures
        101 <= d.key() <= 99991231,
        d.key() == 99991231 ==> d == max_date(),
        d.key() == 101 ==> d == min_date(),
{
}

/// On valid dates the numeric key is injective.
pub proof fn lemma_key_injective(a: Date, b: Date)
    requires
        a.wf(),
        b.wf(),
        a.key() == b.key(),
    ensures
        a == b,
{
    if a.year < b.year {
        assert(a.key() < b.key());
    } else if b.year < a.year {
        assert(b.key() < a.key());
    } else if a.month < b.month {
        assert(a.key() < b.key());
    } else if b.month < a.month {
        assert(b.key() < a.key());
    }
}

/// Stepping forward from a valid date below the maximum stays valid and
/// strictly increases the key.
pub proof fn lemma_next_wf(d: Date)
    requires
        d.wf(),
        d != max_date(),
    ensures
        next_of(d).wf(),
        next_of(d).key() > d.key(),
{
}

/// Stepping backward from a valid date above the minimum stays valid and
/// strictly decreases the key.
pub proof fn lemma_prev_wf(d: Date)
    requires
        d.wf(),
        d != min_date(),
    ensures
        prev_of(d).wf(),
        prev_of(d).key() < d.key(),
{
}

/// A saturating move keeps dates valid.
pub proof fn lemma_sat_wf(d: Date, n: int)
    requires
        d.wf(),
    ensures
        plus_days_sat(d, n).wf(),
    decreases (if n >= 0 { n } else { -n }),
{
    if n > 0 {
        if d != max_date() {
            lemma_next_wf(d);
            lemma_sat_wf(next_of(d), n - 1);
        }
    } else if n < 0 {
        if d != min_date() {
            lemma_prev_wf(d);
            lemma_sat_wf(prev_of(d), n + 1);
        }
    }
}

/// Moving forward by at least the key distance to the maximum saturates there.
pub proof fn lemma_sat_hits_max(d: Date, n: int)
    requires
        d.wf(),
        n >= max_date().key() - d.key(),
    ensures
        plus_days_sat(d, n) == max_date(),
    decreases n,
{
    if d != max_date() {
        lemma_key_bounds(d);
        lemma_next_wf(d);
        lemma_sat_hits_max(next_of(d), n - 1);
    }
}

/// Moving backward by at least the key distance to the minimum saturates there.
pub proof fn lemma_sat_hits_min(d: Date, n: int)
    requires
        d.wf(),
        n <= min_date().key() - d.key(),
    ensures
        plus_days_sat(d, n) == min_date(),
    decreases -n,
{
    if d != min_date() {
        lemma_key_bounds(d);
        lemma_prev_wf(d);
        lemma_sat_hits_min(prev_of(d), n + 1);
    }
}

} // verus!
