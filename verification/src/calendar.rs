//! The proleptic Gregorian calendar counted in days from 1970-01-01, and
//! the conversion from a day count to a date.

use vstd::prelude::*;

verus! {

/// A leap year of the Gregorian calendar.
pub open spec fn is_leap(y: int) -> bool {
    y % 4 == 0 && (y % 100 != 0 || y % 400 == 0)
}

/// The number of days of month `m` (1 to 12) in year `y`; 0 for any other `m`.
pub open spec fn month_days(y: int, m: int) -> int {
    if m == 1 || m == 3 || m == 5 || m == 7 || m == 8 || m == 10 || m == 12 {
        31
    } else if m == 4 || m == 6 || m == 9 || m == 11 {
        30
    } else if m == 2 {
        if is_leap(y) {
            29
        } else {
            28
        }
    } else {
        0
    }
}

/// The number of days of year `y`.
pub open spec fn year_days(y: int) -> int {
    if is_leap(y) {
        366
    } else {
        365
    }
}

/// Days from 1970-01-01 to the first day of year `y` (`y >= 1970`).
pub open spec fn days_before_year(y: int) -> int
    decreases y - 1970,
{
    if y <= 1970 {
        0
    } else {
        days_before_year(y - 1) + year_days(y - 1)
    }
}

/// Days from the first of January to the first day of month `m` of year `y`.
pub open spec fn days_before_month(y: int, m: int) -> int
    decreases m,
{
    if m <= 1 {
        0
    } else {
        days_before_month(y, m - 1) + month_days(y, m - 1)
    }
}

/// A date of the calendar from 1970 on: `(year, month, day)`.
pub open spec fn valid_date(d: (int, int, int)) -> bool {
    &&& d.0 >= 1970
    &&& 1 <= d.1 <= 12
    &&& 1 <= d.2 <= month_days(d.0, d.1)
}

/// The number of days from 1970-01-01 to the date `d`.
pub open spec fn days_since_epoch(d: (int, int, int)) -> int {
    days_before_year(d.0) + days_before_month(d.0, d.1) + d.2 - 1
}

/// The date that lies `days` days after 1970-01-01.
pub open spec fn date_of(days: int) -> (int, int, int) {
    choose|d: (int, int, int)| valid_date(d) && days_since_epoch(d) == days
}

/// Every month but February has 30 or 31 days by the knuckle rule:
/// 31 when the month number, plus one from August on, is odd.
pub proof fn law_month_lengths(y: int, m: int)
    requires
        1 <= m <= 12,
        m != 2,
    ensures
        month_days(y, m) == 30 + (m + m / 8) % 2,
{
}

/// February has 29 days in a leap year and 28 otherwise.
pub proof fn law_february(y: int)
    ensures
        month_days(y, 2) == if is_leap(y) { 29int } else { 28int },
{
}

/// The days before month `m` follow the closed formula
/// `(367 m - 362) / 12`, less 2 from March on (less 1 in a leap year).
pub proof fn law_days_before_month(y: int, m: int)
    requires
        1 <= m <= 13,
    ensures
        days_before_month(y, m) == (367 * m - 362) / 12 - (if m <= 2 {
            0int
        } else if is_leap(y) {
            1int
        } else {
            2int
        }),
{
    reveal_with_fuel(days_before_month, 13);
    if m == 1 {
    } else if m == 2 {
    } else if m == 3 {
    } else if m == 4 {
    } else if m == 5 {
    } else if m == 6 {
    } else if m == 7 {
    } else if m == 8 {
    } else if m == 9 {
    } else if m == 10 {
    } else if m == 11 {
    } else if m == 12 {
    } else {
        assert(m == 13);
    }
}

/// The number of leap years from year 1 to year `y`: every 4th year,
/// less every 100th, plus every 400th.
pub open spec fn leap_years_upto(y: int) -> int {
    y / 4 - y / 100 + y / 400
}

/// The days before year `y` from 1970 on: 365 a year, plus one for each
/// leap year counted by the Gregorian rule (every 4th, not every 100th,
/// every 400th year) among the years 1970 to `y - 1`.
pub proof fn law_days_before_year(y: int)
    requires
        y >= 1970,
    ensures
        days_before_year(y) == 365 * (y - 1970) + leap_years_upto(y - 1) - leap_years_upto(1969),
    decreases y - 1970,
{
    if y > 1970 {
        law_days_before_year(y - 1);
        let x = y - 1;
        assert((x / 4 - (x - 1) / 4 == 1) == (x % 4 == 0)) by {
            assert(x == 4 * (x / 4) + x % 4);
            assert(x - 1 == 4 * ((x - 1) / 4) + (x - 1) % 4);
        }
        assert((x / 100 - (x - 1) / 100 == 1) == (x % 100 == 0)) by {
            assert(x == 100 * (x / 100) + x % 100);
            assert(x - 1 == 100 * ((x - 1) / 100) + (x - 1) % 100);
        }
        assert((x / 400 - (x - 1) / 400 == 1) == (x % 400 == 0)) by {
            assert(x == 400 * (x / 400) + x % 400);
            assert(x - 1 == 400 * ((x - 1) / 400) + (x - 1) % 400);
        }
        assert(0 <= x / 4 - (x - 1) / 4 <= 1) by {
            assert(x == 4 * (x / 4) + x % 4);
            assert(x - 1 == 4 * ((x - 1) / 4) + (x - 1) % 4);
        }
        assert(0 <= x / 100 - (x - 1) / 100 <= 1) by {
            assert(x == 100 * (x / 100) + x % 100);
            assert(x - 1 == 100 * ((x - 1) / 100) + (x - 1) % 100);
        }
        assert(0 <= x / 400 - (x - 1) / 400 <= 1) by {
            assert(x == 400 * (x / 400) + x % 400);
            assert(x - 1 == 400 * ((x - 1) / 400) + (x - 1) % 400);
        }
    }
}

/// The day count of a date in closed form: 365 days a year plus the leap
/// days before its year, the days before its month by the formula of
/// `law_days_before_month`, and the day of the month less one.
pub proof fn law_days_since_epoch(d: (int, int, int))
    requires
        valid_date(d),
    ensures
        days_since_epoch(d) == 365 * (d.0 - 1970) + leap_years_upto(d.0 - 1) - leap_years_upto(1969)
            + (367 * d.1 - 362) / 12 - (if d.1 <= 2 {
            0int
        } else if is_leap(d.0) {
            1int
        } else {
            2int
        }) + d.2 - 1,
{
    law_days_before_year(d.0);
    law_days_before_month(d.0, d.1);
}

/// The months of a year add up to the year.
pub proof fn lemma_months_fill_year(y: int)
    ensures
        days_before_month(y, 13) == year_days(y),
{
    reveal_with_fuel(days_before_month, 13);
}

/// Months before `m` never take longer than the whole year, and grow with `m`.
pub proof fn lemma_days_before_month_mono(y: int, m1: int, m2: int)
    requires
        1 <= m1 <= m2 <= 13,
    ensures
        days_before_month(y, m1) + (if m1 < m2 {
            month_days(y, m1)
        } else {
            0
        }) <= days_before_month(y, m2),
        days_before_month(y, m1) >= 0,
    decreases m2 - m1,
{
    if m1 < m2 {
        lemma_days_before_month_mono(y, m1 + 1, m2);
        lemma_days_before_month_nonneg(y, m1);
    } else {
        lemma_days_before_month_nonneg(y, m1);
    }
}

proof fn lemma_days_before_month_nonneg(y: int, m: int)
    ensures
        days_before_month(y, m) >= 0,
    decreases m,
{
    if m > 1 {
        lemma_days_before_month_nonneg(y, m - 1);
    }
}

/// Each year adds at least 365 days.
pub proof fn lemma_days_before_year_grows(y1: int, y2: int)
    requires
        1970 <= y1 <= y2,
    ensures
        days_before_year(y1) + 365 * (y2 - y1) <= days_before_year(y2),
        days_before_year(y1) >= 0,
    decreases y2 - y1,
{
    if y1 < y2 {
        lemma_days_before_year_grows(y1, y2 - 1);
    } else {
        lemma_days_before_year_nonneg(y1);
    }
}

proof fn lemma_days_before_year_nonneg(y: int)
    ensures
        days_before_year(y) >= 0,
    decreases y - 1970,
{
    if y > 1970 {
        lemma_days_before_year_nonneg(y - 1);
    }
}

/// A valid date falls inside its own year and its own month.
proof fn lemma_date_bounds(d: (int, int, int))
    requires
        valid_date(d),
    ensures
        days_before_year(d.0) <= days_since_epoch(d) < days_before_year(d.0 + 1),
        days_before_month(d.0, d.1) <= days_since_epoch(d) - days_before_year(d.0)
            < days_before_month(d.0, d.1 + 1),
{
    lemma_days_before_month_mono(d.0, d.1 + 1, 13);
    lemma_months_fill_year(d.0);
    lemma_days_before_month_nonneg(d.0, d.1);
}

/// No two dates share a day count: the calendar numbers its days one by one.
pub proof fn law_date_unique(d1: (int, int, int), d2: (int, int, int))
    requires
        valid_date(d1),
        valid_date(d2),
        days_since_epoch(d1) == days_since_epoch(d2),
    ensures
        d1 == d2,
{
    lemma_date_bounds(d1);
    lemma_date_bounds(d2);
    if d1.0 < d2.0 {
        lemma_days_before_year_grows(d1.0 + 1, d2.0);
        assert(false);
    }
    if d2.0 < d1.0 {
        lemma_days_before_year_grows(d2.0 + 1, d1.0);
        assert(false);
    }
    if d1.1 < d2.1 {
        lemma_days_before_month_mono(d1.0, d1.1 + 1, d2.1);
        assert(false);
    }
    if d2.1 < d1.1 {
        lemma_days_before_month_mono(d1.0, d2.1 + 1, d1.1);
        assert(false);
    }
}

/// Every day from 1970-01-01 on has a date.
pub proof fn lemma_date_exists(days: int)
    requires
        days >= 0,
    ensures
        valid_date(date_of(days)),
        days_since_epoch(date_of(days)) == days,
    decreases days,
{
    if days == 0 {
        let d = (1970int, 1int, 1int);
        assert(valid_date(d) && days_since_epoch(d) == 0);
    } else {
        lemma_date_exists(days - 1);
        let p = date_of(days - 1);
        let d = if p.2 < month_days(p.0, p.1) {
            (p.0, p.1, p.2 + 1)
        } else if p.1 < 12 {
            (p.0, p.1 + 1, 1)
        } else {
            (p.0 + 1, 1, 1)
        };
        if p.2 >= month_days(p.0, p.1) && p.1 == 12 {
            lemma_months_fill_year(p.0);
            assert(days_before_month(p.0, 13) == days_before_month(p.0, 12) + month_days(p.0, 12));
        }
        assert(valid_date(d) && days_since_epoch(d) == days);
    }
}

/// The number of days of month `m` in year `y`, as the calendar has it.
fn days_in_month(y: u64, m: u64) -> (r: u64)
    ensures
        r == month_days(y as int, m as int),
{
    if m == 1 || m == 3 || m == 5 || m == 7 || m == 8 || m == 10 || m == 12 {
        31
    } else if m == 4 || m == 6 || m == 9 || m == 11 {
        30
    } else if m == 2 {
        if y % 4 == 0 && (y % 100 != 0 || y % 400 == 0) {
            29
        } else {
            28
        }
    } else {
        0
    }
}

/// The date `(year, month, day)` that lies `days` days after 1970-01-01.
pub fn unix_days_to_date(days: u64) -> (r: (u64, u64, u64))
    ensures
        valid_date((r.0 as int, r.1 as int, r.2 as int)),
        days_since_epoch((r.0 as int, r.1 as int, r.2 as int)) == days,
        (r.0 as int, r.1 as int, r.2 as int) == date_of(days as int),
{
    let mut left = days;
    let mut year: u64 = 1970;
    let mut month: u64 = 1;
    let mut day: u64 = 1;
    proof {
        lemma_days_before_year_grows(1970, 1970);
    }
    while left > 0
        invariant
            year >= 1970,
            1 <= month <= 12,
            day == 1 || left == 0,
            1 <= day <= month_days(year as int, month as int),
            days_before_year(year as int) + days_before_month(year as int, month as int) + day - 1
                + left == days,
        decreases left,
    {
        let dim = days_in_month(year, month);
        proof {
            lemma_days_before_year_grows(1970, year as int);
            lemma_days_before_month_nonneg(year as int, month as int);
        }
        if left >= dim {
            left = left - dim;
            month = month + 1;
            if month > 12 {
                proof {
                    lemma_months_fill_year(year as int);
                    assert(365 * (year - 1970) <= days);
                }
                month = 1;
                year = year + 1;
            }
            proof {
                if month == 1 {
                    assert(month_days(year as int, 1) == 31);
                }
            }
        } else {
            day = day + left;
            left = 0;
        }
    }
    proof {
        let d = (year as int, month as int, day as int);
        assert(valid_date(d) && days_since_epoch(d) == days);
        let c = date_of(days as int);
        law_date_unique(c, d);
    }
    (year, month, day)
}

} // verus!
