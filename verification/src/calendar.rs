//! The date and the time of a moment that is given in seconds since the epoch.

use vstd::prelude::*;
use crate::numtext::{decimal, decimal_text, padded, padded_text};

verus! {

/// The year has a day more than others.
pub open spec fn is_leap(y: int) -> bool {
    y % 4 == 0 && (y % 100 != 0 || y % 400 == 0)
}

pub open spec fn year_length(y: int) -> int {
    if is_leap(y) {
        366
    } else {
        365
    }
}

/// The days of a month.
pub open spec fn month_length(y: int, m: int) -> int {
    if m == 2 {
        if is_leap(y) {
            29
        } else {
            28
        }
    } else if m == 4 || m == 6 || m == 9 || m == 11 {
        30
    } else {
        31
    }
}

/// The days from the first of January of the year 1 to that of the year `y`.
pub open spec fn days_before_year(y: int) -> int
    decreases y,
{
    if y <= 1 {
        0
    } else {
        days_before_year(y - 1) + year_length(y - 1)
    }
}

/// The days of a year before its month `m`.
pub open spec fn days_before_month(y: int, m: int) -> int
    decreases m,
{
    if m <= 1 {
        0
    } else {
        days_before_month(y, m - 1) + month_length(y, m - 1)
    }
}

/// A day of the calendar.
#[derive(Clone, Copy, Debug, PartialEq, Eq, Structural)]
pub struct Date {
    pub year: u64,
    pub month: u64,
    pub day: u64,
}

impl Date {
    /// There is such a day.
    pub open spec fn wf(self) -> bool {
        &&& 1 <= self.year
        &&& 1 <= self.month <= 12
        &&& 1 <= self.day <= month_length(self.year as int, self.month as int)
    }

    /// How many days are before it, from the first of January of the year 1 on.
    pub open spec fn day_number(self) -> int {
        days_before_year(self.year as int) + days_before_month(
            self.year as int,
            self.month as int,
        ) + self.day - 1
    }
}

/// The days from the first of January of the year 1 to the epoch.
pub const EPOCH_DAYS: u64 = 719_162;

/// The date is that of the day, counted from the epoch.
pub open spec fn is_date_of(d: Date, days: nat) -> bool {
    d.wf() && d.day_number() == days + EPOCH_DAYS
}

/// How many leap years are before a year.
spec fn leaps_before(y: int) -> int {
    (y - 1) / 4 - (y - 1) / 100 + (y - 1) / 400
}

proof fn lemma_year(y: int)
    requires
        y >= 1,
    ensures
        days_before_year(y) == 365 * (y - 1) + leaps_before(y),
    decreases y,
{
    if y > 1 {
        lemma_year(y - 1);
    }
}

proof fn lemma_months(y: int)
    ensures
        days_before_month(y, 1) == 0,
        days_before_month(y, 2) == 31,
        days_before_month(y, 3) == 31 + month_length(y, 2),
        days_before_month(y, 4) == 62 + month_length(y, 2),
        days_before_month(y, 5) == 92 + month_length(y, 2),
        days_before_month(y, 6) == 123 + month_length(y, 2),
        days_before_month(y, 7) == 153 + month_length(y, 2),
        days_before_month(y, 8) == 184 + month_length(y, 2),
        days_before_month(y, 9) == 215 + month_length(y, 2),
        days_before_month(y, 10) == 245 + month_length(y, 2),
        days_before_month(y, 11) == 276 + month_length(y, 2),
        days_before_month(y, 12) == 306 + month_length(y, 2),
        days_before_month(y, 13) == year_length(y),
{
    reveal_with_fuel(days_before_month, 14);
}

proof fn lemma_years_grow(a: int, b: int)
    requires
        1 <= a < b,
    ensures
        days_before_year(a) + year_length(a) <= days_before_year(b),
    decreases b,
{
    if a < b - 1 {
        lemma_years_grow(a, b - 1);
    }
}

proof fn lemma_months_grow(y: int, a: int, b: int)
    requires
        1 <= a < b,
    ensures
        days_before_month(y, a) + month_length(y, a) <= days_before_month(y, b),
    decreases b,
{
    if a < b - 1 {
        lemma_months_grow(y, a, b - 1);
    }
}

/// Law: no two dates are the same day.
pub proof fn law_dates_are_apart(a: Date, b: Date)
    requires
        a.wf(),
        b.wf(),
        a.day_number() == b.day_number(),
    ensures
        a == b,
{
    let (ya, yb) = (a.year as int, b.year as int);
    let (ma, mb) = (a.month as int, b.month as int);
    lemma_in_year(a);
    lemma_in_year(b);
    if ya < yb {
        lemma_years_grow(ya, yb);
    } else if yb < ya {
        lemma_years_grow(yb, ya);
    } else if ma < mb {
        lemma_months_grow(ya, ma, mb);
    } else if mb < ma {
        lemma_months_grow(ya, mb, ma);
    }
}

proof fn lemma_in_year(a: Date)
    requires
        a.wf(),
    ensures
        0 <= days_before_month(a.year as int, a.month as int) + a.day - 1 < year_length(
            a.year as int,
        ),
{
    let y = a.year as int;
    lemma_months(y);
    lemma_months_grow(y, a.month as int, 13);
    if a.month > 1 {
        lemma_months_grow(y, 1, a.month as int);
    }
}

/// The date of a day, counted from the epoch.
pub open spec fn date_of(days: nat) -> Date {
    choose|d: Date| is_date_of(d, days)
}

fn length_of(leap: bool, m: u64) -> (n: u64)
    requires
        1 <= m <= 12,
    ensures
        forall|y: int| is_leap(y) == leap ==> n == #[trigger] month_length(y, m as int),
{
    if m == 2 {
        if leap {
            29
        } else {
            28
        }
    } else if m == 4 || m == 6 || m == 9 || m == 11 {
        30
    } else {
        31
    }
}

/// Finds the date of a day, counted from the epoch.
pub fn civil_date(days: u64) -> (d: Date)
    requires
        days <= u64::MAX - EPOCH_DAYS,
    ensures
        is_date_of(d, days as nat),
        d == date_of(days as nat),
{
    let n: u64 = days + EPOCH_DAYS;
    let cycles: u64 = n / 146_097;
    let r1: u64 = n % 146_097;
    let c: u64 = if r1 / 36_524 < 3 {
        r1 / 36_524
    } else {
        3
    };
    let r2: u64 = r1 - c * 36_524;
    let q: u64 = r2 / 1461;
    let r3: u64 = r2 % 1461;
    let a: u64 = if r3 / 365 < 3 {
        r3 / 365
    } else {
        3
    };
    let r4: u64 = r3 - a * 365;
    let year: u64 = 400 * cycles + 100 * c + 4 * q + a + 1;
    let leap = a == 3 && (q != 24 || c == 3);
    let ghost y = year as int;
    proof {
        lemma_year(y);
        assert(q <= 24);
        assert(leaps_before(y) == 97 * cycles + 24 * c + q) by {
            let b = y - 1;
            assert(b == 400 * cycles + 100 * c + 4 * q + a);
            assert(b / 4 == 100 * cycles + 25 * c + q);
            assert(b / 100 == 4 * cycles + c);
            assert(b / 400 == cycles);
        }
        assert(days_before_year(y) + r4 == n);
        assert(is_leap(y) == leap) by {
            assert(y % 4 == 0 <==> a == 3);
            if a == 3 {
                assert(y == 400 * cycles + 100 * c + 4 * (q + 1));
                assert(y % 100 == 0 <==> q == 24);
                if q == 24 {
                    assert(y % 400 == 0 <==> c == 3);
                }
            }
        }
        assert(r4 < year_length(y));
        lemma_months(y);
    }
    let mut month: u64 = 1;
    let mut left: u64 = r4;
    while month < 12 && left >= length_of(leap, month)
        invariant
            1 <= month <= 12,
            is_leap(y) == leap,
            days_before_month(y, month as int) + left == r4,
        decreases 12 - month,
    {
        let len: u64 = length_of(leap, month);
        assert(len == month_length(y, month as int));
        left = left - len;
        month = month + 1;
    }
    proof {
        if month == 12 {
            assert(left < 31);
        }
        assert(month_length(y, month as int) > left);
    }
    let d = Date { year, month, day: left + 1 };
    proof {
        assert(is_date_of(d, days as nat));
        let other = date_of(days as nat);
        assert(is_date_of(other, days as nat));
        law_dates_are_apart(d, other);
    }
    d
}

/// The time of day, as it is written in front of a line.
pub open spec fn wall_time(secs: nat) -> Seq<char> {
    padded((secs / 3600) % 24, 2) + ":"@ + padded((secs / 60) % 60, 2) + ":"@ + padded(
        secs % 60,
        2,
    )
}

/// A year in four digits, or more where it needs them.
pub open spec fn year_text(y: nat) -> Seq<char> {
    if y < 10_000 {
        padded(y, 4)
    } else {
        decimal(y)
    }
}

/// The date and the time, as they stand in a file's name.
pub open spec fn time_slug(secs: nat) -> Seq<char> {
    let d = date_of(secs / 86_400);
    year_text(d.year as nat) + padded(d.month as nat, 2) + padded(d.day as nat, 2) + "_"@ + padded(
        (secs / 3600) % 24,
        2,
    ) + padded((secs / 60) % 60, 2) + padded(secs % 60, 2)
}

/// Writes the time of day.
pub fn format_wall_time(secs: u64) -> (out: String)
    ensures
        out@ == wall_time(secs as nat),
{
    let mut out = padded_text(((secs / 3600) % 24) as u128, 2);
    out.append(":");
    out.append(padded_text(((secs / 60) % 60) as u128, 2).as_str());
    out.append(":");
    out.append(padded_text((secs % 60) as u128, 2).as_str());
    out
}

/// Writes the date and the time for a file's name.
pub fn format_ts_slug(secs: u64) -> (out: String)
    ensures
        out@ == time_slug(secs as nat),
{
    let d = civil_date(secs / 86_400);
    let mut out = if d.year < 10_000 {
        padded_text(d.year as u128, 4)
    } else {
        decimal_text(d.year as u128)
    };
    out.append(padded_text(d.month as u128, 2).as_str());
    out.append(padded_text(d.day as u128, 2).as_str());
    out.append("_");
    out.append(padded_text(((secs / 3600) % 24) as u128, 2).as_str());
    out.append(padded_text(((secs / 60) % 60) as u128, 2).as_str());
    out.append(padded_text((secs % 60) as u128, 2).as_str());
    out
}

} // verus!
