//! The proleptic Gregorian calendar, as far as this library needs it.
//!
//! Day numbers count from 1970-01-01, which is day 0. Converting between a
//! calendar date and its day number is left to chrono; the contracts of the two
//! wrappers below state the conversion in terms of the spec functions here.
use chrono::Datelike;
use vstd::prelude::*;

verus! {

pub open spec fn is_leap_year(y: int) -> bool {
    (y % 4 == 0 && y % 100 != 0) || y % 400 == 0
}

pub open spec fn days_in_month(y: int, m: int) -> int {
    if m == 2 {
        if is_leap_year(y) {
            29
        } else {
            28
        }
    } else if m == 4 || m == 6 || m == 9 || m == 11 {
        30
    } else {
        31
    }
}

/// Whether `y-m-d` names a day of the calendar.
pub open spec fn valid_date(y: int, m: int, d: int) -> bool {
    1 <= m <= 12 && 1 <= d <= days_in_month(y, m)
}

/// Days of year `y` that come before the first of month `m`.
pub open spec fn days_before_month(y: int, m: int) -> int {
    let base: int = if m <= 1 {
        0
    } else if m == 2 {
        31
    } else if m == 3 {
        59
    } else if m == 4 {
        90
    } else if m == 5 {
        120
    } else if m == 6 {
        151
    } else if m == 7 {
        181
    } else if m == 8 {
        212
    } else if m == 9 {
        243
    } else if m == 10 {
        273
    } else if m == 11 {
        304
    } else {
        334
    };
    if m > 2 && is_leap_year(y) {
        base + 1
    } else {
        base
    }
}

/// Days from 0001-01-01 to the first of January of year `y`.
pub open spec fn days_before_year(y: int) -> int {
    let p = y - 1;
    365 * p + p / 4 - p / 100 + p / 400
}

/// Number of 1970-01-01 in the count of `days_before_year`.
pub const UNIX_EPOCH_FROM_CE: i64 = 719162;

/// The day number of `y-m-d`, 1970-01-01 being day 0.
pub open spec fn epoch_days(y: int, m: int, d: int) -> int {
    days_before_year(y) + days_before_month(y, m) + d - 1 - UNIX_EPOCH_FROM_CE
}

/// `c` is a date, and its day number is `n`.
pub open spec fn is_date_of(c: (int, int, int), n: int) -> bool {
    valid_date(c.0, c.1, c.2) && epoch_days(c.0, c.1, c.2) == n
}

/// The date whose day number is `n`.
pub open spec fn date_of_day(n: int) -> (int, int, int) {
    choose|c: (int, int, int)| is_date_of(c, n)
}

/// Largest distance from day 0, in days, of a day that this library handles.
pub const MAX_DAYS: i32 = 5_000_000;

/// Relies on chrono's `NaiveDate::from_ymd_opt`, which gives a date exactly when
/// `y-m-d` exists in the proleptic Gregorian calendar (for years well inside its
/// range), and `NaiveDate::to_epoch_days`, which counts days from 1970-01-01.
#[verifier::external_body]
pub(crate) fn date_to_days(y: i32, m: u32, d: u32) -> (r: Option<i32>)
    requires
        -9999 <= y <= 9999,
    ensures
        r == (if valid_date(y as int, m as int, d as int) {
            Some(epoch_days(y as int, m as int, d as int) as i32)
        } else {
            None::<i32>
        }),
{
    match chrono::NaiveDate::from_ymd_opt(y, m, d) {
        Some(x) => Some(x.to_epoch_days()),
        None => None,
    }
}

/// Relies on chrono's `NaiveDate::from_epoch_days`, which gives the date of a day
/// number counted from 1970-01-01 (its range reaches past year 262000 either way),
/// and on `Datelike::{year, month, day}` to read the date's fields.
#[verifier::external_body]
pub(crate) fn days_to_date(n: i32) -> (r: (i32, u32, u32))
    requires
        -MAX_DAYS <= n <= MAX_DAYS,
    ensures
        valid_date(r.0 as int, r.1 as int, r.2 as int),
        epoch_days(r.0 as int, r.1 as int, r.2 as int) == n,
        (r.0 as int, r.1 as int, r.2 as int) == date_of_day(n as int),
{
    let x = chrono::NaiveDate::from_epoch_days(n).unwrap_or_default();
    (x.year(), x.month(), x.day())
}

/// A day within `MAX_DAYS` of day 0 lies in a year of at most five digits.
pub proof fn lemma_year_bound(y: int, m: int, d: int)
    requires
        valid_date(y, m, d),
        -MAX_DAYS <= epoch_days(y, m, d) <= MAX_DAYS,
    ensures
        -20000 <= y <= 20000,
{
}

proof fn lemma_year_length(y: int)
    ensures
        days_before_year(y + 1) == days_before_year(y) + if is_leap_year(y) {
            366int
        } else {
            365
        },
{
    assert(y / 4 - (y - 1) / 4 == if y % 4 == 0 {
        1int
    } else {
        0
    });
    assert(y / 100 - (y - 1) / 100 == if y % 100 == 0 {
        1int
    } else {
        0
    });
    assert(y / 400 - (y - 1) / 400 == if y % 400 == 0 {
        1int
    } else {
        0
    });
}

proof fn lemma_next_date(y: int, m: int, d: int)
    requires
        valid_date(y, m, d),
    ensures
        ({
            let c = if d < days_in_month(y, m) {
                (y, m, d + 1)
            } else if m < 12 {
                (y, m + 1, 1)
            } else {
                (y + 1, 1, 1)
            };
            valid_date(c.0, c.1, c.2) && epoch_days(c.0, c.1, c.2) == epoch_days(y, m, d) + 1
        }),
{
    lemma_year_length(y);
}

proof fn lemma_prev_date(y: int, m: int, d: int)
    requires
        valid_date(y, m, d),
    ensures
        ({
            let c = if d > 1 {
                (y, m, d - 1)
            } else if m > 1 {
                (y, m - 1, days_in_month(y, m - 1))
            } else {
                (y - 1, 12, 31)
            };
            valid_date(c.0, c.1, c.2) && epoch_days(c.0, c.1, c.2) + 1 == epoch_days(y, m, d)
        }),
{
    lemma_year_length(y - 1);
}

/// Every day number is the number of a date, so `date_of_day` names one.
pub proof fn lemma_date_of_day(n: int)
    ensures
        ({
            let c = date_of_day(n);
            valid_date(c.0, c.1, c.2) && epoch_days(c.0, c.1, c.2) == n
        }),
    decreases
            if n >= 0 {
                n
            } else {
                -n
            },
{
    if n == 0 {
        assert(is_date_of((1970, 1, 1), 0));
    } else if n > 0 {
        lemma_date_of_day(n - 1);
        let c = date_of_day(n - 1);
        lemma_next_date(c.0, c.1, c.2);
        let e = if c.2 < days_in_month(c.0, c.1) {
            (c.0, c.1, c.2 + 1)
        } else if c.1 < 12 {
            (c.0, c.1 + 1, 1)
        } else {
            (c.0 + 1, 1, 1)
        };
        assert(is_date_of(e, n));
    } else {
        lemma_date_of_day(n + 1);
        let c = date_of_day(n + 1);
        lemma_prev_date(c.0, c.1, c.2);
        let e = if c.2 > 1 {
            (c.0, c.1, c.2 - 1)
        } else if c.1 > 1 {
            (c.0, c.1 - 1, days_in_month(c.0, c.1 - 1))
        } else {
            (c.0 - 1, 12, 31)
        };
        assert(is_date_of(e, n));
    }
}

} // verus!
