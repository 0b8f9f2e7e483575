//! Civil-calendar arithmetic for timestamps: turning seconds since the Unix
//! epoch into a Gregorian date and a time of day, in verified integer
//! arithmetic.

use vstd::prelude::*;

verus! {

/// Whether `y` is a Gregorian leap year.
pub open spec fn is_leap(y: nat) -> bool {
    (y % 4 == 0 && y % 100 != 0) || y % 400 == 0
}

/// Days in year `y`.
pub open spec fn days_in_year(y: nat) -> nat {
    if is_leap(y) {
        366
    } else {
        365
    }
}

/// Days in month `m` (1-based) of year `y`.
pub open spec fn days_in_month(y: nat, m: nat) -> nat {
    if m == 2 {
        if is_leap(y) {
            29
        } else {
            28
        }
    } else if m == 4 || m == 6 || m == 9 || m == 11 {
        30
    } else {
        31
    }
}

/// The year reached, and the days left within it, after advancing `days`
/// whole days from the first day of year `y`.
pub open spec fn year_and_rem(y: nat, days: nat) -> (nat, nat)
    decreases days,
{
    if days < days_in_year(y) {
        (y, days)
    } else {
        year_and_rem(y + 1, (days - days_in_year(y)) as nat)
    }
}

/// The month reached, and the days left within it, after advancing `days`
/// whole days from the first day of month `m` of year `y`.
pub open spec fn month_and_rem(y: nat, m: nat, days: nat) -> (nat, nat)
    decreases days,
{
    if days < days_in_month(y, m) {
        (m, days)
    } else {
        month_and_rem(y, m + 1, (days - days_in_month(y, m)) as nat)
    }
}

/// The calendar date `days` whole days after 1970-01-01, as (year, month,
/// day), months and days 1-based.
pub open spec fn date_of_days(days: nat) -> (nat, nat, nat) {
    let (y, yrem) = year_and_rem(1970, days);
    let (m, mrem) = month_and_rem(y, 1, yrem);
    (y, m, mrem + 1)
}

/// Days from the first day of month 1 to the first day of month `m` of
/// year `y`.
pub open spec fn days_before_month(y: nat, m: nat) -> nat
    decreases m,
{
    if m <= 1 {
        0
    } else {
        days_before_month(y, (m - 1) as nat) + days_in_month(y, (m - 1) as nat)
    }
}

/// A date the calendar contains, at 1970 or later.
pub open spec fn valid_date(y: nat, m: nat, d: nat) -> bool {
    y >= 1970 && 1 <= m <= 12 && 1 <= d <= days_in_month(y, m)
}

/// Days from 1970-01-01 to the first day of year `y`.
pub open spec fn days_before_year(y: nat) -> nat
    decreases y,
{
    if y <= 1970 {
        0
    } else {
        days_before_year((y - 1) as nat) + days_in_year((y - 1) as nat)
    }
}

/// The day number of a calendar date: whole days since 1970-01-01.
pub open spec fn days_from_civil(y: nat, m: nat, d: nat) -> nat {
    days_before_year(y) + days_before_month(y, m) + ((d - 1) as nat)
}

proof fn lemma_year_and_rem_inverse(y: nat, days: nat)
    requires
        y >= 1970,
    ensures
        ({
            let (ry, rem) = year_and_rem(y, days);
            &&& rem <= days
            &&& ry >= y
            &&& rem < days_in_year(ry)
            &&& days_before_year(ry) == days_before_year(y) + (days - rem)
        }),
    decreases days,
{
    if days >= days_in_year(y) {
        lemma_year_and_rem_inverse(y + 1, (days - days_in_year(y)) as nat);
    }
}

proof fn lemma_month_and_rem_inverse(y: nat, m: nat, days: nat)
    requires
        m >= 1,
    ensures
        ({
            let (rm, rem) = month_and_rem(y, m, days);
            &&& rem <= days
            &&& rm >= m
            &&& rem < days_in_month(y, rm)
            &&& days_before_month(y, rm) == days_before_month(y, m) + (days - rem)
        }),
    decreases days,
{
    if days >= days_in_month(y, m) {
        lemma_month_and_rem_inverse(y, m + 1, (days - days_in_month(y, m)) as nat);
    }
}

/// Law: the calendar lookup inverts the day count.  The date reached `days`
/// days after 1970-01-01 lies that many days after 1970-01-01 again when the
/// years and months before it are added back up.
pub proof fn lemma_date_of_days_inverse(days: nat)
    ensures
        ({
            let (y, m, d) = date_of_days(days);
            days_from_civil(y, m, d) == days
        }),
{
    lemma_year_and_rem_inverse(1970, days);
    let (ry, yrem) = year_and_rem(1970, days);
    lemma_month_and_rem_inverse(ry, 1, yrem);
}

/// The months of a year hold exactly its days.
proof fn lemma_year_months(y: nat)
    ensures
        days_before_month(y, 13) == days_in_year(y),
{
    reveal_with_fuel(days_before_month, 14);
}

/// Whether `y` is a leap year.
pub fn is_leap_exec(y: u64) -> (r: bool)
    ensures
        r == is_leap(y as nat),
{
    (y % 4 == 0 && y % 100 != 0) || y % 400 == 0
}

/// Days in year `y`.
pub fn days_in_year_exec(y: u64) -> (r: u64)
    ensures
        r == days_in_year(y as nat),
{
    if is_leap_exec(y) {
        366
    } else {
        365
    }
}

/// Days in month `m` of year `y`.
pub fn days_in_month_exec(y: u64, m: u64) -> (r: u64)
    ensures
        r == days_in_month(y as nat, m as nat),
{
    if m == 2 {
        if is_leap_exec(y) {
            29
        } else {
            28
        }
    } else if m == 4 || m == 6 || m == 9 || m == 11 {
        30
    } else {
        31
    }
}

/// The calendar date `days` whole days after 1970-01-01: exactly
/// [`date_of_days`], and always a valid date.
pub fn civil_from_days(days: u64) -> (r: (u64, u64, u64))
    ensures
        (r.0 as nat, r.1 as nat, r.2 as nat) == date_of_days(days as nat),
        valid_date(r.0 as nat, r.1 as nat, r.2 as nat),
{
    let mut y: u64 = 1970;
    let mut rem: u64 = days;
    while rem >= days_in_year_exec(y)
        invariant
            1970 <= y,
            (y as int - 1970) * 365 + rem as int <= days as int,
            rem <= days,
            year_and_rem(1970, days as nat) == year_and_rem(y as nat, rem as nat),
        decreases rem,
    {
        proof {
            assert(y < u64::MAX) by {
                if y as int - 1970 >= 0x100000000000000 {
                    assert((y as int - 1970) * 365 >= 0x100000000000000 * 365);
                }
            }
            assert((y + 1 as int - 1970) * 365 == (y as int - 1970) * 365 + 365);
        }
        rem = rem - days_in_year_exec(y);
        y = y + 1;
    }
    assert(year_and_rem(y as nat, rem as nat) == (y as nat, rem as nat));
    let ghost yrem = rem as nat;
    let mut m: u64 = 1;
    while rem >= days_in_month_exec(y, m)
        invariant
            1 <= m <= 12,
            rem <= yrem,
            yrem < days_in_year(y as nat),
            days_before_month(y as nat, m as nat) + rem == yrem,
            month_and_rem(y as nat, 1, yrem) == month_and_rem(y as nat, m as nat, rem as nat),
        decreases rem,
    {
        proof {
            if m == 12 {
                lemma_year_months(y as nat);
                assert(days_before_month(y as nat, 13) == days_before_month(y as nat, 12)
                    + days_in_month(y as nat, 12));
                assert(false);
            }
        }
        rem = rem - days_in_month_exec(y, m);
        m = m + 1;
    }
    assert(month_and_rem(y as nat, m as nat, rem as nat) == (m as nat, rem as nat));
    (y, m, rem + 1)
}

} // verus!
