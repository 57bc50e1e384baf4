//! The proleptic Gregorian calendar.
use vstd::prelude::*;

verus! {

pub open spec fn leap_year(y: int) -> bool {
    y % 4 == 0 && (y % 100 != 0 || y % 400 == 0)
}

pub open spec fn days_in_month(y: int, m: int) -> int {
    if m == 2 {
        if leap_year(y) {
            29
        } else {
            28
        }
    } else if m == 4 || m == 6 || m == 9 || m == 11 {
        30
    } else {
        31
    }
}

/// The days of a year before one of its months.
pub open spec fn days_before_month(y: int, m: int) -> int
    decreases m,
{
    if m <= 1 {
        0
    } else {
        days_before_month(y, m - 1) + days_in_month(y, m - 1)
    }
}

/// The days from the first of the year 1 to the first of a year.
pub open spec fn days_before_year(y: int) -> int {
    365 * (y - 1) + (y - 1) / 4 - (y - 1) / 100 + (y - 1) / 400
}

/// A date's day, counted from 1970-01-01.
pub open spec fn day_number(c: (int, int, int)) -> int {
    days_before_year(c.0) + days_before_month(c.0, c.1) + c.2 - 1 - days_before_year(1970)
}

/// Whether year, month and day of the month make a date.
pub open spec fn is_date(c: (int, int, int)) -> bool {
    1 <= c.1 <= 12 && 1 <= c.2 <= days_in_month(c.0, c.1)
}

/// Year, month and day of the month of a day counted from 1970-01-01.
pub open spec fn civil(day: int) -> (int, int, int) {
    choose|c: (int, int, int)| is_date(c) && #[trigger] day_number(c) == day
}

pub proof fn lemma_next_year(y: int)
    ensures
        days_before_year(y + 1) == days_before_year(y) + 365 + if leap_year(y) {
            1int
        } else {
            0int
        },
{
}

proof fn lemma_later_year(a: int, b: int)
    requires
        a < b,
    ensures
        days_before_year(a + 1) <= days_before_year(b),
    decreases b - a,
{
    if a + 1 < b {
        lemma_later_year(a, b - 1);
        lemma_next_year(b - 1);
    }
}

pub proof fn lemma_whole_year(y: int)
    ensures
        days_before_month(y, 13) == 365 + if leap_year(y) {
            1int
        } else {
            0int
        },
{
    reveal_with_fuel(days_before_month, 14);
}

proof fn lemma_later_month(y: int, a: int, b: int)
    requires
        1 <= a < b,
    ensures
        days_before_month(y, a + 1) <= days_before_month(y, b),
    decreases b - a,
{
    if a + 1 < b {
        lemma_later_month(y, a, b - 1);
    }
}

/// A date lies within its year.
proof fn lemma_within_year(c: (int, int, int))
    requires
        is_date(c),
    ensures
        0 <= days_before_month(c.0, c.1) + c.2 - 1 < days_before_year(c.0 + 1) - days_before_year(
            c.0,
        ),
{
    lemma_next_year(c.0);
    lemma_whole_year(c.0);
    if c.1 > 1 {
        lemma_later_month(c.0, 1, c.1);
        assert(days_before_month(c.0, 2) == days_before_month(c.0, 1) + 31);
    }
    if c.1 < 12 {
        lemma_later_month(c.0, c.1, 13);
    }
}

/// A day has one date: two dates with the same day are the same.
pub proof fn dates_of_a_day_are_one(a: (int, int, int), b: (int, int, int))
    requires
        is_date(a),
        is_date(b),
        day_number(a) == day_number(b),
    ensures
        a == b,
{
    lemma_within_year(a);
    lemma_within_year(b);
    if a.0 < b.0 {
        lemma_later_year(a.0, b.0);
    } else if b.0 < a.0 {
        lemma_later_year(b.0, a.0);
    }
    if a.1 < b.1 {
        lemma_later_month(a.0, a.1, b.1);
    } else if b.1 < a.1 {
        lemma_later_month(a.0, b.1, a.1);
    }
}

/// The date that a day's number belongs to.
pub proof fn lemma_civil(c: (int, int, int))
    requires
        is_date(c),
    ensures
        civil(day_number(c)) == c,
{
    dates_of_a_day_are_one(civil(day_number(c)), c);
}

/// The date after a date.
pub open spec fn next_date(c: (int, int, int)) -> (int, int, int) {
    if c.2 < days_in_month(c.0, c.1) {
        (c.0, c.1, c.2 + 1)
    } else if c.1 < 12 {
        (c.0, c.1 + 1, 1)
    } else {
        (c.0 + 1, 1, 1)
    }
}

/// The date after a date is that of the next day.
pub proof fn the_next_date_is_a_day_later(c: (int, int, int))
    requires
        is_date(c),
    ensures
        is_date(next_date(c)),
        day_number(next_date(c)) == day_number(c) + 1,
{
    lemma_next_year(c.0);
    lemma_whole_year(c.0);
    assert(days_before_month(c.0, c.1 + 1) == days_before_month(c.0, c.1) + days_in_month(
        c.0,
        c.1,
    ));
    assert(days_before_month(c.0 + 1, 1) == 0);
}

proof fn lemma_date_before(c: (int, int, int)) -> (b: (int, int, int))
    requires
        is_date(c),
    ensures
        is_date(b),
        day_number(b) == day_number(c) - 1,
{
    lemma_next_year(c.0 - 1);
    lemma_whole_year(c.0 - 1);
    if c.2 > 1 {
        (c.0, c.1, c.2 - 1)
    } else if c.1 > 1 {
        assert(days_before_month(c.0, c.1) == days_before_month(c.0, c.1 - 1) + days_in_month(
            c.0,
            c.1 - 1,
        ));
        (c.0, c.1 - 1, days_in_month(c.0, c.1 - 1))
    } else {
        assert(days_before_month(c.0 - 1, 13) == days_before_month(c.0 - 1, 12) + days_in_month(
            c.0 - 1,
            12,
        ));
        assert(days_before_month(c.0, 1) == 0);
        (c.0 - 1, 12, 31)
    }
}

proof fn lemma_date_of(day: int) -> (c: (int, int, int))
    ensures
        is_date(c),
        day_number(c) == day,
    decreases if day < 0 {
        -day
    } else {
        day
    },
{
    if day == 0 {
        assert(days_before_month(1970, 1) == 0);
        (1970, 1, 1)
    } else if day > 0 {
        let c = lemma_date_of(day - 1);
        the_next_date_is_a_day_later(c);
        next_date(c)
    } else {
        let c = lemma_date_of(day + 1);
        lemma_date_before(c)
    }
}

/// Every day has a date, and the date's day is that day.
pub proof fn every_day_has_a_date(day: int)
    ensures
        is_date(civil(day)),
        day_number(civil(day)) == day,
{
    let c = lemma_date_of(day);
    assert(is_date(c) && day_number(c) == day);
}

} // verus!
