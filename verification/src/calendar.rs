//! Proleptic-Gregorian civil-calendar arithmetic.
//!
//! Dates are measured by their day number: the number of days between
//! 1970-01-01 and the date, negative for earlier dates.  Everything the
//! next-occurrence calculation needs — month lengths, leap years, stepping a
//! date forward, weekdays — is defined here together with the lemmas that
//! relate a date's day number to the day numbers of its successors.

use vstd::prelude::*;

verus! {

/// A year is a leap year when it is divisible by 4, except century years,
/// which are leap years only when divisible by 400.
pub open spec fn is_leap_year(y: int) -> bool {
    y % 4 == 0 && (y % 100 != 0 || y % 400 == 0)
}

/// Number of days in month `m` (1 = January) of year `y`; 0 outside 1..=12.
pub open spec fn days_in_month_of(y: int, m: int) -> int {
    if m == 2 {
        if is_leap_year(y) {
            29
        } else {
            28
        }
    } else if m == 4 || m == 6 || m == 9 || m == 11 {
        30
    } else if 1 <= m <= 12 {
        31
    } else {
        0
    }
}

pub open spec fn days_in_year_of(y: int) -> int {
    if is_leap_year(y) {
        366
    } else {
        365
    }
}

/// Days between 1970-01-01 and the first day of year `y` (negative before 1970).
pub open spec fn days_before_year(y: int) -> int
    decreases vstd::math::abs(y - 1970),
{
    if y == 1970 {
        0
    } else if y > 1970 {
        days_before_year(y - 1) + days_in_year_of(y - 1)
    } else {
        days_before_year(y + 1) - days_in_year_of(y)
    }
}

/// Days between the first day of year `y` and the first day of its month `m`.
pub open spec fn days_before_month(y: int, m: int) -> int
    decreases m,
{
    if m <= 1 {
        0
    } else {
        days_before_month(y, m - 1) + days_in_month_of(y, m - 1)
    }
}

/// Day number of the civil date y-m-d: days since 1970-01-01.
pub open spec fn day_number(y: int, m: int, d: int) -> int {
    days_before_year(y) + days_before_month(y, m) + (d - 1)
}

/// Seconds since the epoch of the civil date-time y-m-d h:mi:s, read in the
/// frame whose clock shows those fields.
pub open spec fn civil_seconds(y: int, m: int, d: int, h: int, mi: int, s: int) -> int {
    day_number(y, m, d) * 86400 + h * 3600 + mi * 60 + s
}

/// Weekday of a civil date with Sunday = 0; 1970-01-01 was a Thursday.
pub open spec fn weekday_of(y: int, m: int, d: int) -> int {
    (day_number(y, m, d) + 4) % 7
}

pub open spec fn valid_date(y: int, m: int, d: int) -> bool {
    1 <= m <= 12 && 1 <= d <= days_in_month_of(y, m)
}

/// The civil date one day after y-m-d.
pub open spec fn next_day(y: int, m: int, d: int) -> (int, int, int) {
    if d < days_in_month_of(y, m) {
        (y, m, d + 1)
    } else if m < 12 {
        (y, m + 1, 1)
    } else {
        (y + 1, 1, 1)
    }
}

/// The civil date `k` days after y-m-d (for non-negative `k`).
pub open spec fn add_days(y: int, m: int, d: int, k: int) -> (int, int, int)
    decreases k,
{
    if k <= 0 {
        (y, m, d)
    } else {
        let (y2, m2, d2) = next_day(y, m, d);
        add_days(y2, m2, d2, k - 1)
    }
}

/// The months of a year sum to its length.
pub proof fn lemma_months_sum(y: int)
    ensures
        days_before_month(y, 12) + days_in_month_of(y, 12) == days_in_year_of(y),
{
    reveal_with_fuel(days_before_month, 13);
}

/// Consecutive years chain: the first day of year `y + 1` lies exactly one
/// year's worth of days after the first day of year `y`.
pub proof fn lemma_year_chain(y: int)
    ensures
        days_before_year(y + 1) == days_before_year(y) + days_in_year_of(y),
{
    if y + 1 > 1970 {
        assert(days_before_year(y + 1) == days_before_year(y) + days_in_year_of(y));
    } else {
        assert(days_before_year(y) == days_before_year(y + 1) - days_in_year_of(y));
    }
}

/// Stepping a valid date forward by one day raises its day number by one and
/// lands on a valid date.
pub proof fn lemma_next_day_number(y: int, m: int, d: int)
    requires
        valid_date(y, m, d),
    ensures
        ({
            let (y2, m2, d2) = next_day(y, m, d);
            &&& day_number(y2, m2, d2) == day_number(y, m, d) + 1
            &&& valid_date(y2, m2, d2)
        }),
{
    if d < days_in_month_of(y, m) {
    } else if m < 12 {
        assert(days_before_month(y, m + 1) == days_before_month(y, m) + days_in_month_of(y, m));
    } else {
        lemma_months_sum(y);
        lemma_year_chain(y);
        assert(days_before_month(y + 1, 1) == 0);
    }
}

/// Walking `k` days forward raises the day number by exactly `k`.
pub proof fn lemma_add_days_number(y: int, m: int, d: int, k: int)
    requires
        valid_date(y, m, d),
        k >= 0,
    ensures
        ({
            let (y2, m2, d2) = add_days(y, m, d, k);
            &&& day_number(y2, m2, d2) == day_number(y, m, d) + k
            &&& valid_date(y2, m2, d2)
        }),
    decreases k,
{
    if k > 0 {
        lemma_next_day_number(y, m, d);
        let (y2, m2, d2) = next_day(y, m, d);
        lemma_add_days_number(y2, m2, d2, k - 1);
    }
}

/// Walking `k + 1` days forward is walking `k` days and then one more.
pub proof fn lemma_add_days_snoc(y: int, m: int, d: int, k: int)
    requires
        k >= 0,
    ensures
        ({
            let (y2, m2, d2) = add_days(y, m, d, k);
            add_days(y, m, d, k + 1) == next_day(y2, m2, d2)
        }),
    decreases k,
{
    let (y1, m1, d1) = next_day(y, m, d);
    if k > 0 {
        lemma_add_days_snoc(y1, m1, d1, k - 1);
        assert(add_days(y, m, d, k + 1) == add_days(y1, m1, d1, k));
        assert(add_days(y, m, d, k) == add_days(y1, m1, d1, k - 1));
    } else {
        assert(add_days(y, m, d, 1) == add_days(y1, m1, d1, 0));
        assert(add_days(y1, m1, d1, 0) == (y1, m1, d1));
        assert(add_days(y, m, d, 0) == (y, m, d));
    }
}

/// The same day of the following month lies one month-length later.
pub proof fn lemma_next_month_days(y: int, m: int, d: int)
    requires
        1 <= m <= 12,
    ensures
        ({
            let (y2, m2) = if m < 12 {
                (y, m + 1)
            } else {
                (y + 1, 1)
            };
            day_number(y2, m2, d) == day_number(y, m, d) + days_in_month_of(y, m)
        }),
{
    if m < 12 {
        assert(days_before_month(y, m + 1) == days_before_month(y, m) + days_in_month_of(y, m));
    } else {
        lemma_months_sum(y);
        lemma_year_chain(y);
        assert(days_before_month(y + 1, 1) == 0);
    }
}

/// Adding `k` days shifts the weekday cyclically by `k`.
pub proof fn lemma_mod7_add(a: int, w: int, k: int)
    requires
        w == (a + 4) % 7,
        k >= 0,
    ensures
        (w + k) % 7 == (a + k + 4) % 7,
{
    vstd::arithmetic::div_mod::lemma_add_mod_noop(a + 4, k, 7);
    vstd::arithmetic::div_mod::lemma_add_mod_noop(w, k, 7);
    vstd::arithmetic::div_mod::lemma_small_mod(w as nat, 7);
}

/// The cyclic distance from weekday `w` to weekday `t`, walked forward from
/// `w`, lands on `t`; so does a full week when the distance is zero.
pub proof fn lemma_weekday_target(w: int, t: int, k: int)
    requires
        0 <= w <= 6,
        0 <= t <= 6,
        ({
            let delta = (t - w + 7) % 7;
            (k == delta && delta != 0) || (delta == 0 && (k == 0 || k == 7))
        }),
    ensures
        (w + k) % 7 == t,
{
    let delta = (t - w + 7) % 7;
    vstd::arithmetic::div_mod::lemma_small_mod(t as nat, 7);
    vstd::arithmetic::div_mod::lemma_small_mod(w as nat, 7);
    vstd::arithmetic::div_mod::lemma_mod_add_multiples_vanish(t, 7);
    if delta != 0 {
        vstd::arithmetic::div_mod::lemma_add_mod_noop(w, t - w + 7, 7);
    } else {
        vstd::arithmetic::div_mod::lemma_fundamental_div_mod(t - w + 7, 7);
        assert(t == w);
        if k == 7 {
            vstd::arithmetic::div_mod::lemma_mod_add_multiples_vanish(w, 7);
        }
    }
}

/// The calendar successor of a valid date.
pub fn next_day_exec(y: i32, m: u8, d: u8) -> (r: (i32, u8, u8))
    requires
        valid_date(y as int, m as int, d as int),
        y < 400_000,
    ensures
        (r.0 as int, r.1 as int, r.2 as int) == next_day(y as int, m as int, d as int),
        valid_date(r.0 as int, r.1 as int, r.2 as int),
        day_number(r.0 as int, r.1 as int, r.2 as int) == day_number(y as int, m as int, d as int)
            + 1,
{
    proof {
        lemma_next_day_number(y as int, m as int, d as int);
    }
    let dim = match getMonthDay(y, m as i32) {
        Some(v) => v,
        None => {
            proof {
                assert(false);
            }
            31
        },
    };
    if (d as i32) < dim {
        (y, m, d + 1)
    } else if m < 12 {
        (y, m + 1, 1)
    } else {
        (y + 1, 1, 1)
    }
}

/// Checks whether `year` is a leap year.
pub fn is_leap(year: i32) -> (r: bool)
    ensures
        r == is_leap_year(year as int),
{
    let y: i64 = year as i64;
    if y >= 0 {
        (y % 4 == 0) && (y % 100 != 0 || y % 400 == 0)
    } else {
        let n: i64 = -y;
        proof {
            lemma_neg_divisible(y as int, 4);
            lemma_neg_divisible(y as int, 100);
            lemma_neg_divisible(y as int, 400);
        }
        (n % 4 == 0) && (n % 100 != 0 || n % 400 == 0)
    }
}

/// Negating a value preserves divisibility.
proof fn lemma_neg_divisible(x: int, k: int)
    requires
        k > 0,
    ensures
        ((-x) % k == 0) == (x % k == 0),
{
    vstd::arithmetic::div_mod::lemma_mod_multiples_basic(-(x / k) - 1, k);
    vstd::arithmetic::div_mod::lemma_mod_multiples_basic(-(x / k), k);
    vstd::arithmetic::div_mod::lemma_fundamental_div_mod(x, k);
    if x % k == 0 {
        assert(-x == (-(x / k)) * k) by (nonlinear_arith)
            requires
                x == k * (x / k),
        ;
    } else {
        if (-x) % k == 0 {
            let q = (-x) / k;
            vstd::arithmetic::div_mod::lemma_fundamental_div_mod(-x, k);
            assert(x == (-q) * k) by (nonlinear_arith)
                requires
                    -x == k * q + 0,
            ;
            vstd::arithmetic::div_mod::lemma_mod_multiples_basic(-q, k);
        }
    }
}

/// Number of days in the given month, leap-year aware; `None` when `month`
/// does not name a month.
#[allow(non_snake_case)]
pub fn getMonthDay(year: i32, month: i32) -> (r: Option<i32>)
    ensures
        1 <= month <= 12 ==> r == Some(days_in_month_of(year as int, month as int) as i32),
        !(1 <= month <= 12) ==> r is None,
{
    if month == 2 {
        if is_leap(year) {
            Some(29)
        } else {
            Some(28)
        }
    } else if month == 4 || month == 6 || month == 9 || month == 11 {
        Some(30)
    } else if 1 <= month && month <= 12 {
        Some(31)
    } else {
        None
    }
}

} // verus!
