//! Calendar arithmetic in the proleptic Gregorian calendar, within the years
//! that `chrono::NaiveDate` represents.
use vstd::prelude::*;

verus! {

/// The first year that `chrono::NaiveDate` represents.
pub const MIN_YEAR: i32 = -262143;

/// The last year that `chrono::NaiveDate` represents.
pub const MAX_YEAR: i32 = 262142;

/// Gregorian leap years: divisible by 4, except centuries not divisible by 400.
pub open spec fn is_leap_year(y: int) -> bool {
    (y % 4 == 0 && y % 100 != 0) || y % 400 == 0
}

/// The number of days of month `m` (1 to 12) of year `y`.
pub open spec fn days_in_month(y: int, m: int) -> int {
    if m == 2 {
        if is_leap_year(y) { 29 } else { 28 }
    } else if m == 4 || m == 6 || m == 9 || m == 11 {
        30
    } else {
        31
    }
}

/// The number of days of all the years before year `y`, counted from year 1
/// (negative for the years up to 0).
pub open spec fn days_before_year(y: int) -> int {
    365 * (y - 1) + (y - 1) / 4 - (y - 1) / 100 + (y - 1) / 400
}

/// The number of days of the months of year `y` before month `m`.
pub open spec fn days_before_month(y: int, m: int) -> int
    decreases m,
{
    if m <= 1 {
        0
    } else {
        days_before_month(y, m - 1) + days_in_month(y, m - 1)
    }
}

/// The position of a day on the line of days: consecutive days have
/// consecutive numbers, and 1 January of year 1 has number 1.
pub open spec fn day_number(y: int, m: int, d: int) -> int {
    days_before_year(y) + days_before_month(y, m) + d
}

/// A date that exists and that `chrono::NaiveDate` can hold.
pub open spec fn is_valid_date(y: int, m: int, d: int) -> bool {
    &&& MIN_YEAR <= y <= MAX_YEAR
    &&& 1 <= m <= 12
    &&& 1 <= d <= days_in_month(y, m)
}

/// Whether the first day of month `month` of year `year`, and the first
/// day of the month after it, are dates that `chrono::NaiveDate` can hold.
pub open spec fn month_span_defined(year: int, month: int) -> bool {
    &&& 1 <= month <= 12
    &&& MIN_YEAR <= year <= MAX_YEAR
    &&& month == 12 ==> year < MAX_YEAR
}

/// Calls `chrono::NaiveDate::from_ymd_opt` for both dates,
/// `NaiveDate::signed_duration_since` and `TimeDelta::num_days`: the number
/// of days from the earlier date to the later one. The contract claims that
/// chrono counts days in the proleptic Gregorian calendar, as its
/// documentation says, and that both dates exist for it when they are valid
/// dates in its year range.
#[verifier::external_body]
fn days_between(
    later_year: i32,
    later_month: u32,
    later_day: u32,
    earlier_year: i32,
    earlier_month: u32,
    earlier_day: u32,
) -> (r: i64)
    requires
        is_valid_date(later_year as int, later_month as int, later_day as int),
        is_valid_date(earlier_year as int, earlier_month as int, earlier_day as int),
    ensures
        r == day_number(later_year as int, later_month as int, later_day as int)
            - day_number(earlier_year as int, earlier_month as int, earlier_day as int),
{
    let later = chrono::NaiveDate::from_ymd_opt(later_year, later_month, later_day).expect("valid date");
    let earlier = chrono::NaiveDate::from_ymd_opt(earlier_year, earlier_month, earlier_day).expect("valid date");
    later.signed_duration_since(earlier).num_days()
}

proof fn lemma_div_step(y: int, d: int)
    requires
        d > 0,
    ensures
        y / d - (y - 1) / d == (if y % d == 0 { 1int } else { 0int }),
{
    let q1 = y / d;
    let q0 = (y - 1) / d;
    assert(y == d * q1 + y % d && 0 <= y % d < d) by {
        vstd::arithmetic::div_mod::lemma_fundamental_div_mod(y, d);
    }
    assert((y - 1) == d * q0 + (y - 1) % d && 0 <= (y - 1) % d < d) by {
        vstd::arithmetic::div_mod::lemma_fundamental_div_mod(y - 1, d);
    }
    assert(d * (q1 - q0) == 1 + (y - 1) % d - y % d) by (nonlinear_arith)
        requires
            y == d * q1 + y % d,
            (y - 1) == d * q0 + (y - 1) % d,
    ;
    if y % d == 0 {
        assert(q1 - q0 == 1) by (nonlinear_arith)
            requires
                d * (q1 - q0) == 1 + (y - 1) % d,
                0 <= (y - 1) % d < d,
                d > 0,
        ;
    } else {
        assert(q1 - q0 == 0) by (nonlinear_arith)
            requires
                d * (q1 - q0) == 1 + (y - 1) % d - y % d,
                0 <= (y - 1) % d < d,
                0 < y % d < d,
                d > 0,
        ;
    }
}

proof fn lemma_divides_factor(y: int)
    ensures
        y % 100 == 0 ==> y % 4 == 0,
        y % 400 == 0 ==> y % 100 == 0,
{
    if y % 100 == 0 {
        vstd::arithmetic::div_mod::lemma_fundamental_div_mod(y, 100);
        let q = y / 100;
        assert(y == 4 * (25 * q)) by (nonlinear_arith)
            requires
                y == 100 * q + y % 100,
                y % 100 == 0,
        ;
        vstd::arithmetic::div_mod::lemma_mod_multiples_basic(25 * q, 4);
    }
    if y % 400 == 0 {
        vstd::arithmetic::div_mod::lemma_fundamental_div_mod(y, 400);
        let q = y / 400;
        assert(y == 100 * (4 * q)) by (nonlinear_arith)
            requires
                y == 400 * q + y % 400,
                y % 400 == 0,
        ;
        vstd::arithmetic::div_mod::lemma_mod_multiples_basic(4 * q, 100);
    }
}

/// A year has 366 days when it is a leap year and 365 days otherwise.
pub proof fn lemma_year_length(y: int)
    ensures
        days_before_year(y + 1) - days_before_year(y) == if is_leap_year(y) { 366int } else { 365int },
{
    lemma_div_step(y, 4);
    lemma_div_step(y, 100);
    lemma_div_step(y, 400);
    lemma_divides_factor(y);
}

/// The twelve months of a year together have as many days as the year.
pub proof fn lemma_months_fill_year(y: int)
    ensures
        days_before_month(y, 12) + days_in_month(y, 12) == days_before_year(y + 1) - days_before_year(y),
{
    reveal_with_fuel(days_before_month, 12);
    lemma_year_length(y);
}

/// From the first day of a month to the first day of the next month there
/// are as many days as the month has.
pub proof fn lemma_month_span(y: int, m: int)
    requires
        1 <= m <= 12,
    ensures
        m < 12 ==> day_number(y, m + 1, 1) - day_number(y, m, 1) == days_in_month(y, m),
        m == 12 ==> day_number(y + 1, 1, 1) - day_number(y, 12, 1) == days_in_month(y, 12),
{
    if m == 12 {
        lemma_months_fill_year(y);
    }
}

/// The number of days of month `month` (1 to 12) of `year`, measured by
/// chrono as the days from its first day to the first day of the next month.
pub fn get_days_from_month(year: i32, month: u32) -> (days: i64)
    requires
        month_span_defined(year as int, month as int),
    ensures
        days == days_in_month(year as int, month as int),
        28 <= days <= 31,
{
    let next_year: i32 = if month == 12 { year + 1 } else { year };
    let next_month: u32 = if month == 12 { 1 } else { month + 1 };
    proof {
        lemma_month_span(year as int, month as int);
    }
    days_between(next_year, next_month, 1, year, month, 1)
}

} // verus!
