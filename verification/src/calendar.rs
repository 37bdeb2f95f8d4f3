//! calendar days of the proleptic Gregorian calendar, numbered from 1 for January 1 of year 1, as chrono numbers them

use chrono::Datelike;
use crate::common::decimal;
use vstd::prelude::*;

verus! {

/// the first year a calendar day can fall in
pub const MIN_YEAR: i32 = -262143;

/// the last year a calendar day can fall in
pub const MAX_YEAR: i32 = 262142;

/// the number of the first day, January 1 of `MIN_YEAR`
pub const MIN_DAY: i32 = -95746129;

/// the number of the last day, December 31 of `MAX_YEAR`
pub const MAX_DAY: i32 = 95745399;

/// the number of January 1, 1970
pub const UNIX_EPOCH_DAY: i32 = 719163;

/// a leap year of the Gregorian calendar
pub open spec fn is_leap(year: int) -> bool {
    (year % 4 == 0 && year % 100 != 0) || year % 400 == 0
}

/// the number of days of a month
pub open spec fn days_in_month(year: int, month: int) -> int {
    if month == 2 {
        if is_leap(year) {
            29
        } else {
            28
        }
    } else if month == 4 || month == 6 || month == 9 || month == 11 {
        30
    } else {
        31
    }
}

/// a day that exists in the calendar, within the years a day can be named in
pub open spec fn valid_ymd(year: int, month: int, day: int) -> bool {
    MIN_YEAR <= year <= MAX_YEAR && 1 <= month <= 12 && 1 <= day <= days_in_month(year, month)
}

/// the days of the years before `year`, counted from year 1
pub open spec fn days_before_year(year: int) -> int {
    let y = year - 1;
    365 * y + y / 4 - y / 100 + y / 400
}

/// the days of the months of `year` before `month`
pub open spec fn days_before_month(year: int, month: int) -> int
    decreases month,
{
    if month <= 1 {
        0
    } else {
        days_before_month(year, month - 1) + days_in_month(year, month - 1)
    }
}

/// the number of a day: January 1 of year 1 is day 1
pub open spec fn ce_day(year: int, month: int, day: int) -> int {
    days_before_year(year) + days_before_month(year, month) + day
}

/// the number of the first day of a month
pub open spec fn month_start(year: int, month: int) -> int {
    days_before_year(year) + days_before_month(year, month) + 1
}

/// a month counted from January of year 0 as month 0
pub open spec fn month_index(year: int, month: int) -> int {
    year * 12 + month - 1
}

/// the year of a counted month
pub open spec fn index_year(i: int) -> int {
    i / 12
}

/// the month of the year of a counted month, from 1
pub open spec fn index_month(i: int) -> int {
    i % 12 + 1
}

/// the first day of a counted month
pub open spec fn index_start(i: int) -> int {
    month_start(index_year(i), index_month(i))
}

/// the number of days of a counted month
pub open spec fn index_length(i: int) -> int {
    days_in_month(index_year(i), index_month(i))
}

/// the first and the last counted month of the calendar
pub open spec fn index_in_range(i: int) -> bool {
    month_index(MIN_YEAR as int, 1) <= i <= month_index(MAX_YEAR as int, 12)
}

/// one more than a number divides by `k` once more exactly when `k` divides it
proof fn lemma_div_step(a: int, k: int)
    requires
        k > 0,
    ensures
        a / k - (a - 1) / k == (if a % k == 0 {
            1int
        } else {
            0int
        }),
{
    vstd::arithmetic::div_mod::lemma_fundamental_div_mod(a, k);
    vstd::arithmetic::div_mod::lemma_mod_bound(a, k);
    let q = a / k;
    let r = a % k;
    assert(a == q * k + r) by {
        vstd::arithmetic::mul::lemma_mul_is_commutative(k, q);
    }
    if r == 0 {
        assert(a - 1 == (q - 1) * k + (k - 1)) by {
            vstd::arithmetic::mul::lemma_mul_is_distributive_sub_other_way(k, q, 1);
        }
        vstd::arithmetic::div_mod::lemma_fundamental_div_mod_converse(a - 1, k, q - 1, k - 1);
    } else {
        vstd::arithmetic::div_mod::lemma_fundamental_div_mod_converse(a - 1, k, q, r - 1);
    }
}

/// a year holds 365 days, 366 in a leap year
pub proof fn lemma_year_length(year: int)
    ensures
        days_before_year(year + 1) == days_before_year(year) + (if is_leap(year) {
            366int
        } else {
            365int
        }),
{
    lemma_div_step(year, 4);
    lemma_div_step(year, 100);
    lemma_div_step(year, 400);
    // a multiple of 400 is a multiple of 100 and of 4, a multiple of 100 of 4
    if year % 400 == 0 {
        vstd::arithmetic::div_mod::lemma_fundamental_div_mod(year, 400);
        let q = year / 400;
        vstd::arithmetic::div_mod::lemma_fundamental_div_mod_converse(year, 100, 4 * q, 0);
        vstd::arithmetic::div_mod::lemma_fundamental_div_mod_converse(year, 4, 100 * q, 0);
    }
    if year % 100 == 0 {
        vstd::arithmetic::div_mod::lemma_fundamental_div_mod(year, 100);
        let q = year / 100;
        vstd::arithmetic::div_mod::lemma_fundamental_div_mod_converse(year, 4, 25 * q, 0);
    }
}

/// the days of the months of a year add up to the year's length
proof fn lemma_months_of_year(year: int)
    ensures
        days_before_month(year, 13) == (if is_leap(year) {
            366int
        } else {
            365int
        }),
{
    reveal_with_fuel(days_before_month, 13);
}

/// a month ends the day before the next one starts
pub proof fn lemma_month_step(i: int)
    ensures
        index_start(i + 1) == index_start(i) + index_length(i),
        28 <= index_length(i) <= 31,
{
    vstd::arithmetic::div_mod::lemma_fundamental_div_mod(i, 12);
    vstd::arithmetic::div_mod::lemma_mod_bound(i, 12);
    let q = i / 12;
    let r = i % 12;
    if r < 11 {
        vstd::arithmetic::div_mod::lemma_fundamental_div_mod_converse(i + 1, 12, q, r + 1);
    } else {
        vstd::arithmetic::div_mod::lemma_fundamental_div_mod_converse(i + 1, 12, q + 1, 0);
        lemma_year_length(q);
        lemma_months_of_year(q);
    }
}

/// the months of a year counted in order
pub proof fn lemma_index_of_month(year: int, month: int)
    requires
        1 <= month <= 12,
    ensures
        index_year(month_index(year, month)) == year,
        index_month(month_index(year, month)) == month,
{
    vstd::arithmetic::div_mod::lemma_fundamental_div_mod_converse(
        month_index(year, month),
        12,
        year,
        month - 1,
    );
}

/// a later month starts later, by at least 28 and at most 31 days a month
pub proof fn lemma_index_start_order(i: int, j: int)
    requires
        i <= j,
    ensures
        28 * (j - i) <= index_start(j) - index_start(i) <= 31 * (j - i),
    decreases j - i,
{
    if i < j {
        lemma_index_start_order(i, j - 1);
        lemma_month_step(j - 1);
    }
}

/// a day of an earlier month comes before a day of a later one, and days of one month come in order
pub proof fn lemma_day_order(y1: int, m1: int, d1: int, y2: int, m2: int, d2: int)
    requires
        1 <= m1 <= 12,
        1 <= m2 <= 12,
        1 <= d1 <= days_in_month(y1, m1),
        1 <= d2 <= days_in_month(y2, m2),
    ensures
        month_index(y1, m1) < month_index(y2, m2) ==> ce_day(y1, m1, d1) < ce_day(y2, m2, d2),
        month_index(y1, m1) == month_index(y2, m2) ==> ce_day(y2, m2, d2) - ce_day(y1, m1, d1)
            == d2 - d1,
        ce_day(y1, m1, d1) < ce_day(y2, m2, d2) ==> month_index(y1, m1) <= month_index(y2, m2),
{
    let i = month_index(y1, m1);
    let j = month_index(y2, m2);
    lemma_index_of_month(y1, m1);
    lemma_index_of_month(y2, m2);
    if i < j {
        lemma_month_step(i);
        lemma_index_start_order(i + 1, j);
    } else if j < i {
        lemma_month_step(j);
        lemma_index_start_order(j + 1, i);
    } else {
        assert(y1 == y2 && m1 == m2);
    }
}

/// the year, month and day of a day number
pub open spec fn ymd_spec(n: int) -> (int, int, int) {
    choose|ymd: (int, int, int)|
        valid_ymd(ymd.0, ymd.1, ymd.2) && ce_day(ymd.0, ymd.1, ymd.2) == n
}

/// a day number names one day of the calendar
pub proof fn lemma_ymd_unique(y: int, m: int, d: int)
    requires
        valid_ymd(y, m, d),
    ensures
        ymd_spec(ce_day(y, m, d)) == (y, m, d),
{
    let n = ce_day(y, m, d);
    let w = (y, m, d);
    assert(valid_ymd(w.0, w.1, w.2) && ce_day(w.0, w.1, w.2) == n);
    let t = ymd_spec(n);
    assert(valid_ymd(t.0, t.1, t.2) && ce_day(t.0, t.1, t.2) == n);
    lemma_day_order(y, m, d, t.0, t.1, t.2);
    lemma_day_order(t.0, t.1, t.2, y, m, d);
    lemma_index_of_month(y, m);
    lemma_index_of_month(t.0, t.1);
}

/// every day of the calendar has a year, month and day
pub proof fn lemma_day_has_ymd(n: int)
    requires
        valid_day(n),
    ensures
        valid_ymd(ymd_spec(n).0, ymd_spec(n).1, ymd_spec(n).2),
        ce_day(ymd_spec(n).0, ymd_spec(n).1, ymd_spec(n).2) == n,
    decreases n - MIN_DAY,
{
    if n == MIN_DAY {
        lemma_calendar_ends();
        lemma_index_of_month(MIN_YEAR as int, 1);
        lemma_ymd_unique(MIN_YEAR as int, 1, 1);
    } else {
        lemma_day_has_ymd(n - 1);
        let t = ymd_spec(n - 1);
        let (y, m, d) = t;
        lemma_index_of_month(y, m);
        lemma_month_step(month_index(y, m));
        if d < days_in_month(y, m) {
            lemma_ymd_unique(y, m, d + 1);
        } else if m < 12 {
            lemma_index_of_month(y, m + 1);
            lemma_ymd_unique(y, m + 1, 1);
        } else {
            if y == MAX_YEAR {
                lemma_calendar_ends();
                assert(n - 1 == MAX_DAY);
            }
            lemma_index_of_month(y + 1, 1);
            lemma_ymd_unique(y + 1, 1, 1);
        }
    }
}

/// a day number within the calendar's range
pub open spec fn valid_day(n: int) -> bool {
    MIN_DAY <= n <= MAX_DAY
}

/// `NaiveDate::from_ymd_opt(year, month, day).map(|d| d.num_days_from_ce())`: the number of the day, None when the day does not exist or its year is out of range
#[verifier::external_body]
pub(crate) fn day_from_ymd(year: i32, month: u32, day: u32) -> (n: Option<i32>)
    ensures
        n is Some == valid_ymd(year as int, month as int, day as int),
        n matches Some(n) ==> n == ce_day(year as int, month as int, day as int) && valid_day(
            n as int,
        ),
{
    chrono::NaiveDate::from_ymd_opt(year, month, day).map(|date| date.num_days_from_ce())
}

/// the year, month and day of the day `NaiveDate::from_num_days_from_ce_opt(n)` names: the one day of the calendar whose number is `n`
#[verifier::external_body]
pub(crate) fn ymd_of_day(n: i32) -> (ymd: (i32, u32, u32))
    requires
        valid_day(n as int),
    ensures
        valid_ymd(ymd.0 as int, ymd.1 as int, ymd.2 as int),
        ce_day(ymd.0 as int, ymd.1 as int, ymd.2 as int) == n,
{
    let date = chrono::NaiveDate::from_num_days_from_ce_opt(n).expect("a day in range");
    (date.year(), date.month(), date.day())
}

/// what `NaiveDate::parse_from_str(text, "%Y-%m-%d")` reads: the number of the day it names, None when it names none
pub uninterp spec fn parsed_day(text: Seq<char>) -> Option<i32>;

/// `NaiveDate::parse_from_str(text, "%Y-%m-%d")`, as a day number
#[verifier::external_body]
pub(crate) fn parse_day_text(text: &str) -> (n: Option<i32>)
    ensures
        n == parsed_day(text@),
        n matches Some(n) ==> valid_day(n as int),
{
    chrono::NaiveDate::parse_from_str(text, "%Y-%m-%d").ok().map(|date| date.num_days_from_ce())
}

/// `NaiveDate::from_ymd_opt(year, month, day).is_some()`: the day exists in the calendar and its year is within chrono's range
pub fn date_exists(year: i32, month: u32, day: u32) -> (exists: bool)
    ensures
        exists == valid_ymd(year as int, month as int, day as int),
{
    day_from_ymd(year, month, day).is_some()
}

/// the weekday of a day counted from Sunday as 0; day 1 was a Monday
pub open spec fn weekday_index_spec(n: int) -> int {
    n % 7
}

/// the weekday of a day counted from Sunday as 0
pub fn weekday_index(n: i32) -> (w: u32)
    requires
        valid_day(n as int),
    ensures
        w == weekday_index_spec(n as int),
        w < 7,
{
    // 98_000_000 is a multiple of 7 that lifts every day number above zero
    let lifted = (n as i64 + 98_000_000) as u64;
    assert(lifted % 7 == (n as int) % 7) by {
        vstd::arithmetic::div_mod::lemma_mod_add_multiples_vanish(n as int, 7);
        assert(98_000_000int == 7 * 14_000_000);
        vstd::arithmetic::div_mod::lemma_mod_multiples_vanish(14_000_000, n as int, 7);
    }
    (lifted % 7) as u32
}

/// the Sunday starting the week of a day
pub open spec fn week_start_spec(n: int) -> int {
    n - weekday_index_spec(n)
}

/// the Sunday starting the week of a day
pub fn week_start(n: i32) -> (s: i32)
    requires
        valid_day(n as int),
    ensures
        s == week_start_spec(n as int),
{
    n - weekday_index(n) as i32
}

/// a leap year of the Gregorian calendar
pub fn leap_year(year: i32) -> (leap: bool)
    requires
        MIN_YEAR <= year <= MAX_YEAR,
    ensures
        leap == is_leap(year as int),
{
    // a multiple of 400 that lifts every year above zero keeps each divisibility
    let lifted = (year as i64 + 400_000) as u64;
    proof {
        assert(400_000int == 400 * 1000);
        vstd::arithmetic::div_mod::lemma_mod_multiples_vanish(1000, year as int, 400);
        assert(400_000int == 100 * 4000);
        vstd::arithmetic::div_mod::lemma_mod_multiples_vanish(4000, year as int, 100);
        assert(400_000int == 4 * 100_000);
        vstd::arithmetic::div_mod::lemma_mod_multiples_vanish(100_000, year as int, 4);
        assert((400 * 1000 + year as int) == lifted as int);
    }
    (lifted % 4 == 0 && lifted % 100 != 0) || lifted % 400 == 0
}

/// the number of days of a month
pub fn month_length(year: i32, month: u32) -> (days: u32)
    requires
        MIN_YEAR <= year <= MAX_YEAR,
    ensures
        days == days_in_month(year as int, month as int),
{
    if month == 2 {
        if leap_year(year) {
            29
        } else {
            28
        }
    } else if month == 4 || month == 6 || month == 9 || month == 11 {
        30
    } else {
        31
    }
}

/// the timestamp of 00:00 UTC on a day, as the wire stores days
pub open spec fn day_timestamp_spec(n: int) -> int {
    (n - UNIX_EPOCH_DAY) * 86400
}

/// a calendar day as the wire stores it, the unix timestamp of 00:00 UTC on that day
pub fn day_timestamp(n: i32) -> (ts: i64)
    requires
        valid_day(n as int),
    ensures
        ts == day_timestamp_spec(n as int),
{
    (n as i64 - UNIX_EPOCH_DAY as i64) * 86400
}

/// the day a wire timestamp falls in, None outside the calendar's range
pub open spec fn day_of_spec(timestamp: int) -> Option<i32> {
    let n = timestamp / 86400 + UNIX_EPOCH_DAY;
    if valid_day(n) {
        Some(n as i32)
    } else {
        None
    }
}

/// the calendar day a wire day timestamp names
pub fn day_of(timestamp: i64) -> (n: Option<i32>)
    ensures
        n == day_of_spec(timestamp as int),
{
    // the days before 1970 round down
    let days = if timestamp >= 0 {
        timestamp / 86400
    } else {
        let up = (-(timestamp + 1)) / 86400;
        -up - 1
    };
    proof {
        if timestamp < 0 {
            let t = timestamp as int;
            let up = (-(t + 1)) / 86400;
            vstd::arithmetic::div_mod::lemma_fundamental_div_mod(-(t + 1), 86400);
            let r = (-(t + 1)) % 86400;
            assert(-(t + 1) == 86400 * up + r);
            assert(t == 86400 * (-up - 1) + (86399 - r));
            vstd::arithmetic::div_mod::lemma_fundamental_div_mod_converse(
                t,
                86400,
                -up - 1,
                86399 - r,
            );
        }
    }
    if days < MIN_DAY as i64 - UNIX_EPOCH_DAY as i64 || days > MAX_DAY as i64
        - UNIX_EPOCH_DAY as i64 {
        return None;
    }
    Some((days + UNIX_EPOCH_DAY as i64) as i32)
}

/// the day of a month, a negative day standing for the last, clamped to the month's length
pub open spec fn clamped_day(year: int, month: int, day: int) -> int {
    let last = days_in_month(year, month);
    if day < 0 || day > last {
        last
    } else {
        day
    }
}

/// the number of a day of a month, a negative day standing for the last, clamped to the month's length
pub open spec fn day_in_month_spec(year: int, month: int, day: int) -> int {
    ce_day(year, month, clamped_day(year, month, day))
}

/// `day_in_month_spec` of a counted month
pub open spec fn day_in_index(i: int, day: int) -> int {
    day_in_month_spec(index_year(i), index_month(i), day)
}

/// the counted month of a day
pub open spec fn index_of_day(n: int) -> int {
    month_index(ymd_spec(n).0, ymd_spec(n).1)
}

/// the calendar starts with January of `MIN_YEAR` and ends with December of `MAX_YEAR`
pub proof fn lemma_calendar_ends()
    ensures
        index_start(month_index(MIN_YEAR as int, 1)) == MIN_DAY,
        index_start(month_index(MAX_YEAR as int, 12)) + 31 == MAX_DAY + 1,
        index_length(month_index(MAX_YEAR as int, 12)) == 31,
{
    lemma_index_of_month(MIN_YEAR as int, 1);
    lemma_index_of_month(MAX_YEAR as int, 12);
    reveal_with_fuel(days_before_month, 12);
    assert(!is_leap(MAX_YEAR as int));
}

/// a day of a counted month lies between the month's first and last day
pub proof fn lemma_day_in_index_bounds(i: int, day: int)
    requires
        day != 0,
    ensures
        index_start(i) <= day_in_index(i, day) < index_start(i) + index_length(i),
        1 <= index_month(i) <= 12,
        month_index(index_year(i), index_month(i)) == i,
{
    vstd::arithmetic::div_mod::lemma_fundamental_div_mod(i, 12);
    vstd::arithmetic::div_mod::lemma_mod_bound(i, 12);
    vstd::arithmetic::mul::lemma_mul_is_commutative(12, i / 12);
}

/// a day of a later counted month comes later
pub proof fn lemma_day_in_index_order(i: int, j: int, day: int)
    requires
        i < j,
        day != 0,
    ensures
        day_in_index(i, day) < day_in_index(j, day),
{
    lemma_day_in_index_bounds(i, day);
    lemma_day_in_index_bounds(j, day);
    lemma_month_step(i);
    lemma_index_start_order(i + 1, j);
}

/// a day lies in the counted month `index_of_day` gives it
pub proof fn lemma_index_of_day(n: int)
    requires
        valid_day(n),
        valid_ymd(ymd_spec(n).0, ymd_spec(n).1, ymd_spec(n).2),
        ce_day(ymd_spec(n).0, ymd_spec(n).1, ymd_spec(n).2) == n,
    ensures
        index_in_range(index_of_day(n)),
        index_start(index_of_day(n)) <= n < index_start(index_of_day(n)) + index_length(
            index_of_day(n),
        ),
{
    let t = ymd_spec(n);
    lemma_index_of_month(t.0, t.1);
    lemma_month_step(index_of_day(n));
}

/// a counted month past the calendar's last starts after its last day
pub proof fn lemma_index_past_end(i: int)
    requires
        i > month_index(MAX_YEAR as int, 12),
    ensures
        index_start(i) > MAX_DAY,
{
    lemma_calendar_ends();
    lemma_month_step(month_index(MAX_YEAR as int, 12));
    lemma_index_start_order(month_index(MAX_YEAR as int, 12) + 1, i);
}

/// the day of a month, a negative day standing for the last, clamped to the month's length
pub fn day_in_month(year: i32, month: u32, day: i32) -> (n: i32)
    requires
        MIN_YEAR <= year <= MAX_YEAR,
        1 <= month <= 12,
        day != 0,
    ensures
        n == day_in_month_spec(year as int, month as int, day as int),
        valid_day(n as int),
{
    let last = month_length(year, month);
    let clamped: u32 = if day < 0 || day as u32 > last {
        last
    } else {
        day as u32
    };
    match day_from_ymd(year, month, clamped) {
        Some(n) => n,
        None => {
            proof {
                assert(false);
            }
            0
        },
    }
}

/// the year and month of a counted month, within the calendar
pub fn index_parts(i: i64) -> (parts: (i32, u32))
    requires
        index_in_range(i as int),
    ensures
        parts.0 == index_year(i as int),
        parts.1 == index_month(i as int),
        MIN_YEAR <= parts.0 <= MAX_YEAR,
        1 <= parts.1 <= 12,
{
    // a multiple of 12 that lifts every counted month above zero
    let lifted = i + 3_146_400;
    let year = lifted / 12 - 262_200;
    let month = lifted % 12 + 1;
    proof {
        vstd::arithmetic::div_mod::lemma_fundamental_div_mod(lifted as int, 12);
        vstd::arithmetic::div_mod::lemma_mod_bound(lifted as int, 12);
        vstd::arithmetic::div_mod::lemma_fundamental_div_mod_converse(
            i as int,
            12,
            year as int,
            month - 1,
        );
    }
    (year as i32, month as u32)
}

/// the day of a counted month, a negative day standing for the last, clamped to the month's length
pub fn day_of_index(i: i64, day: i32) -> (n: i32)
    requires
        index_in_range(i as int),
        day != 0,
    ensures
        n == day_in_index(i as int, day as int),
        valid_day(n as int),
{
    let (year, month) = index_parts(i);
    day_in_month(year, month, day)
}

/// the year, month and day of a day, and its counted month
pub fn day_parts(n: i32) -> (parts: (i32, u32, u32, i64))
    requires
        valid_day(n as int),
    ensures
        (parts.0 as int, parts.1 as int, parts.2 as int) == ymd_spec(n as int),
        valid_ymd(parts.0 as int, parts.1 as int, parts.2 as int),
        parts.3 == index_of_day(n as int),
        index_in_range(parts.3 as int),
        index_start(parts.3 as int) <= n < index_start(parts.3 as int) + index_length(
            parts.3 as int,
        ),
{
    let (year, month, day) = ymd_of_day(n);
    proof {
        lemma_ymd_unique(year as int, month as int, day as int);
        lemma_index_of_day(n as int);
    }
    (year, month, day, year as i64 * 12 + month as i64 - 1)
}

/// `n` in decimal, zero-padded to `width` digits
pub open spec fn padded(n: nat, width: nat) -> Seq<char> {
    let digits = decimal(n);
    if digits.len() >= width {
        digits
    } else {
        Seq::new((width - digits.len()) as nat, |i: int| '0') + digits
    }
}

/// a year as a date shows it: four digits from 0 to 9999, otherwise a sign and at least four digits
pub open spec fn year_text(year: int) -> Seq<char> {
    if 0 <= year <= 9999 {
        padded(year as nat, 4)
    } else if year < 0 {
        "-"@ + padded((-year) as nat, 4)
    } else {
        "+"@ + padded(year as nat, 4)
    }
}

/// a day as `YYYY-MM-DD`
pub open spec fn day_text_spec(n: int) -> Seq<char> {
    year_text(ymd_spec(n).0) + "-"@ + padded(ymd_spec(n).1 as nat, 2) + "-"@ + padded(
        ymd_spec(n).2 as nat,
        2,
    )
}

/// the `Display` of chrono's `NaiveDate` for a day: the year in four digits, or with its sign and at least four digits beyond 0 to 9999, then the month and the day in two digits each
#[verifier::external_body]
pub(crate) fn day_text(n: i32) -> (text: String)
    requires
        valid_day(n as int),
    ensures
        text@ == day_text_spec(n as int),
{
    match chrono::NaiveDate::from_num_days_from_ce_opt(n) {
        Some(date) => date.to_string(),
        None => String::new(),
    }
}

/// what `DateTime::parse_from_rfc3339` reads of a text: the whole seconds since 1970 and the milliseconds past them, None when it names no instant
pub uninterp spec fn rfc3339_instant(text: Seq<char>) -> Option<(i64, u32)>;

/// `DateTime::parse_from_rfc3339(text)`, as `timestamp` and `timestamp_subsec_millis` of what it reads; the milliseconds stay under 2000, a leap second reaching past 999
#[verifier::external_body]
pub(crate) fn read_rfc3339(text: &str) -> (read: Option<(i64, u32)>)
    ensures
        read == rfc3339_instant(text@),
        read matches Some(r) ==> r.1 < 2000,
{
    match chrono::DateTime::parse_from_rfc3339(text) {
        Ok(instant) => Some((instant.timestamp(), instant.timestamp_subsec_millis())),
        Err(_) => None,
    }
}

/// the first instant of a day in the machine's time zone, as seconds since 1970, through chrono's `Local.from_local_datetime(..).earliest()`: None where the day has no midnight there
///
/// which instant comes back depends on the machine's time zone; the clause states what holds in
/// every zone, since chrono keeps an offset strictly within a day of UTC (`FixedOffset::east_opt`)
#[verifier::external_body]
pub(crate) fn local_midnight(day: i32) -> (seconds: Option<i64>)
    requires
        valid_day(day as int),
    ensures
        seconds matches Some(s) ==> near_utc_midnight(s as int, day as int),
{
    match chrono::NaiveDate::from_num_days_from_ce_opt(day) {
        Some(date) => match date.and_hms_opt(0, 0, 0) {
            Some(midnight) => match chrono::TimeZone::from_local_datetime(&chrono::Local, &midnight).earliest() {
                Some(instant) => Some(instant.timestamp()),
                None => None,
            },
            None => None,
        },
        None => None,
    }
}

/// the day 1970-01-01 as chrono numbers days, from 0001-01-01 as day one
pub open spec fn epoch_day() -> int {
    719163
}

/// an instant, in seconds since 1970, less than a day away from the UTC midnight that begins `day`
pub open spec fn near_utc_midnight(seconds: int, day: int) -> bool {
    let midnight = (day - epoch_day()) * 86400;
    midnight - 86400 < seconds < midnight + 86400
}

/// the message for an instant flag that names no instant
pub open spec fn invalid_instant_message(text: Seq<char>, label: Seq<char>) -> Seq<char> {
    "Invalid "@ + label + ": "@ + text + " (expected RFC 3339 or YYYY-MM-DD)"@
}

/// the message for a day without a midnight in the machine's time zone
pub open spec fn no_midnight_message(text: Seq<char>, label: Seq<char>) -> Seq<char> {
    "Invalid "@ + label + ": "@ + text + " has no midnight in the local time zone"@
}

/// what reading an instant flag may give: the RFC 3339 instant it names; otherwise, for a day, its midnight in the machine's time zone or the message that it has none; otherwise the message that it names neither
pub open spec fn instant_read(text: Seq<char>, label: Seq<char>, read: Result<(i64, u32), Seq<char>>) -> bool {
    match rfc3339_instant(text) {
        Some((secs, millis)) => read == Ok::<(i64, u32), Seq<char>>((secs, (millis * 1_000_000) as u32)),
        None => match parsed_day(text) {
            None => read == Err::<(i64, u32), Seq<char>>(invalid_instant_message(text, label)),
            Some(day) => match read {
                Ok((secs, nanos)) => nanos == 0 && near_utc_midnight(secs as int, day as int),
                Err(message) => message == no_midnight_message(text, label),
            },
        },
    }
}

/// an RFC 3339 instant, or a `YYYY-MM-DD` day at its midnight in the machine's time zone, as whole seconds since 1970 and the nanoseconds past them
pub fn parse_instant(text: &str, label: &str) -> (parsed: Result<(i64, u32), String>)
    ensures
        instant_read(
            text@,
            label@,
            match parsed {
                Ok(v) => Ok::<(i64, u32), Seq<char>>(v),
                Err(m) => Err::<(i64, u32), Seq<char>>(m@),
            },
        ),
{
    match read_rfc3339(text) {
        Some((secs, millis)) => return Ok((secs, millis * 1_000_000)),
        None => {},
    }
    let day = match parse_day_text(text) {
        Some(day) => day,
        None => {
            let mut message = String::from_str("Invalid ");
            message.append(label);
            message.append(": ");
            message.append(text);
            message.append(" (expected RFC 3339 or YYYY-MM-DD)");
            return Err(message);
        },
    };
    match local_midnight(day) {
        Some(secs) => Ok((secs, 0)),
        None => {
            let mut message = String::from_str("Invalid ");
            message.append(label);
            message.append(": ");
            message.append(text);
            message.append(" has no midnight in the local time zone");
            Err(message)
        },
    }
}

/// the message for a day flag that names no day
pub open spec fn invalid_day_message(day: Seq<char>, label: Seq<char>) -> Seq<char> {
    "Invalid "@ + label + " date: "@ + day + " (expected YYYY-MM-DD)"@
}

/// a YYYY-MM-DD flag as the calendar day it names
///
/// no time zone takes part
/// the day goes on the wire at UTC midnight through `day_timestamp`
/// the local offset of today or of that day cannot move it to the day before
pub fn parse_day(day: &str, label: &str) -> (parsed: Result<i32, String>)
    ensures
        match parsed {
            Ok(n) => parsed_day(day@) == Some(n) && valid_day(n as int),
            Err(message) => parsed_day(day@) is None && message@ == invalid_day_message(
                day@,
                label@,
            ),
        },
{
    match parse_day_text(day) {
        Some(n) => Ok(n),
        None => {
            let mut message = String::from_str("Invalid ");
            message.append(label);
            message.append(" date: ");
            message.append(day);
            message.append(" (expected YYYY-MM-DD)");
            Err(message)
        },
    }
}


/// what `NaiveTime::parse_from_str(text, "%H:%M")` reads, as seconds past midnight: None when it names no time
pub uninterp spec fn parsed_reminder(text: Seq<char>) -> Option<u32>;

/// `NaiveTime::parse_from_str(text, "%H:%M")`, as the seconds past midnight `num_seconds_from_midnight` counts, which stay under a day
#[verifier::external_body]
pub(crate) fn reminder_seconds(text: &str) -> (secs: Option<u32>)
    ensures
        secs == parsed_reminder(text@),
        secs matches Some(s) ==> s < 86400,
{
    match chrono::NaiveTime::parse_from_str(text, "%H:%M") {
        Ok(time) => Some(chrono::Timelike::num_seconds_from_midnight(&time)),
        Err(_) => None,
    }
}

/// the message for a reminder that names no time
pub open spec fn invalid_reminder_message(time: Seq<char>) -> Seq<char> {
    "Invalid --reminder time: "@ + time + " (expected HH:MM)"@
}

/// an `HH:MM` reminder as the seconds past midnight of the day it rings on
pub fn parse_reminder(time: &str) -> (parsed: Result<i64, String>)
    ensures
        match parsed {
            Ok(secs) => parsed_reminder(time@) == Some(secs as u32) && 0 <= secs < 86400,
            Err(message) => parsed_reminder(time@) is None && message@ == invalid_reminder_message(time@),
        },
{
    match reminder_seconds(time) {
        Some(secs) => Ok(secs as i64),
        None => {
            let mut message = String::from_str("Invalid --reminder time: ");
            message.append(time);
            message.append(" (expected HH:MM)");
            Err(message)
        },
    }
}

} // verus!
