//! the days a repeat rule falls on: the first on or after a day, and the next after a day counting from an anchor

use crate::calendar::{
    day_in_index, day_of_index, day_parts, index_in_range, index_length, index_of_day,
    index_start, lemma_day_in_index_bounds, lemma_day_in_index_order, lemma_index_past_end,
    month_index, valid_day, week_start, week_start_spec, weekday_index, weekday_index_spec,
    ymd_spec, MAX_DAY, MAX_YEAR,
};
use crate::repeat::{Cadence, CadenceView, RepeatSpec};
use vstd::prelude::*;

verus! {

/// the weekdays a weekly cadence falls on: its own, or the anchor's when it names none
pub open spec fn weekly_days(days: Seq<u32>, anchor: int) -> Seq<u32> {
    if days.len() == 0 {
        seq![weekday_index_spec(anchor) as u32]
    } else {
        days
    }
}

/// a day on one of the weekdays, in a week a whole number of `every` weeks after the anchor's
pub open spec fn weekly_hit(days: Seq<u32>, anchor: int, every: int, d: int) -> bool {
    &&& days.contains(weekday_index_spec(d) as u32)
    &&& ((week_start_spec(d) - week_start_spec(anchor)) / 7) % every == 0
}

/// the day of the month a monthly cadence falls on: its own, or the anchor's
pub open spec fn monthly_day(day: Option<i32>, anchor: int) -> int {
    match day {
        Some(d) => d as int,
        None => ymd_spec(anchor).2,
    }
}

/// the month of a yearly cadence: its own, or the anchor's
pub open spec fn yearly_month(date: Option<(u32, u32)>, anchor: int) -> int {
    match date {
        Some((m, _)) => m as int,
        None => ymd_spec(anchor).1,
    }
}

/// the day of the month of a yearly cadence: its own, or the anchor's; one past `i32::MAX` reads as negative, the last day
pub open spec fn yearly_day(date: Option<(u32, u32)>, anchor: int) -> int {
    match date {
        Some((_, d)) => if d <= i32::MAX {
            d as int
        } else {
            -1
        },
        None => ymd_spec(anchor).2,
    }
}

/// the day `k` steps of `step` months after the counted month `base`
pub open spec fn stepped_day(base: int, step: int, day: int, k: int) -> int {
    day_in_index(base + k * step, day)
}

/// a day on or after the anchor that is the day of the month `base`, or of a month a whole number of steps of `step` months after it
pub open spec fn stepped_occurs(base: int, step: int, day: int, anchor: int, d: int) -> bool {
    &&& d >= anchor
    &&& exists|k: int| k >= 0 && d == #[trigger] stepped_day(base, step, day, k)
}

/// the counted month a yearly cadence starts from
pub open spec fn yearly_base(date: Option<(u32, u32)>, anchor: int) -> int {
    month_index(ymd_spec(anchor).0, yearly_month(date, anchor))
}

/// a day the repeat rule `spec` falls on, counting from `anchor`
pub open spec fn occurs(spec: (CadenceView, i32), anchor: int, d: int) -> bool {
    let every = spec.1 as int;
    &&& d >= anchor
    &&& match spec.0 {
        CadenceView::Daily => (d - anchor) % every == 0,
        CadenceView::Weekly(days) => weekly_hit(weekly_days(days, anchor), anchor, every, d),
        CadenceView::Monthly(day) => stepped_occurs(
            index_of_day(anchor),
            every,
            monthly_day(day, anchor),
            anchor,
            d,
        ),
        CadenceView::Yearly(date) => stepped_occurs(
            yearly_base(date, anchor),
            12 * every,
            yearly_day(date, anchor),
            anchor,
            d,
        ),
        CadenceView::AfterCompletion(_) => false,
    }
}

/// `c` is the first day after `after` the rule falls on
pub open spec fn is_next(spec: (CadenceView, i32), anchor: int, after: int, c: int) -> bool {
    &&& occurs(spec, anchor, c)
    &&& c > after
    &&& forall|d: int| after < d < c ==> !#[trigger] occurs(spec, anchor, d)
}

/// the rule falls on some day after `after`
pub open spec fn has_next(spec: (CadenceView, i32), anchor: int, after: int) -> bool {
    exists|d: int| d > after && #[trigger] occurs(spec, anchor, d)
}

/// where a weekly search begins
pub open spec fn search_start(anchor: int, after: int) -> int {
    if after < anchor {
        anchor
    } else {
        after + 1
    }
}

/// a day of the month other than 0, and a month of the year
pub open spec fn cadence_fits(cadence: CadenceView) -> bool {
    match cadence {
        CadenceView::Monthly(Some(d)) => d != 0,
        CadenceView::Yearly(Some((m, d))) => 1 <= m <= 12 && d != 0,
        _ => true,
    }
}

/// the rules the occurrence search takes: every at least 1, and a cadence that fits the calendar
pub open spec fn well_formed(spec: (CadenceView, i32)) -> bool {
    &&& spec.1 >= 1
    &&& cadence_fits(spec.0)
}

/// the first day on or after `from` a cadence picks
pub open spec fn is_first(cadence: CadenceView, from: int, r: int) -> bool {
    match cadence {
        CadenceView::Weekly(days) => if days.len() > 0 {
            &&& from <= r < from + 7
            &&& days.contains(weekday_index_spec(r) as u32)
            &&& forall|d: int| from <= d < r ==> !days.contains(#[trigger] weekday_index_spec(d) as u32)
        } else {
            r == from
        },
        CadenceView::Monthly(Some(day)) => {
            let this = day_in_index(index_of_day(from), day as int);
            r == if this >= from {
                this
            } else {
                day_in_index(index_of_day(from) + 1, day as int)
            }
        },
        CadenceView::Yearly(Some(date)) => {
            let year = ymd_spec(from).0;
            let day = yearly_day(Some(date), from);
            let this = day_in_index(month_index(year, date.0 as int), day);
            r == if this >= from {
                this
            } else {
                day_in_index(month_index(year + 1, date.0 as int), day)
            }
        },
        _ => r == from,
    }
}

/// the first day search stays within the calendar: a weekday of the list comes within a week and within the calendar, and the month or year after `from` is within it where the search needs it
pub open spec fn first_in_reach(cadence: CadenceView, from: int) -> bool {
    match cadence {
        CadenceView::Weekly(days) => days.len() > 0 ==> exists|a: int|
            0 <= a < 7 && from + a <= MAX_DAY && days.contains(
                #[trigger] weekday_index_spec(from + a) as u32,
            ),
        CadenceView::Monthly(Some(day)) => day_in_index(index_of_day(from), day as int) < from
            ==> index_of_day(from) + 1 <= month_index(MAX_YEAR as int, 12),
        CadenceView::Yearly(Some(date)) => day_in_index(
            month_index(ymd_spec(from).0, date.0 as int),
            yearly_day(Some(date), from),
        ) < from ==> ymd_spec(from).0 + 1 <= MAX_YEAR,
        _ => true,
    }
}

/// the search for the next day stays within the calendar: some day after `after` and within the calendar falls on the rule, or, where none ever does, the week search's last day is within it
pub open spec fn next_in_reach(spec: (CadenceView, i32), anchor: int, after: int) -> bool {
    ||| spec.0 is AfterCompletion
    ||| exists|c: int| after < c <= MAX_DAY && #[trigger] occurs(spec, anchor, c)
    ||| spec.0 is Weekly && !has_next(spec, anchor, after) && search_start(anchor, after) + 7
        * spec.1 + 7 <= MAX_DAY
}

/// the weekday is one of the list
fn holds(days: &Vec<u32>, w: u32) -> (found: bool)
    ensures
        found == days@.contains(w),
{
    let mut i: usize = 0;
    while i < days.len()
        invariant
            i <= days.len(),
            forall|j: int| 0 <= j < i ==> days@[j] != w,
        decreases days.len() - i,
    {
        if days[i] == w {
            return true;
        }
        i += 1;
    }
    false
}

/// the Sunday starting a day's week is the day's week counted in sevens
proof fn lemma_week(x: int)
    ensures
        week_start_spec(x) == 7 * (x / 7),
        0 <= x % 7 < 7,
        x == 7 * (x / 7) + x % 7,
{
    vstd::arithmetic::div_mod::lemma_fundamental_div_mod(x, 7);
    vstd::arithmetic::div_mod::lemma_mod_bound(x, 7);
}

/// the weeks between two days' weeks
proof fn lemma_weeks_between(a: int, d: int)
    ensures
        (week_start_spec(d) - week_start_spec(a)) / 7 == d / 7 - a / 7,
{
    lemma_week(a);
    lemma_week(d);
    vstd::arithmetic::div_mod::lemma_fundamental_div_mod_converse(
        week_start_spec(d) - week_start_spec(a),
        7,
        d / 7 - a / 7,
        0,
    );
}

/// a weekly rule that falls on some day on or after `start` falls on one within `7 * every + 7` days of it
proof fn lemma_weekly_window(days: Seq<u32>, anchor: int, every: int, start: int, d: int)
    requires
        every >= 1,
        start >= anchor,
        d >= start,
        weekly_hit(days, anchor, every, d),
    ensures
        exists|e: int|
            start <= e <= start + 7 * every + 7 && #[trigger] weekly_hit(days, anchor, every, e),
{
    lemma_weeks_between(anchor, d);
    lemma_week(d);
    lemma_week(start);
    lemma_week(anchor);
    let w = d % 7;
    let a = anchor / 7;
    let s = start / 7 - a;
    assert(s >= 0) by {
        vstd::arithmetic::div_mod::lemma_div_is_ordered(anchor, start, 7);
    }
    let q = s / every;
    vstd::arithmetic::div_mod::lemma_fundamental_div_mod(s, every);
    vstd::arithmetic::div_mod::lemma_mod_bound(s, every);
    let t = q * every + every;
    assert(s < t <= s + every) by {
        vstd::arithmetic::mul::lemma_mul_is_commutative(q, every);
    }
    assert(t % every == 0) by {
        vstd::arithmetic::mul::lemma_mul_is_distributive_add_other_way(every, q, 1);
        vstd::arithmetic::div_mod::lemma_mod_multiples_basic(q + 1, every);
    }
    let e = 7 * (a + t) + w;
    vstd::arithmetic::div_mod::lemma_fundamental_div_mod_converse(e, 7, a + t, w);
    lemma_weeks_between(anchor, e);
    assert(weekly_hit(days, anchor, every, e));
    assert(start <= e <= start + 7 * every + 7);
}

/// the first day after `after` a daily rule falls on, wherever it falls
fn daily_after(every: i32, anchor: i32, after: i32) -> (c: i64)
    requires
        every >= 1,
        valid_day(anchor as int),
        valid_day(after as int),
    ensures
        is_next((CadenceView::Daily, every), anchor as int, after as int, c as int),
        c <= after + every || c == anchor,
{
    let ghost spec = (CadenceView::Daily, every);
    if after < anchor {
        assert(occurs(spec, anchor as int, anchor as int)) by {
            vstd::arithmetic::div_mod::lemma_small_mod(0, every as nat);
        }
        return anchor as i64;
    }
    let elapsed = after as i64 - anchor as i64;
    let step = every as i64;
    let q = elapsed / step;
    proof {
        vstd::arithmetic::div_mod::lemma_fundamental_div_mod(elapsed as int, step as int);
        vstd::arithmetic::div_mod::lemma_mod_bound(elapsed as int, step as int);
        vstd::arithmetic::mul::lemma_mul_is_commutative(q as int, step as int);
    }
    let ahead = q * step + step;
    let ghost c = anchor + ahead;
    proof {
        assert(ahead == (q + 1) * step) by {
            vstd::arithmetic::mul::lemma_mul_is_distributive_add_other_way(step as int, q as int, 1);
        }
        vstd::arithmetic::div_mod::lemma_mod_multiples_basic(q + 1, step as int);
        assert(q * step <= elapsed < ahead) by {
            vstd::arithmetic::mul::lemma_mul_is_commutative(q as int, step as int);
        }
        assert forall|d: int| after < d < c implies !#[trigger] occurs(spec, anchor as int, d) by {
            if occurs(spec, anchor as int, d) {
                let j = (d - anchor) / (step as int);
                vstd::arithmetic::div_mod::lemma_fundamental_div_mod(d - anchor, step as int);
                assert(d - anchor == step * j);
                // a multiple of the step strictly between two neighbouring multiples
                assert(q * step < j * step < (q + 1) * step) by {
                    vstd::arithmetic::mul::lemma_mul_is_commutative(j, step as int);
                }
                vstd::arithmetic::mul::lemma_mul_strict_inequality_converse(q as int, j, step as int);
                vstd::arithmetic::mul::lemma_mul_strict_inequality_converse(j, q + 1, step as int);
            }
        }
        assert(occurs(spec, anchor as int, c));
        assert(is_next(spec, anchor as int, after as int, c));
    }
    anchor as i64 + ahead
}

/// the next day of a daily rule
fn daily_next(every: i32, anchor: i32, after: i32) -> (c: i32)
    requires
        every >= 1,
        valid_day(anchor as int),
        valid_day(after as int),
        next_in_reach((CadenceView::Daily, every), anchor as int, after as int),
    ensures
        is_next((CadenceView::Daily, every), anchor as int, after as int, c as int),
{
    let c = daily_after(every, anchor, after);
    proof {
        // the requires names a day within the calendar the rule falls on; the next one comes no later
        let w = choose|w: int|
            after < w <= MAX_DAY && #[trigger] occurs((CadenceView::Daily, every), anchor as int, w);
        assert(c <= w);
    }
    c as i32
}

/// a daily rule falls on some day after `after` within the calendar
fn daily_reachable(every: i32, anchor: i32, after: i32) -> (reach: bool)
    requires
        every >= 1,
        valid_day(anchor as int),
        valid_day(after as int),
    ensures
        reach == next_in_reach((CadenceView::Daily, every), anchor as int, after as int),
{
    let c = daily_after(every, anchor, after);
    proof {
        if exists|w: int| after < w <= MAX_DAY && #[trigger] occurs((CadenceView::Daily, every), anchor as int, w) {
            let w = choose|w: int|
                after < w <= MAX_DAY && #[trigger] occurs((CadenceView::Daily, every), anchor as int, w);
            assert(c <= w);
        }
    }
    c <= MAX_DAY as i64
}

/// the next day of a weekly rule, None when it names no weekday at all
fn weekly_next(days: &Vec<u32>, every: i32, anchor: i32, after: i32) -> (r: Option<i32>)
    requires
        every >= 1,
        valid_day(anchor as int),
        valid_day(after as int),
        next_in_reach((CadenceView::Weekly(days@), every), anchor as int, after as int),
    ensures
        match r {
            Some(c) => is_next((CadenceView::Weekly(days@), every), anchor as int, after as int, c as int),
            None => !has_next((CadenceView::Weekly(days@), every), anchor as int, after as int),
        },
{
    let ghost spec = (CadenceView::Weekly(days@), every);
    let own: Vec<u32> = if days.len() == 0 {
        vec![weekday_index(anchor)]
    } else {
        days.clone()
    };
    assert(own@ == weekly_days(days@, anchor as int));
    let base = week_start(anchor);
    let start: i64 = if after < anchor {
        anchor as i64
    } else {
        after as i64 + 1
    };
    let limit: i64 = 7 * every as i64 + 7;
    let mut ahead: i64 = 0;
    while ahead <= limit
        invariant
            0 <= ahead <= limit + 1,
            start == search_start(anchor as int, after as int),
            limit == 7 * every + 7,
            own@ == weekly_days(days@, anchor as int),
            base == week_start_spec(anchor as int),
            every >= 1,
            valid_day(anchor as int),
            valid_day(after as int),
            spec == (CadenceView::Weekly(days@), every),
            next_in_reach(spec, anchor as int, after as int),
            forall|d: int| start <= d < start + ahead ==> !#[trigger] occurs(spec, anchor as int, d),
        decreases limit + 1 - ahead,
    {
        let next = start + ahead;
        if next > MAX_DAY as i64 {
            proof {
                if exists|c: int| after < c <= MAX_DAY && #[trigger] occurs(spec, anchor as int, c) {
                    let c = choose|c: int| after < c <= MAX_DAY && #[trigger] occurs(spec, anchor as int, c);
                    assert(start <= c < start + ahead);
                }
                assert(false);
            }
            return None;
        }
        let day = next as i32;
        let w = weekday_index(day);
        proof {
            lemma_week(day as int);
            lemma_week(anchor as int);
            vstd::arithmetic::div_mod::lemma_div_is_ordered(anchor as int, day as int, 7);
            lemma_weeks_between(anchor as int, day as int);
        }
        if holds(&own, w) && ((week_start(day) - base) / 7) % every == 0 {
            assert(occurs(spec, anchor as int, day as int));
            return Some(day);
        }
        assert(!occurs(spec, anchor as int, day as int));
        ahead += 1;
    }
    proof {
        assert forall|d: int| d > after implies !#[trigger] occurs(spec, anchor as int, d) by {
            if occurs(spec, anchor as int, d) {
                lemma_weekly_window(own@, anchor as int, every as int, start as int, d);
                let e = choose|e: int|
                    start <= e <= start + 7 * every + 7 && #[trigger] weekly_hit(
                        own@,
                        anchor as int,
                        every as int,
                        e,
                    );
                assert(occurs(spec, anchor as int, e));
            }
        }
    }
    None
}

/// a weekly rule falls on some day after `after` within the calendar, or falls on none and the week search stays within it
fn weekly_reachable(days: &Vec<u32>, every: i32, anchor: i32, after: i32) -> (reach: bool)
    requires
        every >= 1,
        valid_day(anchor as int),
        valid_day(after as int),
    ensures
        reach == next_in_reach((CadenceView::Weekly(days@), every), anchor as int, after as int),
{
    let ghost spec = (CadenceView::Weekly(days@), every);
    let own: Vec<u32> = if days.len() == 0 {
        vec![weekday_index(anchor)]
    } else {
        days.clone()
    };
    assert(own@ == weekly_days(days@, anchor as int));
    let base = week_start(anchor);
    let start: i64 = if after < anchor {
        anchor as i64
    } else {
        after as i64 + 1
    };
    let limit: i64 = 7 * every as i64 + 7;
    let mut ahead: i64 = 0;
    while ahead <= limit
        invariant
            0 <= ahead <= limit + 1,
            start == search_start(anchor as int, after as int),
            limit == 7 * every + 7,
            own@ == weekly_days(days@, anchor as int),
            base == week_start_spec(anchor as int),
            every >= 1,
            valid_day(anchor as int),
            valid_day(after as int),
            spec == (CadenceView::Weekly(days@), every),
            start + ahead - 1 <= MAX_DAY,
            forall|d: int| start <= d < start + ahead ==> !#[trigger] occurs(spec, anchor as int, d),
        decreases limit + 1 - ahead,
    {
        let next = start + ahead;
        if next > MAX_DAY as i64 {
            proof {
                if exists|c: int| after < c <= MAX_DAY && #[trigger] occurs(spec, anchor as int, c) {
                    let c = choose|c: int| after < c <= MAX_DAY && #[trigger] occurs(spec, anchor as int, c);
                    assert(start <= c < start + ahead);
                }
            }
            return false;
        }
        let day = next as i32;
        let w = weekday_index(day);
        proof {
            lemma_week(day as int);
            lemma_week(anchor as int);
            vstd::arithmetic::div_mod::lemma_div_is_ordered(anchor as int, day as int, 7);
            lemma_weeks_between(anchor as int, day as int);
        }
        if holds(&own, w) && ((week_start(day) - base) / 7) % every == 0 {
            assert(occurs(spec, anchor as int, day as int));
            return true;
        }
        assert(!occurs(spec, anchor as int, day as int));
        ahead += 1;
    }
    proof {
        assert forall|d: int| d > after implies !#[trigger] occurs(spec, anchor as int, d) by {
            if occurs(spec, anchor as int, d) {
                lemma_weekly_window(own@, anchor as int, every as int, start as int, d);
                let e = choose|e: int|
                    start <= e <= start + 7 * every + 7 && #[trigger] weekly_hit(
                        own@,
                        anchor as int,
                        every as int,
                        e,
                    );
                assert(occurs(spec, anchor as int, e));
            }
        }
        assert(!has_next(spec, anchor as int, after as int));
    }
    true
}

/// the days of later steps come later
proof fn lemma_stepped_order(base: int, step: int, day: int, j: int, k: int)
    requires
        step >= 1,
        day != 0,
        0 <= j < k,
    ensures
        stepped_day(base, step, day, j) < stepped_day(base, step, day, k),
{
    vstd::arithmetic::mul::lemma_mul_strict_inequality(j, k, step);
    lemma_day_in_index_order(base + j * step, base + k * step, day);
}

/// the first day after `after`, on or after `anchor`, of the month `base` or of a month a whole number of steps of `step` months after it
fn stepped_next(base: i64, step: i64, day: i32, anchor: i32, after: i32) -> (c: i32)
    requires
        step >= 1,
        day != 0,
        index_in_range(base as int),
        exists|c: int|
            after < c <= MAX_DAY && #[trigger] stepped_occurs(
                base as int,
                step as int,
                day as int,
                anchor as int,
                c,
            ),
    ensures
        stepped_occurs(base as int, step as int, day as int, anchor as int, c as int),
        c > after,
        forall|d: int|
            after < d < c ==> !#[trigger] stepped_occurs(
                base as int,
                step as int,
                day as int,
                anchor as int,
                d,
            ),
{
    let ghost top = month_index(MAX_YEAR as int, 12);
    let ghost w = choose|c: int|
        after < c <= MAX_DAY && #[trigger] stepped_occurs(
            base as int,
            step as int,
            day as int,
            anchor as int,
            c,
        );
    let ghost kw = choose|k: int|
        k >= 0 && w == #[trigger] stepped_day(base as int, step as int, day as int, k);
    let mut i: i64 = base;
    let ghost mut k: int = 0;
    loop
        invariant
            step >= 1,
            day != 0,
            k >= 0,
            top == month_index(MAX_YEAR as int, 12),
            i == base + k * step,
            index_in_range(i as int),
            index_in_range(base as int),
            after < w <= MAX_DAY,
            w >= anchor,
            kw >= 0,
            w == stepped_day(base as int, step as int, day as int, kw),
            forall|j: int|
                0 <= j < k ==> !(#[trigger] stepped_day(base as int, step as int, day as int, j)
                    > after && stepped_day(base as int, step as int, day as int, j) >= anchor),
        decreases top - i,
    {
        let cand = day_of_index(i, day);
        if cand > after && cand >= anchor {
            proof {
                assert(cand == stepped_day(base as int, step as int, day as int, k));
                assert(stepped_occurs(base as int, step as int, day as int, anchor as int, cand as int));
                assert forall|d: int| after < d < cand implies !#[trigger] stepped_occurs(
                    base as int,
                    step as int,
                    day as int,
                    anchor as int,
                    d,
                ) by {
                    if stepped_occurs(base as int, step as int, day as int, anchor as int, d) {
                        let j = choose|j: int|
                            j >= 0 && d == #[trigger] stepped_day(base as int, step as int, day as int, j);
                        if j > k {
                            lemma_stepped_order(base as int, step as int, day as int, k, j);
                        } else if j < k {
                            assert(!(stepped_day(base as int, step as int, day as int, j) > after
                                && stepped_day(base as int, step as int, day as int, j) >= anchor));
                        }
                    }
                }
            }
            return cand;
        }
        proof {
            // the witness lies at a later step, within the calendar, so the next step does too
            if kw < k {
                assert(!(stepped_day(base as int, step as int, day as int, kw) > after
                    && stepped_day(base as int, step as int, day as int, kw) >= anchor));
            }
            assert(kw != k);
            vstd::arithmetic::mul::lemma_mul_inequality(k + 1, kw, step as int);
            vstd::arithmetic::mul::lemma_mul_is_distributive_add_other_way(step as int, k, 1);
            lemma_day_in_index_bounds(base + kw * step, day as int);
            if base + kw * step > top {
                lemma_index_past_end(base + kw * step);
            }
        }
        i = i + step;
        proof {
            k = k + 1;
        }
    }
}

/// some day after `after` within the calendar, on or after `anchor`, is the day of the month `base` or of a month a whole number of steps of `step` months after it
fn stepped_reachable(base: i64, step: i64, day: i32, anchor: i32, after: i32) -> (reach: bool)
    requires
        1 <= step <= 12 * i32::MAX,
        day != 0,
        index_in_range(base as int),
    ensures
        reach == exists|c: int|
            after < c <= MAX_DAY && #[trigger] stepped_occurs(
                base as int,
                step as int,
                day as int,
                anchor as int,
                c,
            ),
{
    let top: i64 = MAX_YEAR as i64 * 12 + 11;
    let mut i: i64 = base;
    let ghost mut k: int = 0;
    while i <= top
        invariant
            1 <= step <= 12 * i32::MAX,
            day != 0,
            k >= 0,
            top == month_index(MAX_YEAR as int, 12),
            i == base + k * step,
            base <= i <= top + step,
            index_in_range(base as int),
            forall|j: int|
                0 <= j < k ==> !(#[trigger] stepped_day(base as int, step as int, day as int, j)
                    > after && stepped_day(base as int, step as int, day as int, j) >= anchor),
        decreases top + step - i,
    {
        let cand = day_of_index(i, day);
        if cand > after && cand >= anchor {
            proof {
                assert(cand == stepped_day(base as int, step as int, day as int, k));
                assert(stepped_occurs(base as int, step as int, day as int, anchor as int, cand as int));
            }
            return true;
        }
        proof {
            assert(!(stepped_day(base as int, step as int, day as int, k) > after && stepped_day(
                base as int,
                step as int,
                day as int,
                k,
            ) >= anchor));
            vstd::arithmetic::mul::lemma_mul_is_distributive_add_other_way(step as int, k, 1);
        }
        i = i + step;
        proof {
            k = k + 1;
        }
    }
    proof {
        if exists|c: int|
            after < c <= MAX_DAY && #[trigger] stepped_occurs(
                base as int,
                step as int,
                day as int,
                anchor as int,
                c,
            ) {
            let w = choose|c: int|
                after < c <= MAX_DAY && #[trigger] stepped_occurs(
                    base as int,
                    step as int,
                    day as int,
                    anchor as int,
                    c,
                );
            let kw = choose|j: int|
                j >= 0 && w == #[trigger] stepped_day(base as int, step as int, day as int, j);
            if kw < k {
                assert(!(stepped_day(base as int, step as int, day as int, kw) > after
                    && stepped_day(base as int, step as int, day as int, kw) >= anchor));
            } else {
                vstd::arithmetic::mul::lemma_mul_inequality(k, kw, step as int);
                lemma_day_in_index_bounds(base + kw * step, day as int);
                lemma_index_past_end(base + kw * step);
            }
        }
    }
    false
}

impl RepeatSpec {
    /// the first occurrence on or after `from`
    pub fn first_occurrence(&self, from: i32) -> (first: i32)
        requires
            cadence_fits(self@.0),
            valid_day(from as int),
            first_in_reach(self@.0, from as int),
        ensures
            is_first(self@.0, from as int, first as int),
            first >= from,
            valid_day(first as int),
    {
        match &self.cadence {
            Cadence::Weekly(days) => {
                if days.len() == 0 {
                    return from;
                }
                let mut ahead: i64 = 0;
                while ahead < 7
                    invariant
                        0 <= ahead <= 7,
                        self@.0 == CadenceView::Weekly(days@),
                        days@.len() > 0,
                        valid_day(from as int),
                        first_in_reach(CadenceView::Weekly(days@), from as int),
                        forall|d: int|
                            from <= d < from + ahead ==> !days@.contains(
                                #[trigger] weekday_index_spec(d) as u32,
                            ),
                    decreases 7 - ahead,
                {
                    let next = from as i64 + ahead;
                    if next > MAX_DAY as i64 {
                        proof {
                            let a = choose|a: int|
                                0 <= a < 7 && from + a <= MAX_DAY && days@.contains(
                                    #[trigger] weekday_index_spec(from + a) as u32,
                                );
                            assert(from <= from + a < from + ahead);
                        }
                        return from;
                    }
                    let day = next as i32;
                    if holds(days, weekday_index(day)) {
                        return day;
                    }
                    ahead += 1;
                }
                proof {
                    let a = choose|a: int|
                        0 <= a < 7 && from + a <= MAX_DAY && days@.contains(
                            #[trigger] weekday_index_spec(from + a) as u32,
                        );
                    assert(from <= from + a < from + ahead);
                }
                from
            },
            Cadence::Monthly(Some(day)) => {
                let (_, _, _, i) = day_parts(from);
                let this = day_of_index(i, *day);
                if this >= from {
                    return this;
                }
                proof {
                    lemma_day_in_index_bounds(i as int, *day as int);
                    lemma_day_in_index_bounds(i + 1, *day as int);
                    crate::calendar::lemma_month_step(i as int);
                }
                day_of_index(i + 1, *day)
            },
            Cadence::Yearly(Some((month, day))) => {
                let (year, _, _, i) = day_parts(from);
                let chosen: i32 = if *day <= i32::MAX as u32 {
                    *day as i32
                } else {
                    -1
                };
                let this = day_of_index(year as i64 * 12 + *month as i64 - 1, chosen);
                if this >= from {
                    return this;
                }
                proof {
                    let j = month_index(year as int, *month as int);
                    lemma_day_in_index_bounds(j, chosen as int);
                    lemma_day_in_index_bounds(j + 12, chosen as int);
                    crate::calendar::lemma_month_step(j);
                    crate::calendar::lemma_index_start_order(j + 1, j + 12);
                    // the month a year on is after the month of `from`
                    crate::calendar::lemma_month_step(i as int);
                    crate::calendar::lemma_index_start_order(i + 1, j + 12);
                }
                day_of_index((year as i64 + 1) * 12 + *month as i64 - 1, chosen)
            },
            _ => from,
        }
    }

    /// the first occurrence on or after `from` is within the calendar, so `first_occurrence` can look for it
    pub fn first_reachable(&self, from: i32) -> (reach: bool)
        requires
            cadence_fits(self@.0),
            valid_day(from as int),
        ensures
            reach == first_in_reach(self@.0, from as int),
    {
        match &self.cadence {
            Cadence::Weekly(days) => {
                if days.len() == 0 {
                    return true;
                }
                let mut ahead: i64 = 0;
                while ahead < 7
                    invariant
                        0 <= ahead <= 7,
                        valid_day(from as int),
                        self@.0 == CadenceView::Weekly(days@),
                        days@.len() > 0,
                        forall|a: int|
                            0 <= a < ahead ==> !(from + a <= MAX_DAY && days@.contains(
                                #[trigger] weekday_index_spec(from + a) as u32,
                            )),
                    decreases 7 - ahead,
                {
                    let next = from as i64 + ahead;
                    if next > MAX_DAY as i64 {
                        assert forall|a: int|
                            0 <= a < 7 implies !(from + a <= MAX_DAY && days@.contains(
                                #[trigger] weekday_index_spec(from + a) as u32,
                            )) by {
                            if a >= ahead {
                                assert(from + a > MAX_DAY);
                            }
                        }
                        return false;
                    }
                    let w = weekday_index(next as i32);
                    if holds(days, w) {
                        assert(days@.contains(weekday_index_spec(from + ahead) as u32));
                        return true;
                    }
                    ahead += 1;
                }
                false
            },
            Cadence::Monthly(Some(day)) => {
                let (_, _, _, i) = day_parts(from);
                let this = day_of_index(i, *day);
                this >= from || i + 1 <= MAX_YEAR as i64 * 12 + 11
            },
            Cadence::Yearly(Some((month, day))) => {
                let (year, _, _, _) = day_parts(from);
                let chosen: i32 = if *day <= i32::MAX as u32 {
                    *day as i32
                } else {
                    -1
                };
                let this = day_of_index(year as i64 * 12 + *month as i64 - 1, chosen);
                this >= from || year < MAX_YEAR
            },
            _ => true,
        }
    }

    /// the search for the occurrence after `after` stays within the calendar, so `next_occurrence` can make it
    pub fn next_reachable(&self, anchor: i32, after: i32) -> (reach: bool)
        requires
            well_formed(self@),
            valid_day(anchor as int),
            valid_day(after as int),
        ensures
            reach == next_in_reach(self@, anchor as int, after as int),
    {
        match &self.cadence {
            Cadence::Daily => daily_reachable(self.every, anchor, after),
            Cadence::Weekly(days) => weekly_reachable(days, self.every, anchor, after),
            Cadence::Monthly(own) => {
                let (_, _, anchor_day, i) = day_parts(anchor);
                let day = match own {
                    Some(day) => *day,
                    None => anchor_day as i32,
                };
                let reach = stepped_reachable(i, self.every as i64, day, anchor, after);
                proof {
                    if reach {
                        let c = choose|c: int|
                            after < c <= MAX_DAY && #[trigger] stepped_occurs(
                                i as int,
                                self.every as int,
                                day as int,
                                anchor as int,
                                c,
                            );
                        assert(occurs(self@, anchor as int, c));
                    } else {
                        assert forall|c: int| after < c <= MAX_DAY implies !#[trigger] occurs(
                            self@,
                            anchor as int,
                            c,
                        ) by {
                            assert(!stepped_occurs(i as int, self.every as int, day as int, anchor as int, c));
                        }
                    }
                }
                reach
            },
            Cadence::Yearly(own) => {
                let (year, anchor_month, anchor_day, _) = day_parts(anchor);
                let (month, day) = match own {
                    Some((month, day)) => (
                        *month,
                        if *day <= i32::MAX as u32 {
                            *day as i32
                        } else {
                            -1
                        },
                    ),
                    None => (anchor_month, anchor_day as i32),
                };
                let base = year as i64 * 12 + month as i64 - 1;
                let step = 12 * self.every as i64;
                let reach = stepped_reachable(base, step, day, anchor, after);
                proof {
                    if reach {
                        let c = choose|c: int|
                            after < c <= MAX_DAY && #[trigger] stepped_occurs(
                                base as int,
                                step as int,
                                day as int,
                                anchor as int,
                                c,
                            );
                        assert(occurs(self@, anchor as int, c));
                    } else {
                        assert forall|c: int| after < c <= MAX_DAY implies !#[trigger] occurs(
                            self@,
                            anchor as int,
                            c,
                        ) by {
                            assert(!stepped_occurs(base as int, step as int, day as int, anchor as int, c));
                        }
                    }
                }
                reach
            },
            Cadence::AfterCompletion(_) => true,
        }
    }

    /// the occurrence after `after`, counting intervals from `anchor`, which need not be an occurrence itself, None after completion
    pub fn next_occurrence(&self, anchor: i32, after: i32) -> (next: Option<i32>)
        requires
            well_formed(self@),
            valid_day(anchor as int),
            valid_day(after as int),
            next_in_reach(self@, anchor as int, after as int),
        ensures
            match next {
                Some(c) => is_next(self@, anchor as int, after as int, c as int),
                None => !has_next(self@, anchor as int, after as int),
            },
    {
        match &self.cadence {
            Cadence::Daily => Some(daily_next(self.every, anchor, after)),
            Cadence::Weekly(days) => weekly_next(days, self.every, anchor, after),
            Cadence::Monthly(own) => {
                let (_, _, anchor_day, i) = day_parts(anchor);
                let day = match own {
                    Some(day) => *day,
                    None => anchor_day as i32,
                };
                proof {
                    let c = choose|c: int|
                        after < c <= MAX_DAY && #[trigger] occurs(self@, anchor as int, c);
                    assert(stepped_occurs(i as int, self.every as int, day as int, anchor as int, c));
                }
                let c = stepped_next(i, self.every as i64, day, anchor, after);
                proof {
                    assert forall|d: int| after < d < c implies !#[trigger] occurs(
                        self@,
                        anchor as int,
                        d,
                    ) by {
                        assert(!stepped_occurs(i as int, self.every as int, day as int, anchor as int, d));
                    }
                }
                Some(c)
            },
            Cadence::Yearly(own) => {
                let (year, anchor_month, anchor_day, _) = day_parts(anchor);
                let (month, day) = match own {
                    Some((month, day)) => (
                        *month,
                        if *day <= i32::MAX as u32 {
                            *day as i32
                        } else {
                            -1
                        },
                    ),
                    None => (anchor_month, anchor_day as i32),
                };
                let base = year as i64 * 12 + month as i64 - 1;
                let step = 12 * self.every as i64;
                proof {
                    let c = choose|c: int|
                        after < c <= MAX_DAY && #[trigger] occurs(self@, anchor as int, c);
                    assert(stepped_occurs(base as int, step as int, day as int, anchor as int, c));
                }
                let c = stepped_next(base, step, day, anchor, after);
                proof {
                    assert forall|d: int| after < d < c implies !#[trigger] occurs(
                        self@,
                        anchor as int,
                        d,
                    ) by {
                        assert(!stepped_occurs(base as int, step as int, day as int, anchor as int, d));
                    }
                }
                Some(c)
            },
            Cadence::AfterCompletion(_) => None,
        }
    }
}

} // verus!
