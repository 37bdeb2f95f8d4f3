//! the days of the hidden template behind a repeating to-do: the day it makes its next instance, and for a repeat after completion the day its interval counts back to

use crate::calendar::{
    day_in_index, day_of_index, day_parts, index_of_day, month_index, valid_day, ymd_spec, MAX_DAY,
    MIN_DAY, MIN_YEAR,
};
use crate::repeat::occurrence::{has_next, is_next, next_in_reach, well_formed};
use crate::repeat::{CadenceView, RepeatSpec};
use crate::wire::FrequencyUnit;
use vstd::prelude::*;

verus! {

/// `n` days before `first`, None when the count does not fit an `i32` or the day falls before the calendar
pub open spec fn days_back(first: int, n: int) -> Option<int> {
    if n <= i32::MAX && first - n >= MIN_DAY {
        Some(first - n)
    } else {
        None
    }
}

/// `n` months before `first`, its day of the month cut to the length of that month, None when the count does not fit an `i32` or the month falls before the calendar
pub open spec fn months_back(first: int, n: int) -> Option<int> {
    let i = index_of_day(first) - n;
    if n <= i32::MAX && i >= month_index(MIN_YEAR as int, 1) {
        Some(day_in_index(i, ymd_spec(first).2))
    } else {
        None
    }
}

/// `every` units before `first`: days, weeks, months, or twelve months for a year; None when the count overflows or the day falls before the calendar
pub open spec fn interval_back(first: int, unit: FrequencyUnit, every: int) -> Option<int> {
    match unit {
        FrequencyUnit::Daily => days_back(first, every),
        FrequencyUnit::Weekly => if 7 * every <= u32::MAX {
            days_back(first, 7 * every)
        } else {
            None
        },
        FrequencyUnit::Monthly => months_back(first, every),
        _ => if 12 * every <= u32::MAX {
            months_back(first, 12 * every)
        } else {
            None
        },
    }
}

/// the day a template makes its next instance: the occurrence after the first, or the day after the first when the rule names none; None when that day lies beyond the calendar
pub open spec fn template_next(spec: (CadenceView, i32), first: int) -> Option<int> {
    if !next_in_reach(spec, first, first) {
        None
    } else if has_next(spec, first, first) {
        Some(choose|c: int| is_next(spec, first, first, c))
    } else if first < MAX_DAY {
        Some(first + 1)
    } else {
        None
    }
}

/// the days of a template whose first instance is on `first`: the day of its next instance, and for a repeat after completion the day its interval counts back to; None when one of them lies beyond the calendar
pub open spec fn template_days_spec(spec: (CadenceView, i32), first: int) -> Option<(int, Option<int>)> {
    match template_next(spec, first) {
        None => None,
        Some(next) => match spec.0 {
            CadenceView::AfterCompletion(unit) => match interval_back(first, unit, spec.1 as int) {
                Some(back) => Some((next, Some(back))),
                None => None,
            },
            _ => Some((next, None)),
        },
    }
}

/// the first day a rule falls on after `after` is the only one
proof fn lemma_next_unique(spec: (CadenceView, i32), anchor: int, after: int, a: int, b: int)
    requires
        is_next(spec, anchor, after, a),
        is_next(spec, anchor, after, b),
    ensures
        a == b,
{
    if a < b {
        assert(!crate::repeat::occurrence::occurs(spec, anchor, a));
    } else if b < a {
        assert(!crate::repeat::occurrence::occurs(spec, anchor, b));
    }
}

/// `n` days before `first`
fn days_before(first: i32, n: i64) -> (back: Option<i32>)
    requires
        valid_day(first as int),
        1 <= n <= 7 * i32::MAX,
    ensures
        match back {
            Some(b) => days_back(first as int, n as int) == Some(b as int) && valid_day(b as int),
            None => days_back(first as int, n as int) is None,
        },
{
    if n <= i32::MAX as i64 && first as i64 - n >= MIN_DAY as i64 {
        Some((first as i64 - n) as i32)
    } else {
        None
    }
}

/// `n` months before `first`, the day cut to the month's length
fn months_before(first: i32, n: i64) -> (back: Option<i32>)
    requires
        valid_day(first as int),
        1 <= n <= 12 * i32::MAX,
    ensures
        match back {
            Some(b) => months_back(first as int, n as int) == Some(b as int) && valid_day(b as int),
            None => months_back(first as int, n as int) is None,
        },
{
    let (_, _, day, i) = day_parts(first);
    if n <= i32::MAX as i64 && i - n >= MIN_YEAR as i64 * 12 {
        Some(day_of_index(i - n, day as i32))
    } else {
        None
    }
}

/// `every` units before `first`
pub fn interval_before(first: i32, unit: FrequencyUnit, every: i32) -> (back: Option<i32>)
    requires
        valid_day(first as int),
        every >= 1,
    ensures
        match back {
            Some(b) => interval_back(first as int, unit, every as int) == Some(b as int) && valid_day(b as int),
            None => interval_back(first as int, unit, every as int) is None,
        },
{
    match unit {
        FrequencyUnit::Daily => days_before(first, every as i64),
        FrequencyUnit::Weekly => {
            if 7 * (every as i64) <= u32::MAX as i64 {
                days_before(first, 7 * every as i64)
            } else {
                None
            }
        },
        FrequencyUnit::Monthly => months_before(first, every as i64),
        _ => {
            if 12 * (every as i64) <= u32::MAX as i64 {
                months_before(first, 12 * every as i64)
            } else {
                None
            }
        },
    }
}

impl RepeatSpec {
    /// the days of the template behind a repeating to-do whose first instance is on `first`: the day of its next instance, and for a repeat after completion the day its interval counts back to; None when one of them lies beyond the calendar
    pub fn template_days(&self, first: i32) -> (days: Option<(i32, Option<i32>)>)
        requires
            well_formed(self@),
            valid_day(first as int),
        ensures
            match template_days_spec(self@, first as int) {
                Some((next, back)) => days matches Some(d) && d.0 == next && valid_day(d.0 as int)
                    && match back {
                    Some(b) => d.1 == Some(b as i32) && valid_day(b),
                    None => d.1 is None,
                },
                None => days is None,
            },
    {
        if !self.next_reachable(first, first) {
            return None;
        }
        let next = match self.next_occurrence(first, first) {
            Some(c) => {
                proof {
                    assert(has_next(self@, first as int, first as int));
                    let chosen = choose|c: int| is_next(self@, first as int, first as int, c);
                    lemma_next_unique(self@, first as int, first as int, c as int, chosen);
                    // the next day falls on the rule within the calendar
                    if !(c <= MAX_DAY) {
                        if exists|w: int| first < w <= MAX_DAY && #[trigger] crate::repeat::occurrence::occurs(self@, first as int, w) {
                            let w = choose|w: int| first < w <= MAX_DAY && #[trigger] crate::repeat::occurrence::occurs(self@, first as int, w);
                            assert(w >= c);
                        }
                    }
                }
                c
            },
            None => {
                if first >= MAX_DAY {
                    return None;
                }
                first + 1
            },
        };
        match &self.cadence {
            crate::repeat::Cadence::AfterCompletion(unit) => match interval_before(first, *unit, self.every) {
                Some(back) => Some((next, Some(back))),
                None => None,
            },
            _ => Some((next, None)),
        }
    }
}

} // verus!
