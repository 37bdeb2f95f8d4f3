//! repeat rules as the wire holds them: the rule a spec writes, the spec a rule reads back as, and the next day a rule falls on

use crate::calendar::{
    day_of, day_of_spec, day_parts, day_timestamp, day_timestamp_spec, invalid_day_message,
    lemma_day_has_ymd, parse_day, parsed_day, valid_day, weekday_index, ymd_spec, UNIX_EPOCH_DAY,
};
use crate::common::{signed_decimal, signed_decimal_text};
use crate::repeat::occurrence::{
    cadence_fits, has_next, is_next, monthly_day, next_in_reach, weekly_days, well_formed,
};
use crate::repeat::{Cadence, CadenceView, RepeatSpec};
use crate::wire::{
    FrequencyUnit, RecurrenceRule, RecurrenceType, RuleOffset, RECURRENCE_END_NEVER,
};
use vstd::prelude::*;

verus! {

/// when a repeating to-do stops: never, after a day, or after a number of instances
#[derive(Debug, Clone, Copy, PartialEq, Eq, Structural)]
pub enum Bound {
    Never,
    Until(i32),
    Times(i32),
}

/// a key of a rule offset
#[derive(Debug, Clone, Copy, PartialEq, Eq, Structural)]
pub enum OffsetKey {
    /// `wd`
    Weekday,
    /// `dy`
    Day,
    /// `mo`
    Month,
}

/// the value an offset holds under a key
pub open spec fn offset_value(offset: RuleOffset, key: OffsetKey) -> Option<i64> {
    match key {
        OffsetKey::Weekday => offset.wd,
        OffsetKey::Day => offset.dy,
        OffsetKey::Month => offset.mo,
    }
}

/// the values the offsets hold under a key, in order
pub open spec fn field_values(offsets: Seq<RuleOffset>, key: OffsetKey) -> Seq<i64>
    decreases offsets.len(),
{
    if offsets.len() == 0 {
        seq![]
    } else {
        let rest = field_values(offsets.drop_last(), key);
        match offset_value(offsets.last(), key) {
            Some(v) => rest.push(v),
            None => rest,
        }
    }
}

/// the values that are weekdays a `u32` can hold, in order
pub open spec fn weekday_values(values: Seq<i64>) -> Seq<u32>
    decreases values.len(),
{
    if values.len() == 0 {
        seq![]
    } else {
        let rest = weekday_values(values.drop_last());
        let v = values.last();
        if 0 <= v <= u32::MAX {
            rest.push(v as u32)
        } else {
            rest
        }
    }
}

/// the wire day of a month as a cadence day: negative for the last, else counted from 1
pub open spec fn month_day_of(dy: i64) -> i32 {
    if dy < 0 {
        -1i32
    } else {
        ((dy as i32) + 1) as i32
    }
}

/// the timestamp a rule counts from: its anchor where positive, else the day it was made
pub open spec fn anchor_stamp(rule: RecurrenceRule) -> Option<i64> {
    match rule.interval_anchor {
        Some(a) if a > 0 => Some(a),
        _ => rule.start_date,
    }
}

/// the day a rule counts from
pub open spec fn rule_anchor(rule: RecurrenceRule) -> Option<i32> {
    match anchor_stamp(rule) {
        Some(stamp) => day_of_spec(stamp as int),
        None => None,
    }
}

/// a fixed schedule rule with a positive amount and a day to count from, the rules whose offsets are read
pub open spec fn reads_offsets(rule: RecurrenceRule) -> bool {
    &&& rule.recurrence_type == RecurrenceType::FixedSchedule
    &&& rule.frequency_amount >= 1
    &&& rule_anchor(rule) is Some
}

/// the offsets convert to days and months without overflow: the first `dy` of a monthly rule below `i32::MAX` as an `i32`, and the first `mo` and `dy` of a yearly rule below `u32::MAX` as `u32`s
pub open spec fn offsets_convert(rule: RecurrenceRule) -> bool {
    let dys = field_values(rule.offsets@, OffsetKey::Day);
    let mos = field_values(rule.offsets@, OffsetKey::Month);
    &&& rule.frequency_unit == FrequencyUnit::Monthly && dys.len() > 0 && dys[0] >= 0 ==> (
    dys[0] as i32) < i32::MAX
    &&& rule.frequency_unit == FrequencyUnit::Yearly && dys.len() > 0 && mos.len() > 0 ==> (
    mos[0] as u32) < u32::MAX && (dys[0] as u32) < u32::MAX
}

/// the cadence of a fixed schedule rule, None for the shapes that are not evaluated: the nth weekday of a month, an unknown unit
pub open spec fn rule_cadence(rule: RecurrenceRule) -> Option<CadenceView> {
    let wds = field_values(rule.offsets@, OffsetKey::Weekday);
    let dys = field_values(rule.offsets@, OffsetKey::Day);
    let mos = field_values(rule.offsets@, OffsetKey::Month);
    match rule.frequency_unit {
        FrequencyUnit::Daily => Some(CadenceView::Daily),
        FrequencyUnit::Weekly => Some(CadenceView::Weekly(weekday_values(wds))),
        FrequencyUnit::Monthly => if wds.len() > 0 {
            None
        } else {
            Some(
                CadenceView::Monthly(
                    if dys.len() > 0 {
                        Some(month_day_of(dys[0]))
                    } else {
                        None
                    },
                ),
            )
        },
        FrequencyUnit::Yearly => Some(
            CadenceView::Yearly(
                if mos.len() > 0 && dys.len() > 0 {
                    Some((((mos[0] as u32) + 1) as u32, ((dys[0] as u32) + 1) as u32))
                } else {
                    None
                },
            ),
        ),
        FrequencyUnit::Unknown(_) => None,
    }
}

/// the spec and anchor behind a fixed schedule rule, None for after completion, a non-positive amount, no day to count from, or a shape that is not evaluated
pub open spec fn rule_spec(rule: RecurrenceRule) -> Option<((CadenceView, i32), i32)> {
    if !reads_offsets(rule) {
        None
    } else {
        match rule_cadence(rule) {
            Some(cadence) => Some(((cadence, rule.frequency_amount), rule_anchor(rule)->0)),
            None => None,
        }
    }
}

/// the values of the offsets under a key
fn field(offsets: &Vec<RuleOffset>, key: OffsetKey) -> (values: Vec<i64>)
    ensures
        values@ == field_values(offsets@, key),
{
    let mut values: Vec<i64> = Vec::new();
    let mut i: usize = 0;
    while i < offsets.len()
        invariant
            i <= offsets.len(),
            values@ == field_values(offsets@.take(i as int), key),
        decreases offsets.len() - i,
    {
        let offset = offsets[i];
        let value = match key {
            OffsetKey::Weekday => offset.wd,
            OffsetKey::Day => offset.dy,
            OffsetKey::Month => offset.mo,
        };
        assert(offsets@.take(i + 1).drop_last() =~= offsets@.take(i as int));
        if let Some(v) = value {
            values.push(v);
        }
        i += 1;
    }
    assert(offsets@.take(offsets.len() as int) =~= offsets@);
    values
}

/// the values that are weekdays a `u32` can hold
fn weekdays(values: &Vec<i64>) -> (days: Vec<u32>)
    ensures
        days@ == weekday_values(values@),
{
    let mut days: Vec<u32> = Vec::new();
    let mut i: usize = 0;
    while i < values.len()
        invariant
            i <= values.len(),
            days@ == weekday_values(values@.take(i as int)),
        decreases values.len() - i,
    {
        let v = values[i];
        assert(values@.take(i + 1).drop_last() =~= values@.take(i as int));
        if 0 <= v && v <= u32::MAX as i64 {
            days.push(v as u32);
        }
        i += 1;
    }
    assert(values@.take(values.len() as int) =~= values@);
    days
}

impl RepeatSpec {
    /// the spec and anchor behind a fixed schedule rule from the wire, None for after completion or shapes the CLI cannot evaluate
    pub fn from_rule(rule: &RecurrenceRule) -> (found: Option<(RepeatSpec, i32)>)
        requires
            reads_offsets(*rule) ==> offsets_convert(*rule),
        ensures
            match found {
                Some((spec, anchor)) => rule_spec(*rule) == Some((spec@, anchor)),
                None => rule_spec(*rule) is None,
            },
    {
        if rule.recurrence_type != RecurrenceType::FixedSchedule || rule.frequency_amount < 1 {
            return None;
        }
        let stamp = match rule.interval_anchor {
            Some(a) if a > 0 => Some(a),
            _ => rule.start_date,
        };
        let anchor = match stamp {
            Some(stamp) => match day_of(stamp) {
                Some(anchor) => anchor,
                None => {
                    return None;
                },
            },
            None => {
                return None;
            },
        };
        let cadence = match rule.frequency_unit {
            FrequencyUnit::Daily => Cadence::Daily,
            FrequencyUnit::Weekly => Cadence::Weekly(
                weekdays(&field(&rule.offsets, OffsetKey::Weekday)),
            ),
            FrequencyUnit::Monthly => {
                // the nth weekday of a month is not evaluated
                if field(&rule.offsets, OffsetKey::Weekday).len() > 0 {
                    return None;
                }
                let dys = field(&rule.offsets, OffsetKey::Day);
                Cadence::Monthly(
                    if dys.len() > 0 {
                        Some(
                            if dys[0] < 0 {
                                -1
                            } else {
                                dys[0] as i32 + 1
                            },
                        )
                    } else {
                        None
                    },
                )
            },
            FrequencyUnit::Yearly => {
                let mos = field(&rule.offsets, OffsetKey::Month);
                let dys = field(&rule.offsets, OffsetKey::Day);
                Cadence::Yearly(
                    if mos.len() > 0 && dys.len() > 0 {
                        Some((mos[0] as u32 + 1, dys[0] as u32 + 1))
                    } else {
                        None
                    },
                )
            },
            FrequencyUnit::Unknown(_) => {
                return None;
            },
        };
        Some((RepeatSpec { cadence, every: rule.frequency_amount }, anchor))
    }
}

/// an offset holding only a weekday
pub open spec fn weekday_offset(day: u32) -> RuleOffset {
    RuleOffset { wd: Some(day as i64), dy: None, mo: None }
}

/// the offsets of the rule a cadence writes, its first day `first`
pub open spec fn written_offsets(cadence: CadenceView, first: int) -> Seq<RuleOffset> {
    match cadence {
        CadenceView::Daily => seq![RuleOffset { wd: None, dy: Some(0), mo: None }],
        CadenceView::Weekly(days) => weekly_days(days, first).map_values(
            |day: u32| weekday_offset(day),
        ),
        CadenceView::Monthly(day) => {
            let d = monthly_day(day, first);
            seq![
                RuleOffset {
                    wd: None,
                    dy: Some(
                        if d < 0 {
                            -1i64
                        } else {
                            (d - 1) as i64
                        },
                    ),
                    mo: None,
                },
            ]
        },
        CadenceView::Yearly(date) => {
            let (month, day) = match date {
                Some((m, d)) => (m as int, d as int),
                None => (ymd_spec(first).1, ymd_spec(first).2),
            };
            seq![RuleOffset { wd: None, dy: Some((day - 1) as i64), mo: Some((month - 1) as i64) }]
        },
        CadenceView::AfterCompletion(_) => seq![],
    }
}

/// the unit of the rule a cadence writes
pub open spec fn written_unit(cadence: CadenceView) -> FrequencyUnit {
    match cadence {
        CadenceView::Daily => FrequencyUnit::Daily,
        CadenceView::Weekly(_) => FrequencyUnit::Weekly,
        CadenceView::Monthly(_) => FrequencyUnit::Monthly,
        CadenceView::Yearly(_) => FrequencyUnit::Yearly,
        CadenceView::AfterCompletion(unit) => unit,
    }
}

/// the wire rule as the app writes it, `sr` the day the rule was made, `ia` the first occurrence
pub open spec fn is_written_rule(
    spec: (CadenceView, i32),
    first: int,
    today: int,
    bound: Bound,
    rule: RecurrenceRule,
) -> bool {
    let after_completion = spec.0 is AfterCompletion;
    &&& rule.recurrence_type == (if after_completion {
        RecurrenceType::AfterCompletion
    } else {
        RecurrenceType::FixedSchedule
    })
    &&& rule.frequency_unit == written_unit(spec.0)
    &&& rule.frequency_amount == spec.1
    &&& rule.offsets@ == written_offsets(spec.0, first)
    &&& rule.start_date == Some(day_timestamp_spec(today) as i64)
    &&& rule.interval_anchor == Some(
        if after_completion {
            0i64
        } else {
            day_timestamp_spec(first) as i64
        },
    )
    &&& rule.end_date == match bound {
        Bound::Until(day) => Some(day_timestamp_spec(day as int) as i64),
        Bound::Times(_) => None,
        Bound::Never => Some(RECURRENCE_END_NEVER),
    }
    &&& rule.repeat_count == match bound {
        Bound::Times(times) => times,
        _ => 0,
    }
    &&& rule.time_span_in_days == 0
    &&& rule.version == 4
}

/// an offset holding only a day
fn day_offset(dy: i64) -> (offset: RuleOffset)
    ensures
        offset == (RuleOffset { wd: None, dy: Some(dy), mo: None }),
{
    RuleOffset { wd: None, dy: Some(dy), mo: None }
}

impl RepeatSpec {
    /// the wire rule as the app writes it, `sr` the day the rule was made, `ia` the first occurrence
    pub fn rule(&self, first: i32, today: i32, bound: Bound) -> (rule: RecurrenceRule)
        requires
            valid_day(first as int),
            valid_day(today as int),
            bound matches Bound::Until(day) ==> valid_day(day as int),
        ensures
            is_written_rule(self@, first as int, today as int, bound, rule),
    {
        let (_, first_month, first_day, _) = day_parts(first);
        let (recurrence_type, frequency_unit, offsets, interval_anchor) = match &self.cadence {
            Cadence::Daily => (
                RecurrenceType::FixedSchedule,
                FrequencyUnit::Daily,
                vec![day_offset(0)],
                day_timestamp(first),
            ),
            Cadence::Weekly(days) => {
                let own: Vec<u32> = if days.len() == 0 {
                    vec![weekday_index(first)]
                } else {
                    days.clone()
                };
                let mut offsets: Vec<RuleOffset> = Vec::new();
                let mut i: usize = 0;
                while i < own.len()
                    invariant
                        i <= own.len(),
                        offsets@ == own@.take(i as int).map_values(|day: u32| weekday_offset(day)),
                    decreases own.len() - i,
                {
                    offsets.push(RuleOffset { wd: Some(own[i] as i64), dy: None, mo: None });
                    assert(own@.take(i + 1) =~= own@.take(i as int).push(own@[i as int]));
                    i += 1;
                }
                assert(own@.take(own.len() as int) =~= own@);
                (RecurrenceType::FixedSchedule, FrequencyUnit::Weekly, offsets, day_timestamp(first))
            },
            Cadence::Monthly(day) => {
                let day = match day {
                    Some(day) => *day,
                    None => first_day as i32,
                };
                let dy: i64 = if day < 0 {
                    -1
                } else {
                    day as i64 - 1
                };
                (
                    RecurrenceType::FixedSchedule,
                    FrequencyUnit::Monthly,
                    vec![day_offset(dy)],
                    day_timestamp(first),
                )
            },
            Cadence::Yearly(date) => {
                let (month, day) = match date {
                    Some((month, day)) => (*month, *day),
                    None => (first_month, first_day),
                };
                (
                    RecurrenceType::FixedSchedule,
                    FrequencyUnit::Yearly,
                    vec![RuleOffset { wd: None, dy: Some(day as i64 - 1), mo: Some(month as i64 - 1) }],
                    day_timestamp(first),
                )
            },
            Cadence::AfterCompletion(unit) => (
                RecurrenceType::AfterCompletion,
                *unit,
                Vec::new(),
                0,
            ),
        };
        let end_date = match bound {
            Bound::Until(day) => Some(day_timestamp(day)),
            Bound::Times(_) => None,
            Bound::Never => Some(RECURRENCE_END_NEVER),
        };
        let repeat_count = match bound {
            Bound::Times(times) => times,
            _ => 0,
        };
        let rule = RecurrenceRule {
            recurrence_type,
            frequency_unit,
            frequency_amount: self.every,
            offsets,
            start_date: Some(day_timestamp(today)),
            interval_anchor: Some(interval_anchor),
            end_date,
            repeat_count,
            time_span_in_days: 0,
            version: 4,
        };
        assert(rule.offsets@ =~= written_offsets(self@.0, first as int));
        rule
    }
}

/// the instances a rule allows are all made
pub open spec fn exhausted(rule: RecurrenceRule, instances_created: i32) -> bool {
    rule.repeat_count > 0 && instances_created >= rule.repeat_count
}

/// a day on or before the rule's end day, where it has one
pub open spec fn within_end(rule: RecurrenceRule, c: int) -> bool {
    match rule.end_date {
        Some(end) => if end != RECURRENCE_END_NEVER {
            match day_of_spec(end as int) {
                Some(last) => c <= last,
                None => false,
            }
        } else {
            true
        },
        None => true,
    }
}

/// the next occurrence of a wire rule after `after`, honoring the end day and the repeat count against the instances made so far
pub fn next_occurrence_of_rule(rule: &RecurrenceRule, after: i32, instances_created: i32) -> (next:
    Option<i32>)
    requires
        valid_day(after as int),
        reads_offsets(*rule) ==> offsets_convert(*rule),
        !exhausted(*rule, instances_created) ==> match rule_spec(*rule) {
            Some((spec, anchor)) => cadence_fits(spec.0) && next_in_reach(
                spec,
                anchor as int,
                after as int,
            ),
            None => true,
        },
    ensures
        exhausted(*rule, instances_created) ==> next is None,
        !exhausted(*rule, instances_created) ==> match rule_spec(*rule) {
            None => next is None,
            Some((spec, anchor)) => match next {
                Some(c) => is_next(spec, anchor as int, after as int, c as int) && within_end(
                    *rule,
                    c as int,
                ),
                None => !has_next(spec, anchor as int, after as int) || forall|c: int|
                    is_next(spec, anchor as int, after as int, c) ==> !within_end(*rule, c),
            },
        },
{
    if rule.repeat_count > 0 && instances_created >= rule.repeat_count {
        return None;
    }
    let (spec, anchor) = match RepeatSpec::from_rule(rule) {
        Some(found) => found,
        None => {
            return None;
        },
    };
    proof {
        assert(valid_day(anchor as int));
        assert(well_formed(spec@));
    }
    let next = match spec.next_occurrence(anchor, after) {
        Some(next) => next,
        None => {
            return None;
        },
    };
    proof {
        // the next day is one: any other with the same property equals it
        assert forall|c: int| is_next(spec@, anchor as int, after as int, c) implies c
            == next by {
            if c < next {
                assert(!crate::repeat::occurrence::occurs(spec@, anchor as int, c));
            } else if c > next {
                assert(!crate::repeat::occurrence::occurs(spec@, anchor as int, next as int));
            }
        }
    }
    match rule.end_date {
        Some(end) => {
            if end != RECURRENCE_END_NEVER {
                match day_of(end) {
                    Some(last) => {
                        if next <= last {
                            Some(next)
                        } else {
                            None
                        }
                    },
                    None => None,
                }
            } else {
                Some(next)
            }
        },
        None => Some(next),
    }
}

/// the end condition from `--times` and `--until`
pub fn bound(times: Option<i32>, until: Option<&str>) -> (end: Result<Bound, String>)
    ensures
        match (times, until) {
            (Some(_), Some(_)) => end matches Err(message) && message@
                == "--times and --until exclude each other"@,
            (Some(times), None) => if times >= 1 {
                end == Ok::<Bound, String>(Bound::Times(times))
            } else {
                end matches Err(message) && message@ == "--times "@ + signed_decimal(times as int)
                    + ": expected a positive number"@
            },
            (None, Some(until)) => match parsed_day(until@) {
                Some(day) => end == Ok::<Bound, String>(Bound::Until(day)),
                None => end matches Err(message) && message@ == invalid_day_message(
                    until@,
                    "--until"@,
                ),
            },
            (None, None) => end == Ok::<Bound, String>(Bound::Never),
        },
        end matches Ok(Bound::Until(day)) ==> valid_day(day as int),
{
    match (times, until) {
        (Some(_), Some(_)) => Err(String::from_str("--times and --until exclude each other")),
        (Some(times), None) => {
            if times >= 1 {
                Ok(Bound::Times(times))
            } else {
                let mut message = String::from_str("--times ");
                let number = signed_decimal_text(times as i64);
                message.append(number.as_str());
                message.append(": expected a positive number");
                Err(message)
            }
        },
        (None, Some(until)) => match parse_day(until, "--until") {
            Ok(day) => Ok(Bound::Until(day)),
            Err(message) => Err(message),
        },
        (None, None) => Ok(Bound::Never),
    }
}

/// the cadence a written rule reads back as: its selector filled in from the first day
pub open spec fn filled_cadence(cadence: CadenceView, first: int) -> CadenceView {
    match cadence {
        CadenceView::Weekly(days) => CadenceView::Weekly(weekly_days(days, first)),
        CadenceView::Monthly(day) => {
            let d = monthly_day(day, first);
            CadenceView::Monthly(
                Some(
                    if d < 1 {
                        -1i32
                    } else {
                        d as i32
                    },
                ),
            )
        },
        CadenceView::Yearly(date) => CadenceView::Yearly(
            Some(
                match date {
                    Some(date) => date,
                    None => (ymd_spec(first).1 as u32, ymd_spec(first).2 as u32),
                },
            ),
        ),
        _ => cadence,
    }
}

/// the weekdays written one to an offset read back as themselves
proof fn lemma_weekday_offsets(days: Seq<u32>)
    ensures
        field_values(days.map_values(|day: u32| weekday_offset(day)), OffsetKey::Weekday)
            == days.map_values(|day: u32| day as i64),
        weekday_values(days.map_values(|day: u32| day as i64)) == days,
    decreases days.len(),
{
    let offsets = days.map_values(|day: u32| weekday_offset(day));
    let values = days.map_values(|day: u32| day as i64);
    if days.len() == 0 {
        assert(offsets =~= seq![]);
        assert(values =~= seq![]);
    } else {
        let rest = days.drop_last();
        lemma_weekday_offsets(rest);
        assert(offsets.drop_last() =~= rest.map_values(|day: u32| weekday_offset(day)));
        assert(values.drop_last() =~= rest.map_values(|day: u32| day as i64));
        assert(field_values(offsets, OffsetKey::Weekday) =~= values);
        assert(weekday_values(values) =~= rest.push(days.last()));
        assert(rest.push(days.last()) =~= days);
    }
}

/// what a spec writes as a rule reads back as that spec with its selector filled in from the first day, counted from the first day; an after-completion rule reads back as nothing to evaluate
pub proof fn lemma_rule_round_trip(
    spec: (CadenceView, i32),
    first: int,
    today: int,
    bound: Bound,
    rule: RecurrenceRule,
)
    requires
        spec.1 >= 1,
        cadence_fits(spec.0),
        valid_day(first),
        valid_day(today),
        first > UNIX_EPOCH_DAY,
        is_written_rule(spec, first, today, bound, rule),
    ensures
        reads_offsets(rule) ==> offsets_convert(rule),
        rule_spec(rule) == if spec.0 is AfterCompletion {
            None
        } else {
            Some(((filled_cadence(spec.0, first), spec.1), first as i32))
        },
{
    lemma_day_has_ymd(first);
    let stamp = day_timestamp_spec(first);
    assert(stamp / 86400 == first - UNIX_EPOCH_DAY) by {
        assert(stamp == 86400 * (first - UNIX_EPOCH_DAY));
        vstd::arithmetic::div_mod::lemma_div_multiples_vanish(first - UNIX_EPOCH_DAY, 86400);
    }
    assert(0 < stamp <= i64::MAX);
    assert(day_of_spec(stamp) == Some(first as i32));
    assert(!(spec.0 is AfterCompletion) ==> rule_anchor(rule) == Some(first as i32));
    reveal_with_fuel(field_values, 3);
    match spec.0 {
        CadenceView::Weekly(days) => {
            lemma_weekday_offsets(weekly_days(days, first));
        },
        _ => {},
    }
}

} // verus!
