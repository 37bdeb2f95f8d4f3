//! when a to-do or project starts, its deadline and its reminder: the one update a schedule writes
//!
//! a day is written as the timestamp of its UTC midnight

use crate::calendar::{
    day_timestamp, day_timestamp_spec, invalid_day_message, invalid_reminder_message, parse_day,
    parse_reminder, parsed_day, parsed_reminder,
};
use crate::common::{chars_of, trim_spec, trimmed};
use crate::text::{lower, lower_spec};
use crate::store::entities::{Instant, Task};
use crate::store::{mark_lookup, ThingsStore};
use crate::wire::{EntityType, TaskStart};
use vstd::prelude::*;

verus! {

/// what a schedule asks for the item it names
pub struct ScheduleArgs {
    pub task_id: String,
    /// anytime, today, evening, someday, or YYYY-MM-DD
    pub when: Option<String>,
    pub deadline_date: Option<String>,
    pub clear_deadline: bool,
    /// HH:MM on the scheduled day
    pub reminder: Option<String>,
    pub clear_reminder: bool,
}

/// the fields a schedule writes: where the item starts, its day and day group, the evening bit, the deadline and the reminder, each None where it is left as it is
#[derive(Debug, Clone, Copy, PartialEq)]
pub struct ScheduleUpdate {
    pub start: Option<TaskStart>,
    pub scheduled_date: Option<Option<i64>>,
    pub today_index_reference: Option<Option<i64>>,
    pub evening: Option<bool>,
    pub deadline: Option<Option<i64>>,
    pub alarm_time_offset: Option<Option<i64>>,
}

/// a schedule ready to write: the item, the update and a label per part it changes
pub struct SchedulePlan<'a> {
    pub task: &'a Task,
    pub update: ScheduleUpdate,
    pub labels: Vec<String>,
    /// the entity the update is written as
    pub entity: EntityType,
    /// the instant the update is stamped with
    pub modification_date: Instant,
}

/// an update that changes nothing
pub open spec fn no_update() -> ScheduleUpdate {
    ScheduleUpdate {
        start: None,
        scheduled_date: None,
        today_index_reference: None,
        evening: None,
        deadline: None,
        alarm_time_offset: None,
    }
}

/// the text reads as a word of small ASCII letters whatever the case of its letters
///
/// for the words a schedule takes this is what comparing `to_lowercase` of the text gives: no other character lowers to one of their letters
pub open spec fn reads_as(text: Seq<char>, word: Seq<char>) -> bool {
    text.len() == word.len() && forall|i: int| 0 <= i < text.len() ==> lower_spec(#[trigger] text[i]) == word[i]
}

/// the update for a start without a day: it clears the day, the day group and the evening bit, and a reminder the item had
pub open spec fn undated(task: Task, start: TaskStart) -> ScheduleUpdate {
    ScheduleUpdate {
        start: Some(start),
        scheduled_date: Some(None),
        today_index_reference: Some(None),
        evening: Some(false),
        deadline: None,
        alarm_time_offset: if task.alarm_time_offset is Some { Some(None) } else { None },
    }
}

/// the update for a start on a day
pub open spec fn dated(start: TaskStart, day: i64, evening: bool) -> ScheduleUpdate {
    ScheduleUpdate {
        start: Some(start),
        scheduled_date: Some(Some(day)),
        today_index_reference: Some(Some(day)),
        evening: Some(evening),
        deadline: None,
        alarm_time_offset: None,
    }
}

/// the update and label `--when` gives, the text trimmed: a day today or before starts in Anytime, a later one in Someday
pub open spec fn when_update(task: Task, when: Seq<char>, today_ts: i64) -> Result<(ScheduleUpdate, Seq<char>), Seq<char>> {
    if reads_as(when, "anytime"@) {
        Ok((undated(task, TaskStart::Anytime), "anytime"@))
    } else if reads_as(when, "today"@) {
        Ok((dated(TaskStart::Anytime, today_ts, false), "today"@))
    } else if reads_as(when, "evening"@) {
        Ok((dated(TaskStart::Anytime, today_ts, true), "evening"@))
    } else if reads_as(when, "someday"@) {
        Ok((undated(task, TaskStart::Someday), "someday"@))
    } else {
        match parsed_day(when) {
            None => Err(invalid_day_message(when, "--when"@)),
            Some(n) => {
                let day = day_timestamp_spec(n as int) as i64;
                Ok(
                    (
                        dated(if day <= today_ts { TaskStart::Anytime } else { TaskStart::Someday }, day, false),
                        "when="@ + when,
                    ),
                )
            },
        }
    }
}

/// the labels of the parts an update changes: the start, the deadline and the reminder
pub open spec fn schedule_labels(update: ScheduleUpdate, when_label: Seq<char>, args: ScheduleArgs) -> Seq<Seq<char>> {
    let start = if update.start is Some { seq![when_label] } else { seq![] };
    let deadline = match update.deadline {
        Some(None) => seq!["deadline=none"@],
        Some(Some(_)) => seq!["deadline="@ + match args.deadline_date {
            Some(d) => d@,
            None => seq![],
        }],
        None => seq![],
    };
    let reminder = match update.alarm_time_offset {
        Some(None) => seq!["reminder=none"@],
        Some(Some(_)) => seq!["reminder="@ + match args.reminder {
            Some(r) => r@,
            None => seq![],
        }],
        None => seq![],
    };
    start + deadline + reminder
}

/// what a schedule of a resolved item gives: the update, then its labels, or the message of the first part refused
pub open spec fn schedule_update(task: Task, args: ScheduleArgs, today_ts: i64) -> Result<(ScheduleUpdate, Seq<Seq<char>>), Seq<char>> {
    let first = match args.when {
        Some(when) => match when_update(task, trim_spec(when@), today_ts) {
            Ok((update, label)) => Ok((update, label)),
            Err(message) => Err(message),
        },
        None => Ok((no_update(), seq![])),
    };
    match first {
        Err(message) => Err(message),
        Ok((update, when_label)) => {
            let with_deadline = match args.deadline_date {
                Some(d) => match parsed_day(d@) {
                    None => Err(invalid_day_message(d@, "--deadline"@)),
                    Some(n) => Ok(ScheduleUpdate { deadline: Some(Some(day_timestamp_spec(n as int) as i64)), ..update }),
                },
                None => Ok(update),
            };
            match with_deadline {
                Err(message) => Err(message),
                Ok(update) => {
                    let update = if args.clear_deadline { ScheduleUpdate { deadline: Some(None), ..update } } else { update };
                    let day_known = match update.scheduled_date {
                        Some(day) => day is Some,
                        None => task.start_date is Some,
                    };
                    let with_reminder = match args.reminder {
                        Some(r) => if !day_known {
                            Err("--reminder requires a scheduled day, set --when today or YYYY-MM-DD"@)
                        } else {
                            match parsed_reminder(r@) {
                                None => Err(invalid_reminder_message(r@)),
                                Some(s) => Ok(ScheduleUpdate { alarm_time_offset: Some(Some(s as i64)), ..update }),
                            }
                        },
                        None => Ok(update),
                    };
                    match with_reminder {
                        Err(message) => Err(message),
                        Ok(update) => {
                            let update = if args.clear_reminder {
                                ScheduleUpdate { alarm_time_offset: Some(None), ..update }
                            } else {
                                update
                            };
                            if update == no_update() {
                                Err("No schedule changes requested."@)
                            } else {
                                Ok((update, schedule_labels(update, when_label, args)))
                            }
                        },
                    }
                },
            }
        },
    }
}

/// the strings as texts
pub open spec fn texts_of(list: Seq<String>) -> Seq<Seq<char>> {
    list.map_values(|s: String| s@)
}

/// the text reads as the word whatever the case of its letters
fn reads_as_word(text: &str, word: &str) -> (reads: bool)
    ensures
        reads == reads_as(text@, word@),
{
    let t = chars_of(text);
    let w = chars_of(word);
    if t.len() != w.len() {
        return false;
    }
    let n = t.len();
    let mut i: usize = 0;
    while i < n
        invariant
            i <= n,
            n == t@.len(),
            n == w@.len(),
            t@ == text@,
            w@ == word@,
            forall|k: int| 0 <= k < i ==> lower_spec(#[trigger] text@[k]) == word@[k],
        decreases n - i,
    {
        if lower(t[i]) != w[i] {
            return false;
        }
        i += 1;
    }
    true
}

fn label_with(prefix: &str, text: &str) -> (label: String)
    ensures
        label@ == prefix@ + text@,
{
    let mut label = String::from_str(prefix);
    label.append(text);
    label
}

/// the update and label of `--when`
fn when_update_of(task: &Task, when: &str, today_ts: i64) -> (res: Result<(ScheduleUpdate, String), String>)
    ensures
        match when_update(*task, when@, today_ts) {
            Err(message) => res matches Err(m) && m@ == message,
            Ok((update, label)) => res matches Ok(r) && r.0 == update && r.1@ == label,
        },
{
    proof {
        reveal_strlit("anytime");
        reveal_strlit("today");
        reveal_strlit("evening");
        reveal_strlit("someday");
    }
    let clears_alarm = if task.alarm_time_offset.is_some() {
        Some(None)
    } else {
        None
    };
    if reads_as_word(when, "anytime") {
        return Ok((
            ScheduleUpdate {
                start: Some(TaskStart::Anytime),
                scheduled_date: Some(None),
                today_index_reference: Some(None),
                evening: Some(false),
                deadline: None,
                alarm_time_offset: clears_alarm,
            },
            String::from_str("anytime"),
        ));
    }
    if reads_as_word(when, "today") {
        return Ok((
            ScheduleUpdate {
                start: Some(TaskStart::Anytime),
                scheduled_date: Some(Some(today_ts)),
                today_index_reference: Some(Some(today_ts)),
                evening: Some(false),
                deadline: None,
                alarm_time_offset: None,
            },
            String::from_str("today"),
        ));
    }
    if reads_as_word(when, "evening") {
        return Ok((
            ScheduleUpdate {
                start: Some(TaskStart::Anytime),
                scheduled_date: Some(Some(today_ts)),
                today_index_reference: Some(Some(today_ts)),
                evening: Some(true),
                deadline: None,
                alarm_time_offset: None,
            },
            String::from_str("evening"),
        ));
    }
    if reads_as_word(when, "someday") {
        return Ok((
            ScheduleUpdate {
                start: Some(TaskStart::Someday),
                scheduled_date: Some(None),
                today_index_reference: Some(None),
                evening: Some(false),
                deadline: None,
                alarm_time_offset: clears_alarm,
            },
            String::from_str("someday"),
        ));
    }
    let day = match parse_day(when, "--when") {
        Ok(n) => n,
        Err(message) => return Err(message),
    };
    let day_ts = day_timestamp(day);
    let start = if day_ts <= today_ts {
        TaskStart::Anytime
    } else {
        TaskStart::Someday
    };
    Ok((
        ScheduleUpdate {
            start: Some(start),
            scheduled_date: Some(Some(day_ts)),
            today_index_reference: Some(Some(day_ts)),
            evening: Some(false),
            deadline: None,
            alarm_time_offset: None,
        },
        label_with("when=", when),
    ))
}

/// the labels of the parts an update changes
fn labels_of(update: &ScheduleUpdate, when_label: String, args: &ScheduleArgs) -> (labels: Vec<String>)
    ensures
        texts_of(labels@) == schedule_labels(*update, when_label@, *args),
{
    let mut labels: Vec<String> = Vec::new();
    if update.start.is_some() {
        labels.push(when_label);
    }
    let ghost after_start = labels@;
    match update.deadline {
        Some(None) => {
            labels.push(String::from_str("deadline=none"));
        },
        Some(Some(_)) => {
            let raw = match &args.deadline_date {
                Some(d) => d.as_str(),
                None => "",
            };
            proof {
                reveal_strlit("");
            }
            labels.push(label_with("deadline=", raw));
        },
        None => {},
    }
    let ghost after_deadline = labels@;
    match update.alarm_time_offset {
        Some(None) => {
            labels.push(String::from_str("reminder=none"));
        },
        Some(Some(_)) => {
            let raw = match &args.reminder {
                Some(r) => r.as_str(),
                None => "",
            };
            proof {
                reveal_strlit("");
            }
            labels.push(label_with("reminder=", raw));
        },
        None => {},
    }
    proof {
        let expected = schedule_labels(*update, when_label@, *args);
        assert(texts_of(labels@) =~= expected);
    }
    labels
}

/// the update a schedule writes to a resolved item, and its labels, or the message of the first part refused
fn update_for(task: &Task, args: &ScheduleArgs, today_ts: i64) -> (res: Result<(ScheduleUpdate, Vec<String>), String>)
    ensures
        match schedule_update(*task, *args, today_ts) {
            Err(message) => res matches Err(m) && m@ == message,
            Ok((update, labels)) => res matches Ok(r) && r.0 == update && texts_of(r.1@) == labels,
        },
{
    let mut update = ScheduleUpdate {
        start: None,
        scheduled_date: None,
        today_index_reference: None,
        evening: None,
        deadline: None,
        alarm_time_offset: None,
    };
    let mut when_label = String::new();
    match &args.when {
        Some(raw) => {
            let when = trimmed(raw.as_str());
            match when_update_of(task, when.as_str(), today_ts) {
                Ok((u, label)) => {
                    update = u;
                    when_label = label;
                },
                Err(message) => return Err(message),
            }
        },
        None => {},
    }
    match &args.deadline_date {
        Some(d) => match parse_day(d.as_str(), "--deadline") {
            Ok(n) => {
                update.deadline = Some(Some(day_timestamp(n)));
            },
            Err(message) => return Err(message),
        },
        None => {},
    }
    if args.clear_deadline {
        update.deadline = Some(None);
    }
    match &args.reminder {
        Some(r) => {
            let day_known = match update.scheduled_date {
                Some(day) => day.is_some(),
                None => task.start_date.is_some(),
            };
            if !day_known {
                return Err(String::from_str("--reminder requires a scheduled day, set --when today or YYYY-MM-DD"));
            }
            match parse_reminder(r.as_str()) {
                Ok(secs) => {
                    update.alarm_time_offset = Some(Some(secs));
                },
                Err(message) => return Err(message),
            }
        },
        None => {},
    }
    if args.clear_reminder {
        update.alarm_time_offset = Some(None);
    }
    if update.start.is_none() && update.scheduled_date.is_none() && update.today_index_reference.is_none()
        && update.evening.is_none() && update.deadline.is_none() && update.alarm_time_offset.is_none() {
        return Err(String::from_str("No schedule changes requested."));
    }
    let labels = labels_of(&update, when_label, args);
    Ok((update, labels))
}

/// what a schedule does: the item by id or unique prefix among those a mark can write, no repeater on it, then its update
pub open spec fn schedule_outcome(
    tasks: Seq<Task>,
    markable: Seq<crate::ids::things_id::ThingsId>,
    sorted: Seq<crate::ids::things_id::ThingsId>,
    args: ScheduleArgs,
    today_ts: i64,
) -> Result<(Task, ScheduleUpdate, Seq<Seq<char>>), Seq<char>> {
    let (found, message) = mark_lookup(tasks, markable, sorted, args.task_id@);
    match found {
        None => Err(message),
        Some(task) => if task.repeater is Some {
            Err("Task7 repeater tasks are blocked from scheduling until repeater bookkeeping is supported."@)
        } else {
            match schedule_update(task, args, today_ts) {
                Err(message) => Err(message),
                Ok((update, labels)) => Ok((task, update, labels)),
            }
        },
    }
}

/// the plan of a schedule: the item, the one update of where it starts, its day, deadline and reminder, and a label per part changed, or the message refusing it
///
/// `today_ts` is the timestamp of today's UTC midnight; a day today or before starts in Anytime, a later one in Someday
pub fn schedule_plan<'a>(args: &ScheduleArgs, store: &'a ThingsStore, now: Instant, today_ts: i64) -> (plan: Result<
    SchedulePlan<'a>,
    String,
>)
    requires
        store.well_formed(),
    ensures
        plan matches Ok(p) ==> p.entity == EntityType::Task7 && p.modification_date == now,
        match schedule_outcome(store.tasks@, store.markable_ids_sorted@, store.task_ids_sorted@, *args, today_ts) {
            Err(message) => plan matches Err(m) && m@ == message,
            Ok((task, update, labels)) => plan matches Ok(p) && *p.task == task && p.update == update && texts_of(
                p.labels@,
            ) == labels,
        },
{
    let (found, message, _) = store.resolve_mark_identifier(args.task_id.as_str());
    let ghost lookup = mark_lookup(store.tasks@, store.markable_ids_sorted@, store.task_ids_sorted@, args.task_id@);
    proof {
        assert(message@ == lookup.1);
        assert(match found {
            Some(t) => lookup.0 == Some(*t),
            None => lookup.0 is None,
        });
    }
    let task = match found {
        Some(task) => task,
        None => return Err(message),
    };
    if task.has_repeater() {
        return Err(String::from_str("Task7 repeater tasks are blocked from scheduling until repeater bookkeeping is supported."));
    }
    match update_for(task, args, today_ts) {
        Ok((update, labels)) => Ok(SchedulePlan { task, update, labels, entity: EntityType::Task7, modification_date: now }),
        Err(message) => Err(message),
    }
}

/// A deadline given names the deadline written, whatever `--when` says: where `--deadline`
/// names a day and `--clear-deadline` is not given, every schedule that goes through writes that
/// day's timestamp as the deadline, with or without a start, and the same flags without `--when`
/// write the same deadline.
pub proof fn lemma_deadline_written_whatever_when(
    tasks: Seq<Task>,
    markable: Seq<crate::ids::things_id::ThingsId>,
    sorted: Seq<crate::ids::things_id::ThingsId>,
    args: ScheduleArgs,
    today_ts: i64,
)
    requires
        args.deadline_date is Some,
        parsed_day(args.deadline_date->0@) is Some,
        !args.clear_deadline,
    ensures
        schedule_outcome(tasks, markable, sorted, args, today_ts) matches Ok((_, update, _))
            ==> update.deadline == Some(Some(day_timestamp_spec(parsed_day(args.deadline_date->0@)->0 as int) as i64)),
        schedule_outcome(tasks, markable, sorted, args, today_ts) matches Ok((_, update, labels))
            ==> labels.contains("deadline="@ + args.deadline_date->0@),
{
    let n = parsed_day(args.deadline_date->0@)->0;
    match schedule_outcome(tasks, markable, sorted, args, today_ts) {
        Ok((task, update, labels)) => {
            let first = match args.when {
                Some(when) => match when_update(task, trim_spec(when@), today_ts) {
                    Ok((u, label)) => Ok((u, label)),
                    Err(message) => Err(message),
                },
                None => Ok((no_update(), seq![])),
            };
            assert(first is Ok);
            let (u0, wl) = first->Ok_0;
            let with_deadline = ScheduleUpdate { deadline: Some(Some(day_timestamp_spec(n as int) as i64)), ..u0 };
            assert(update.deadline == with_deadline.deadline);
            let st: Seq<Seq<char>> = if update.start is Some { seq![wl] } else { seq![] };
            assert(labels == schedule_labels(update, wl, args));
            assert(labels[st.len() as int] == "deadline="@ + args.deadline_date->0@);
        },
        Err(_) => {},
    }
}

/// `--clear-deadline` clears the deadline, whatever else is given, and `--when today` starts the
/// item in Anytime on today, outside the evening, in every schedule that goes through.
pub proof fn lemma_clear_deadline_and_today(
    tasks: Seq<Task>,
    markable: Seq<crate::ids::things_id::ThingsId>,
    sorted: Seq<crate::ids::things_id::ThingsId>,
    args: ScheduleArgs,
    today_ts: i64,
)
    ensures
        args.clear_deadline ==> (schedule_outcome(tasks, markable, sorted, args, today_ts) matches Ok((_, update, _))
            ==> update.deadline == Some(None::<i64>)),
        (args.when matches Some(w) && reads_as(trim_spec(w@), "today"@)) ==> (schedule_outcome(
            tasks,
            markable,
            sorted,
            args,
            today_ts,
        ) matches Ok((_, update, _)) ==> update.start == Some(TaskStart::Anytime) && update.scheduled_date == Some(
            Some(today_ts),
        ) && update.evening == Some(false)),
{
    reveal_strlit("anytime");
    reveal_strlit("today");
    if args.when is Some {
        let w = trim_spec(args.when->0@);
        if reads_as(w, "today"@) {
            assert(!reads_as(w, "anytime"@)) by {
                if reads_as(w, "anytime"@) {
                    assert(w.len() == 5);
                }
            }
        }
    }
}

} // verus!
