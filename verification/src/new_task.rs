//! a new to-do: its fields from the flags, its place in its list and in Today, and the template behind it when it repeats
//!
//! every change of a new to-do lands in one commit: the to-do, its template, and the siblings a rebalance moves

use crate::calendar::{
    day_of, day_of_spec, day_text, day_text_spec, day_timestamp, day_timestamp_spec,
    invalid_day_message, invalid_reminder_message, parse_day, parse_reminder, parsed_day,
    parsed_reminder, valid_day,
};
use crate::common::{chars_of, trim_spec, trimmed};
use crate::ids::id_order::{id_value, lemma_id_value_bound, lemma_id_value_injective};
use crate::ids::things_id::ThingsId;
use crate::ordering::{allocate, allocation};
use crate::reorder::{
    bucket_of, id_bytes, midnight_of, position_in, position_of, run_of, run_with, same_id,
    start_code,
};
use crate::repeat::occurrence::{cadence_fits, first_in_reach, is_first, well_formed};
use crate::repeat::template::template_days_spec;
use crate::repeat::wire_rule::{bound, is_written_rule, Bound};
use crate::repeat::{repeat_spec_of, repeat_spec_splits, CadenceView, RepeatSpec};
use crate::store::entities::{is_project_spec, today_rule, Instant, Task};
use crate::store::{
    area_resolution, area_with_bytes, held, holds_id, id_room, lemma_distinct_task_positions,
    lemma_listed_in_order, lemma_lists_in_order_unique, lemma_stacked_order, listed,
    lists_in_order, mark_lookup, pick, task_before, task_position, task_resolution,
    task_with_bytes, ThingsStore,
};
use crate::mark::tokens_of;
use crate::tag_names::{id_bytes_of, tags_named};
use crate::text::{eq_ignore_ascii_case, lowercase_spec};
use crate::wire::{EntityType, RecurrenceRule, TaskStart, TaskStatus};
use vstd::prelude::*;

verus! {

/// what a new to-do asks
pub struct NewArgs {
    pub title: String,
    /// inbox, or a project or area by id or unique prefix
    pub in_target: String,
    /// anytime, someday, today, evening, or YYYY-MM-DD
    pub when: Option<String>,
    pub before_id: Option<String>,
    pub after_id: Option<String>,
    pub notes: String,
    /// comma-separated tag titles or id prefixes
    pub tags: Option<String>,
    pub deadline_date: Option<String>,
    /// HH:MM on the scheduled day
    pub reminder: Option<String>,
    pub repeat: Option<String>,
    pub times: Option<i32>,
    pub until: Option<String>,
}

/// the fields of a new to-do: its title and notes, where and when it starts, its day group and evening bit, its reminder, tags and deadline, its project or area, and its index and today index
#[derive(Debug, Clone)]
pub struct NewTask {
    pub title: String,
    pub notes: Option<String>,
    pub start: TaskStart,
    pub scheduled_date: Option<i64>,
    pub today_index_reference: Option<i64>,
    pub evening: bool,
    pub alarm_time_offset: Option<i64>,
    pub tag_ids: Vec<ThingsId>,
    pub deadline: Option<i64>,
    pub project: Option<ThingsId>,
    pub area: Option<ThingsId>,
    pub sort_index: i32,
    pub today_sort_index: i32,
}

/// the fields of a new to-do as values, the tags by the bytes of their ids
pub struct NewTaskView {
    pub title: Seq<char>,
    pub notes: Option<Seq<char>>,
    pub start: TaskStart,
    pub scheduled_date: Option<i64>,
    pub today_index_reference: Option<i64>,
    pub evening: bool,
    pub alarm_time_offset: Option<i64>,
    pub tag_ids: Seq<Seq<u8>>,
    pub deadline: Option<i64>,
    pub project: Option<ThingsId>,
    pub area: Option<ThingsId>,
    pub sort_index: i32,
    pub today_sort_index: i32,
}

/// a text that may be missing, as a value
pub open spec fn text_view(text: Option<String>) -> Option<Seq<char>> {
    match text {
        Some(t) => Some(t@),
        None => None,
    }
}

impl View for NewTask {
    type V = NewTaskView;

    open spec fn view(&self) -> NewTaskView {
        NewTaskView {
            title: self.title@,
            notes: text_view(self.notes),
            start: self.start,
            scheduled_date: self.scheduled_date,
            today_index_reference: self.today_index_reference,
            evening: self.evening,
            alarm_time_offset: self.alarm_time_offset,
            tag_ids: id_bytes_of(self.tag_ids@),
            deadline: self.deadline,
            project: self.project,
            area: self.area,
            sort_index: self.sort_index,
            today_sort_index: self.today_sort_index,
        }
    }
}

/// the template behind a repeating new to-do: its rule, the day of its first instance, the day it makes the next one, and for a repeat after completion the day its interval counts back to
pub struct NewRepeat {
    pub rule: RecurrenceRule,
    pub first: i32,
    pub next: i32,
    pub after_completion_reference: Option<i32>,
}

/// a new to-do ready to write: its fields, its template when it repeats, and the siblings a rebalance moves, by index and by today index
pub struct NewPlan {
    pub task: NewTask,
    pub repeat: Option<NewRepeat>,
    pub index_updates: Vec<(ThingsId, i32)>,
    pub today_updates: Vec<(ThingsId, i32)>,
    /// the entity the to-do, its template and the sibling updates are written as
    pub entity: EntityType,
    /// the instant the to-do and its template are made and every write is stamped with
    pub modification_date: Instant,
}

/// what the flags of a new to-do come to: a plan, the message refusing it, or days that would fall beyond the calendar or a repeat interval that cannot be split before its unit
pub enum NewOutcome {
    Planned(
        NewTaskView,
        Option<((CadenceView, i32), Bound, int, int, Option<int>)>,
        Seq<(ThingsId, i32)>,
        Seq<(ThingsId, i32)>,
    ),
    Refused(Seq<char>),
    Unplannable,
}

/// what `--repeat` comes to: the to-do with its first day, the rule, its bound and first day, or a refusal
pub enum RepeatStep {
    Kept(NewTaskView, Option<((CadenceView, i32), Bound, int)>),
    Refused(Seq<char>),
    Unplannable,
}

/// the two texts are one word whatever the case of their ASCII letters
pub open spec fn same_word(text: Seq<char>, word: Seq<char>) -> bool {
    lowercase_spec(text) == lowercase_spec(word)
}

/// the anchor's identifier, before taking precedence over after
pub open spec fn new_anchor_text(args: NewArgs) -> Option<Seq<char>> {
    match args.before_id {
        Some(text) => Some(text@),
        None => match args.after_id {
            Some(text) => Some(text@),
            None => None,
        },
    }
}

/// the anchor a new to-do goes next to: by id or unique prefix, of an entity the writes can upgrade
pub open spec fn new_anchor(store: ThingsStore, args: NewArgs) -> Result<Option<Task>, Seq<char>> {
    match new_anchor_text(args) {
        None => Ok(None),
        Some(text) => {
            let found = task_resolution(store.tasks@, store.task_ids_sorted@, text);
            match found.0 {
                None => Err(found.1),
                Some(bytes) => {
                    let anchor = task_with_bytes(store.tasks@, bytes)->0;
                    if !holds_id(store.upgradable_ids@, anchor.uuid) {
                        Err("Unsupported anchor task entity: "@ + anchor.entity@)
                    } else {
                        Ok(Some(anchor))
                    }
                },
            }
        },
    }
}

/// the project or area `--in` names, the text trimmed: nothing for the Inbox, a project, an area, or the message refusing it
pub open spec fn new_container(store: ThingsStore, target: Seq<char>) -> Result<(Option<ThingsId>, Option<ThingsId>), Seq<char>> {
    if same_word(target, "inbox"@) {
        Ok((None, None))
    } else {
        let project = mark_lookup(store.tasks@, store.markable_ids_sorted@, store.task_ids_sorted@, target).0;
        let area = match area_resolution(store.areas@, store.area_ids_sorted@, target).0 {
            Some(bytes) => area_with_bytes(store.areas@, bytes),
            None => None,
        };
        let project_id = match project {
            Some(p) => if is_project_spec(p) {
                Some(p.uuid)
            } else {
                None
            },
            None => None,
        };
        if project_id is Some && area is Some {
            Err("Ambiguous --in target '"@ + target + "' (matches project and area)."@)
        } else if project is Some && project_id is None {
            Err("--in target must be inbox, a project ID, or an area ID."@)
        } else if project_id is Some {
            Ok((project_id, None))
        } else if area is Some {
            Ok((None, Some(area->0.uuid)))
        } else {
            Err("Container not found: "@ + target)
        }
    }
}

/// a new to-do before any flag but its title, notes and container: in the Inbox, or in Anytime within a project or area
pub open spec fn base_view(title: Seq<char>, notes: Seq<char>, project: Option<ThingsId>, area: Option<ThingsId>) -> NewTaskView {
    NewTaskView {
        title,
        notes: if notes.len() > 0 {
            Some(notes)
        } else {
            None
        },
        start: if project is Some || area is Some {
            TaskStart::Anytime
        } else {
            TaskStart::Inbox
        },
        scheduled_date: None,
        today_index_reference: None,
        evening: false,
        alarm_time_offset: None,
        tag_ids: seq![],
        deadline: None,
        project,
        area,
        sort_index: 0,
        today_sort_index: 0,
    }
}

/// the to-do once `--when` is read, the text trimmed: a day today or before starts in Anytime, a later one in Someday
pub open spec fn with_when(v: NewTaskView, when: Seq<char>, today_ts: i64) -> Result<NewTaskView, Seq<char>> {
    if same_word(when, "anytime"@) {
        Ok(NewTaskView { start: TaskStart::Anytime, scheduled_date: None, ..v })
    } else if same_word(when, "someday"@) {
        Ok(NewTaskView { start: TaskStart::Someday, scheduled_date: None, ..v })
    } else if same_word(when, "today"@) || same_word(when, "evening"@) {
        Ok(
            NewTaskView {
                start: TaskStart::Anytime,
                scheduled_date: Some(today_ts),
                today_index_reference: Some(today_ts),
                evening: same_word(when, "evening"@),
                ..v
            },
        )
    } else {
        match parsed_day(when) {
            None => Err(invalid_day_message(when, "--when"@)),
            Some(n) => {
                let day = day_timestamp_spec(n as int) as i64;
                Ok(
                    NewTaskView {
                        start: if day <= today_ts {
                            TaskStart::Anytime
                        } else {
                            TaskStart::Someday
                        },
                        scheduled_date: Some(day),
                        today_index_reference: Some(day),
                        ..v
                    },
                )
            },
        }
    }
}

/// the to-do once `--reminder` is read: a reminder needs a day
pub open spec fn with_reminder(v: NewTaskView, reminder: Option<String>) -> Result<NewTaskView, Seq<char>> {
    match reminder {
        None => Ok(v),
        Some(r) => if v.scheduled_date is None {
            Err("--reminder requires --when today or YYYY-MM-DD"@)
        } else {
            match parsed_reminder(r@) {
                None => Err(invalid_reminder_message(r@)),
                Some(secs) => Ok(NewTaskView { alarm_time_offset: Some(secs as i64), ..v }),
            }
        },
    }
}

/// the end condition `--times` and `--until` give
pub open spec fn bound_result(times: Option<i32>, until: Option<String>) -> Result<Bound, Seq<char>> {
    match (times, until) {
        (Some(_), Some(_)) => Err("--times and --until exclude each other"@),
        (Some(times), None) => if times >= 1 {
            Ok(Bound::Times(times))
        } else {
            Err("--times "@ + crate::common::signed_decimal(times as int) + ": expected a positive number"@)
        },
        (None, Some(until)) => match parsed_day(until@) {
            Some(day) => Ok(Bound::Until(day)),
            None => Err(invalid_day_message(until@, "--until"@)),
        },
        (None, None) => Ok(Bound::Never),
    }
}

/// the first day on or after `from` a cadence picks
pub open spec fn first_of(cadence: CadenceView, from: int) -> int {
    choose|r: int| is_first(cadence, from, r)
}

/// the to-do once `--repeat` is read: it starts on the rule's first day on or after its own, which may not have passed, and not after the `--until` day
pub open spec fn new_repeat(v: NewTaskView, args: NewArgs, today_ts: i64) -> RepeatStep {
    match args.repeat {
        Some(text) => if args.deadline_date is Some {
            RepeatStep::Refused(
                "A repeating to-do keeps its deadline as an offset the CLI does not write yet, --deadline and --repeat cannot be combined."@,
            )
        } else if !repeat_spec_splits(text@) {
            RepeatStep::Unplannable
        } else {
            match repeat_spec_of(text@) {
                Err(message) => RepeatStep::Refused(message),
                Ok(spec) => match bound_result(args.times, args.until) {
                    Err(message) => RepeatStep::Refused(message),
                    Ok(end) => {
                        let when_day = match v.scheduled_date {
                            Some(ts) => day_of_spec(ts as int),
                            None => None,
                        };
                        match when_day {
                            None => RepeatStep::Refused("--repeat requires --when today or YYYY-MM-DD"@),
                            Some(from) => if !first_in_reach(spec.0, from as int) {
                                RepeatStep::Unplannable
                            } else {
                                let first = first_of(spec.0, from as int);
                                if first < day_of_spec(today_ts as int)->0 {
                                    RepeatStep::Refused(
                                        "A repeat cannot start on "@ + day_text_spec(first)
                                            + ", which has passed, set --when today or a later day"@,
                                    )
                                } else {
                                    let moved = if first != from {
                                        let ts = day_timestamp_spec(first) as i64;
                                        NewTaskView {
                                            scheduled_date: Some(ts),
                                            today_index_reference: Some(ts),
                                            start: if ts <= today_ts {
                                                TaskStart::Anytime
                                            } else {
                                                TaskStart::Someday
                                            },
                                            ..v
                                        }
                                    } else {
                                        v
                                    };
                                    match end {
                                        Bound::Until(until) => if until < first {
                                            RepeatStep::Refused(
                                                "--until "@ + day_text_spec(until as int)
                                                    + " is before the first occurrence "@ + day_text_spec(first),
                                            )
                                        } else {
                                            RepeatStep::Kept(moved, Some((spec, end, first)))
                                        },
                                        _ => RepeatStep::Kept(moved, Some((spec, end, first))),
                                    }
                                }
                            },
                        }
                    },
                },
            }
        },
        None => if args.times is Some || args.until is Some {
            RepeatStep::Refused("--times and --until need --repeat"@)
        } else {
            RepeatStep::Kept(v, None)
        },
    }
}

/// the to-do once `--tags` is read: the tags each named once, in the order first named
pub open spec fn with_tags(store: ThingsStore, v: NewTaskView, tags: Option<String>) -> Result<NewTaskView, Seq<char>> {
    match tags {
        None => Ok(v),
        Some(raw) => match tags_named(
            store.tags@,
            store.tasks@,
            store.areas@,
            tokens_of(raw@),
            false,
            tokens_of(raw@).len() as int,
        ) {
            Err(message) => Err(message),
            Ok(ids) => Ok(NewTaskView { tag_ids: ids, ..v }),
        },
    }
}

/// the to-do once `--deadline` is read
pub open spec fn with_deadline(v: NewTaskView, deadline: Option<String>) -> Result<NewTaskView, Seq<char>> {
    match deadline {
        None => Ok(v),
        Some(d) => match parsed_day(d@) {
            None => Err(invalid_day_message(d@, "--deadline"@)),
            Some(n) => Ok(NewTaskView { deadline: Some(day_timestamp_spec(n as int) as i64), ..v }),
        },
    }
}

/// the first day a cadence picks is the only one
pub(crate) proof fn lemma_first_unique(cadence: CadenceView, from: int, a: int, b: int)
    requires
        is_first(cadence, from, a),
        is_first(cadence, from, b),
    ensures
        a == b,
{
    match cadence {
        CadenceView::Weekly(days) => {
            if days.len() > 0 {
                if a < b {
                    assert(!days.contains(crate::calendar::weekday_index_spec(a) as u32));
                } else if b < a {
                    assert(!days.contains(crate::calendar::weekday_index_spec(b) as u32));
                }
            }
        },
        _ => {},
    }
}

/// a text that may be missing, borrowed
pub(crate) fn text_ref(text: &Option<String>) -> (r: Option<&str>)
    ensures
        match *text {
            Some(t) => r matches Some(s) && s@ == t@,
            None => r is None,
        },
{
    match text {
        Some(t) => Some(t.as_str()),
        None => None,
    }
}

/// the anchor a new to-do goes next to
fn anchor_of<'a>(store: &'a ThingsStore, args: &NewArgs) -> (res: Result<Option<&'a Task>, String>)
    ensures
        match new_anchor(*store, *args) {
            Ok(Some(a)) => res matches Ok(Some(t)) && *t == a,
            Ok(None) => res matches Ok(None),
            Err(message) => res matches Err(m) && m@ == message,
        },
{
    let text: &str = match &args.before_id {
        Some(t) => t.as_str(),
        None => match &args.after_id {
            Some(t) => t.as_str(),
            None => return Ok(None),
        },
    };
    let (found, message, _) = store.resolve_task_identifier(text);
    let anchor = match found {
        Some(anchor) => anchor,
        None => return Err(message),
    };
    if !store.can_upgrade_to_task7(anchor) {
        let mut refused = String::from_str("Unsupported anchor task entity: ");
        refused.append(anchor.entity.as_str());
        return Err(refused);
    }
    Ok(Some(anchor))
}

/// the project or area `--in` names
fn container_of(store: &ThingsStore, target: &str) -> (res: Result<(Option<ThingsId>, Option<ThingsId>), String>)
    ensures
        match new_container(*store, target@) {
            Ok(found) => res == Ok::<(Option<ThingsId>, Option<ThingsId>), String>(found),
            Err(message) => res matches Err(m) && m@ == message,
        },
{
    let chars = chars_of(target);
    if eq_ignore_ascii_case(&chars, "inbox") {
        return Ok((None, None));
    }
    let (project, _, _) = store.resolve_mark_identifier(target);
    let (area, _, _) = store.resolve_area_identifier(target);
    let project_id = match project {
        Some(p) => if p.is_project() {
            Some(p.uuid)
        } else {
            None
        },
        None => None,
    };
    if project_id.is_some() && area.is_some() {
        let mut refused = String::from_str("Ambiguous --in target '");
        refused.append(target);
        refused.append("' (matches project and area).");
        return Err(refused);
    }
    if project.is_some() && project_id.is_none() {
        return Err(String::from_str("--in target must be inbox, a project ID, or an area ID."));
    }
    if project_id.is_some() {
        return Ok((project_id, None));
    }
    match area {
        Some(a) => Ok((None, Some(a.uuid))),
        None => {
            let mut refused = String::from_str("Container not found: ");
            refused.append(target);
            Err(refused)
        },
    }
}

/// the to-do once `--when` is read
fn when_applied(task: NewTask, when: &str, today_ts: i64) -> (res: Result<NewTask, String>)
    ensures
        match with_when(task@, when@, today_ts) {
            Ok(v) => res matches Ok(t) && t@ == v,
            Err(message) => res matches Err(m) && m@ == message,
        },
{
    let mut task = task;
    let chars = chars_of(when);
    if eq_ignore_ascii_case(&chars, "anytime") {
        task.start = TaskStart::Anytime;
        task.scheduled_date = None;
        return Ok(task);
    }
    if eq_ignore_ascii_case(&chars, "someday") {
        task.start = TaskStart::Someday;
        task.scheduled_date = None;
        return Ok(task);
    }
    let evening = eq_ignore_ascii_case(&chars, "evening");
    if eq_ignore_ascii_case(&chars, "today") || evening {
        task.start = TaskStart::Anytime;
        task.scheduled_date = Some(today_ts);
        task.today_index_reference = Some(today_ts);
        task.evening = evening;
        return Ok(task);
    }
    let day = match parse_day(when, "--when") {
        Ok(n) => n,
        Err(message) => return Err(message),
    };
    let day_ts = day_timestamp(day);
    task.start = if day_ts <= today_ts {
        TaskStart::Anytime
    } else {
        TaskStart::Someday
    };
    task.scheduled_date = Some(day_ts);
    task.today_index_reference = Some(day_ts);
    Ok(task)
}

/// the to-do once `--reminder` is read
fn reminder_applied(task: NewTask, reminder: &Option<String>) -> (res: Result<NewTask, String>)
    ensures
        match with_reminder(task@, *reminder) {
            Ok(v) => res matches Ok(t) && t@ == v,
            Err(message) => res matches Err(m) && m@ == message,
        },
{
    let mut task = task;
    match reminder {
        None => Ok(task),
        Some(r) => {
            if task.scheduled_date.is_none() {
                return Err(String::from_str("--reminder requires --when today or YYYY-MM-DD"));
            }
            match parse_reminder(r.as_str()) {
                Ok(secs) => {
                    task.alarm_time_offset = Some(secs);
                    Ok(task)
                },
                Err(message) => Err(message),
            }
        },
    }
}

/// an `--until` day that names no day is refused by `bound`, as `bound_result` says
pub(crate) fn bound_of(times: Option<i32>, until: &Option<String>) -> (res: Result<Bound, String>)
    ensures
        match bound_result(times, *until) {
            Ok(end) => res == Ok::<Bound, String>(end),
            Err(message) => res matches Err(m) && m@ == message,
        },
        res matches Ok(Bound::Until(day)) ==> valid_day(day as int),
{
    bound(times, text_ref(until))
}

/// what `--repeat` comes to, computed
enum RepeatApplied {
    Kept(NewTask, Option<(RepeatSpec, Bound, i32)>),
    Refused(String),
    Unplannable,
}

/// `--repeat` splits where its parser looks for the interval's unit
fn repeat_splits(text: &str) -> (splits: bool)
    ensures
        splits == repeat_spec_splits(text@),
{
    crate::repeat::RepeatSpec::splits(text)
}

/// the to-do once `--repeat` is read
fn repeat_applied(task: NewTask, args: &NewArgs, today_ts: i64) -> (res: RepeatApplied)
    requires
        day_of_spec(today_ts as int) is Some,
    ensures
        match new_repeat(task@, *args, today_ts) {
            RepeatStep::Kept(v, None) => res matches RepeatApplied::Kept(t, None) && t@ == v,
            RepeatStep::Kept(v, Some((spec, end, first))) => res matches RepeatApplied::Kept(t, Some(r)) && t@
                == v && r.0@ == spec && r.1 == end && r.2 == first && well_formed(spec) && valid_day(first)
                && (end matches Bound::Until(u) ==> valid_day(u as int)),
            RepeatStep::Refused(message) => res matches RepeatApplied::Refused(m) && m@ == message,
            RepeatStep::Unplannable => res matches RepeatApplied::Unplannable,
        },
{
    let mut task = task;
    let text = match &args.repeat {
        Some(text) => text,
        None => {
            if args.times.is_some() || args.until.is_some() {
                return RepeatApplied::Refused(String::from_str("--times and --until need --repeat"));
            }
            return RepeatApplied::Kept(task, None);
        },
    };
    if args.deadline_date.is_some() {
        return RepeatApplied::Refused(
            String::from_str(
                "A repeating to-do keeps its deadline as an offset the CLI does not write yet, --deadline and --repeat cannot be combined.",
            ),
        );
    }
    if !repeat_splits(text.as_str()) {
        return RepeatApplied::Unplannable;
    }
    let spec = match RepeatSpec::parse(text.as_str()) {
        Ok(spec) => spec,
        Err(message) => return RepeatApplied::Refused(message),
    };
    proof {
        crate::repeat::lemma_parsed_well_formed(text@);
    }
    let end = match bound_of(args.times, &args.until) {
        Ok(end) => end,
        Err(message) => return RepeatApplied::Refused(message),
    };
    let when_day = match task.scheduled_date {
        Some(ts) => day_of(ts),
        None => None,
    };
    let from = match when_day {
        Some(from) => from,
        None => return RepeatApplied::Refused(String::from_str("--repeat requires --when today or YYYY-MM-DD")),
    };
    if !spec.first_reachable(from) {
        return RepeatApplied::Unplannable;
    }
    let first = spec.first_occurrence(from);
    proof {
        let chosen = first_of(spec@.0, from as int);
        lemma_first_unique(spec@.0, from as int, first as int, chosen);
    }
    let today = match day_of(today_ts) {
        Some(day) => day,
        None => 0,
    };
    if first < today {
        let mut refused = String::from_str("A repeat cannot start on ");
        let shown = day_text(first);
        refused.append(shown.as_str());
        refused.append(", which has passed, set --when today or a later day");
        return RepeatApplied::Refused(refused);
    }
    if first != from {
        let ts = day_timestamp(first);
        task.scheduled_date = Some(ts);
        task.today_index_reference = Some(ts);
        task.start = if ts <= today_ts {
            TaskStart::Anytime
        } else {
            TaskStart::Someday
        };
    }
    match end {
        Bound::Until(until) => {
            if until < first {
                let mut refused = String::from_str("--until ");
                let shown_until = day_text(until);
                refused.append(shown_until.as_str());
                refused.append(" is before the first occurrence ");
                let shown_first = day_text(first);
                refused.append(shown_first.as_str());
                return RepeatApplied::Refused(refused);
            }
        },
        _ => {},
    }
    RepeatApplied::Kept(task, Some((spec, end, first)))
}

/// a refusal of tags always says why
pub(crate) proof fn lemma_tag_refusal_said(
    tags: Seq<crate::store::entities::Tag>,
    tasks: Seq<Task>,
    areas: Seq<crate::store::entities::Area>,
    tokens: Seq<Seq<char>>,
    n: int,
)
    ensures
        tags_named(tags, tasks, areas, tokens, false, n) matches Err(m) ==> m.len() > 0,
    decreases n,
{
    reveal_strlit("Ambiguous tag title: ");
    reveal_strlit("Ambiguous tag ID prefix: ");
    reveal_strlit("Tag not found: ");
    if n > 0 {
        lemma_tag_refusal_said(tags, tasks, areas, tokens, n - 1);
    }
}

/// the to-do once `--tags` is read
fn tags_applied(store: &ThingsStore, task: NewTask, tags: &Option<String>) -> (res: Result<NewTask, String>)
    ensures
        match with_tags(*store, task@, *tags) {
            Ok(v) => res matches Ok(t) && t@ == v,
            Err(message) => res matches Err(m) && m@ == message,
        },
{
    let mut task = task;
    match tags {
        None => Ok(task),
        Some(raw) => {
            let (ids, refusal) = store.resolve_tag_ids(raw.as_str());
            proof {
                lemma_tag_refusal_said(
                    store.tags@,
                    store.tasks@,
                    store.areas@,
                    tokens_of(raw@),
                    tokens_of(raw@).len() as int,
                );
            }
            if refusal.as_str().unicode_len() > 0 {
                return Err(refusal);
            }
            task.tag_ids = ids;
            Ok(task)
        },
    }
}

/// the to-do once `--deadline` is read
fn deadline_applied(task: NewTask, deadline: &Option<String>) -> (res: Result<NewTask, String>)
    ensures
        match with_deadline(task@, *deadline) {
            Ok(v) => res matches Ok(t) && t@ == v,
            Err(message) => res matches Err(m) && m@ == message,
        },
{
    let mut task = task;
    match deadline {
        None => Ok(task),
        Some(d) => match parse_day(d.as_str(), "--deadline") {
            Ok(n) => {
                task.deadline = Some(day_timestamp(n));
                Ok(task)
            },
            Err(message) => Err(message),
        },
    }
}

/// the list a new to-do is ordered in: under its project, in its area's start, or in the start of no area
pub open spec fn props_bucket(v: NewTaskView) -> (int, Option<Seq<u8>>, Option<Seq<u8>>, i64) {
    match v.project {
        Some(p) => (2, Some(p@), None, 0),
        None => match v.area {
            Some(a) => (3, Some(a@), None, start_code(v.start)),
            None => (4, None, None, start_code(v.start)),
        },
    }
}

/// a list as values
pub open spec fn bucket_view(b: (u8, Option<ThingsId>, Option<ThingsId>, i64)) -> (int, Option<Seq<u8>>, Option<Seq<u8>>, i64) {
    (b.0 as int, id_bytes(b.1), id_bytes(b.2), b.3)
}

/// an anchor Today orders a new to-do next to: in Anytime, and due today or in the evening
pub open spec fn anchor_in_today(a: Task, today_ts: i64) -> bool {
    a.start == TaskStart::Anytime && (today_rule(a, midnight_of(today_ts as int)) || a.evening)
}

/// a sibling a new to-do takes its index among: open, not itself trashed, of an entity the writes can upgrade, and ordered in the same list
pub open spec fn new_sibling(store: ThingsStore, target: (int, Option<Seq<u8>>, Option<Seq<u8>>, i64), t: Task) -> bool {
    &&& !t.trashed
    &&& t.status == TaskStatus::Incomplete
    &&& holds_id(store.upgradable_ids@, t.uuid)
    &&& bucket_of(store.tasks@, t) == target
}

/// `list` holds the siblings of a list, in the order of their indexes
pub open spec fn lists_siblings(store: ThingsStore, target: (int, Option<Seq<u8>>, Option<Seq<u8>>, i64), list: Seq<Task>) -> bool {
    lists_in_order(list, store.tasks@, |t: Task| new_sibling(store, target, t), |t: Task| task_position(t))
}

/// the siblings of a list, in the order of their indexes
pub open spec fn sibling_list(store: ThingsStore, target: (int, Option<Seq<u8>>, Option<Seq<u8>>, i64)) -> Seq<Task> {
    choose|list: Seq<Task>| #[trigger] lists_siblings(store, target, list)
}

/// a to-do of Today's section a new to-do joins: open, not itself trashed, in Anytime, due today or in the evening, in the evening exactly when the section is
pub open spec fn today_sibling(today: Instant, evening: bool, t: Task) -> bool {
    &&& !t.trashed
    &&& t.status == TaskStatus::Incomplete
    &&& t.start == TaskStart::Anytime
    &&& (today_rule(t, today) || t.evening)
    &&& t.evening == evening
}

/// the day group a to-do is listed under in Today's section, 0 without one
pub open spec fn listed_reference(t: Task) -> int {
    match t.today_index_reference {
        Some(r) => r as int,
        None => 0,
    }
}

/// the order of Today's section: the latest day group first, then by today index, then the higher index first, then by id
pub open spec fn new_today_rank(t: Task) -> int {
    ((((-listed_reference(t)) * 0x1_0000_0000int + (t.today_index + 0x8000_0000int)) * 0x1_0000_0000int
        + (i32::MAX - t.index)) * id_room()) + id_value(t.uuid)
}

/// `list` holds Today's section, in its order
pub open spec fn lists_today(tasks: Seq<Task>, today: Instant, evening: bool, list: Seq<Task>) -> bool {
    lists_in_order(list, tasks, |t: Task| today_sibling(today, evening, t), |t: Task| new_today_rank(t))
}

/// Today's section, in its order
pub open spec fn today_list(tasks: Seq<Task>, today: Instant, evening: bool) -> Seq<Task> {
    choose|list: Seq<Task>| #[trigger] lists_today(tasks, today, evening, list)
}

/// the day group a today index counts in, today without one
pub open spec fn group_reference(t: Task, today_ts: i64) -> i64 {
    match t.today_index_reference {
        Some(r) => r,
        None => today_ts,
    }
}

/// the day group of the to-do at a place in a list, or of the one before it at the end, or today in an empty list
pub open spec fn neighbor_reference(list: Seq<Task>, at: int, today_ts: i64) -> i64 {
    if 0 <= at < list.len() {
        group_reference(list[at], today_ts)
    } else if 1 <= at && at - 1 < list.len() {
        group_reference(list[at - 1], today_ts)
    } else {
        today_ts
    }
}

/// the members of a day group among the first `n` of a list, with their today indexes
pub open spec fn group_run(list: Seq<Task>, reference: i64, today_ts: i64, n: int) -> Seq<(ThingsId, i32)>
    decreases n,
{
    if n <= 0 {
        seq![]
    } else {
        let rest = group_run(list, reference, today_ts, n - 1);
        if group_reference(list[n - 1], today_ts) == reference {
            rest.push((list[n - 1].uuid, list[n - 1].today_index))
        } else {
            rest
        }
    }
}

/// a new to-do placed in Today next to its anchor: it joins the anchor's section and the day group of its neighbor, and takes a slot among that group's today indexes
pub open spec fn today_placed(tasks: Seq<Task>, anchor: Task, before: bool, v: NewTaskView, today_ts: i64) -> (NewTaskView, Seq<(ThingsId, i32)>) {
    let list = today_list(tasks, midnight_of(today_ts as int), anchor.evening);
    let at = match position_in(list, anchor.uuid@, list.len() as int) {
        Some(p) => if before {
            p
        } else {
            p + 1
        },
        None => 0,
    };
    let reference = neighbor_reference(list, at, today_ts);
    let placed = allocation(
        group_run(list, reference, today_ts, list.len() as int),
        group_run(list, reference, today_ts, at).len() as int,
    );
    (
        NewTaskView {
            evening: anchor.evening,
            today_index_reference: Some(reference),
            today_sort_index: placed.0,
            ..v
        },
        placed.1,
    )
}

/// the anchor stands in Today
pub open spec fn anchor_today(anchor: Option<Task>, today_ts: i64) -> bool {
    match anchor {
        Some(a) => anchor_in_today(a, today_ts),
        None => false,
    }
}

/// a new to-do starts in Anytime on today or before
pub open spec fn starts_today(v: NewTaskView, today_ts: i64) -> bool {
    v.start == TaskStart::Anytime && match v.scheduled_date {
        Some(day) => day <= today_ts,
        None => false,
    }
}

/// a new to-do placed: next to an anchor in its list, or first in it; next to the anchor in Today too when both stand there; then the days of its template
pub open spec fn placed_new(
    store: ThingsStore,
    args: NewArgs,
    v: NewTaskView,
    anchor: Option<Task>,
    repeat: Option<((CadenceView, i32), Bound, int)>,
    today_ts: i64,
) -> NewOutcome {
    let tasks = store.tasks@;
    let target = props_bucket(v);
    let before = args.before_id is Some;
    let crosses = match anchor {
        Some(a) => !anchor_in_today(a, today_ts) && bucket_of(tasks, a) != target,
        None => false,
    };
    if crosses {
        NewOutcome::Refused("Cannot place new task relative to an item in a different container/list."@)
    } else {
        let siblings = sibling_list(store, target);
        let at = match anchor {
            Some(a) => if bucket_of(tasks, a) == target {
                match position_in(siblings, a.uuid@, siblings.len() as int) {
                    Some(p) => Some(
                        if before {
                            p
                        } else {
                            p + 1
                        },
                    ),
                    None => None,
                }
            } else {
                Some(0int)
            },
            None => Some(0int),
        };
        match at {
            None => NewOutcome::Refused("Anchor not found in target list."@),
            Some(at) => {
                let placed = allocation(run_of(siblings, false), at);
                let indexed = NewTaskView { sort_index: placed.0, ..v };
                let (done, today_moved) = if starts_today(indexed, today_ts) && anchor_today(anchor, today_ts) {
                    today_placed(tasks, anchor->0, before, indexed, today_ts)
                } else {
                    (indexed, seq![])
                };
                match repeat {
                    None => NewOutcome::Planned(done, None, placed.1, today_moved),
                    Some((spec, end, first)) => match template_days_spec(spec, first) {
                        None => NewOutcome::Unplannable,
                        Some((next, back)) => NewOutcome::Planned(
                            done,
                            Some((spec, end, first, next, back)),
                            placed.1,
                            today_moved,
                        ),
                    },
                }
            },
        }
    }
}

/// what the flags of a new to-do come to, read in order: the title, the anchor, the container, `--when`, `--reminder`, `--repeat`, `--tags`, `--deadline`, then its places and its template
pub open spec fn new_outcome(store: ThingsStore, args: NewArgs, today_ts: i64) -> NewOutcome {
    let title = trim_spec(args.title@);
    if title.len() == 0 {
        NewOutcome::Refused("Task title cannot be empty."@)
    } else {
        match new_anchor(store, args) {
            Err(message) => NewOutcome::Refused(message),
            Ok(anchor) => match new_container(store, trim_spec(args.in_target@)) {
                Err(message) => NewOutcome::Refused(message),
                Ok((project, area)) => {
                    let base = base_view(title, args.notes@, project, area);
                    let when = match args.when {
                        None => Ok(base),
                        Some(w) => with_when(base, trim_spec(w@), today_ts),
                    };
                    match when {
                        Err(message) => NewOutcome::Refused(message),
                        Ok(v) => match with_reminder(v, args.reminder) {
                            Err(message) => NewOutcome::Refused(message),
                            Ok(v) => match new_repeat(v, args, today_ts) {
                                RepeatStep::Refused(message) => NewOutcome::Refused(message),
                                RepeatStep::Unplannable => NewOutcome::Unplannable,
                                RepeatStep::Kept(v, repeat) => match with_tags(store, v, args.tags) {
                                    Err(message) => NewOutcome::Refused(message),
                                    Ok(v) => match with_deadline(v, args.deadline_date) {
                                        Err(message) => NewOutcome::Refused(message),
                                        Ok(v) => placed_new(store, args, v, anchor, repeat, today_ts),
                                    },
                                },
                            },
                        },
                    }
                },
            },
        }
    }
}

/// the plan is what the outcome says
pub open spec fn plan_matches(outcome: NewOutcome, plan: Result<NewPlan, String>, today_ts: i64) -> bool {
    match outcome {
        NewOutcome::Planned(v, repeat, moved, today_moved) => plan matches Ok(p) && p.task@ == v
            && p.index_updates@ == moved && p.today_updates@ == today_moved && match repeat {
            None => p.repeat is None,
            Some((spec, end, first, next, back)) => p.repeat matches Some(r) && is_written_rule(
                spec,
                first,
                day_of_spec(today_ts as int)->0 as int,
                end,
                r.rule,
            ) && r.first == first && r.next == next && match back {
                Some(b) => r.after_completion_reference == Some(b as i32),
                None => r.after_completion_reference is None,
            },
        },
        NewOutcome::Refused(message) => plan matches Err(m) && m@ == message,
        NewOutcome::Unplannable => false,
    }
}

/// the list a new to-do is ordered in, computed
fn target_of(task: &NewTask) -> (target: (u8, Option<ThingsId>, Option<ThingsId>, i64))
    ensures
        bucket_view(target) == props_bucket(task@),
{
    match task.project {
        Some(p) => (2, Some(p), None, 0),
        None => match task.area {
            Some(a) => (3, Some(a), None, task.start.to_wire()),
            None => (4, None, None, task.start.to_wire()),
        },
    }
}

/// two lists are one
fn same_target(a: &(u8, Option<ThingsId>, Option<ThingsId>, i64), b: &(u8, Option<ThingsId>, Option<ThingsId>, i64)) -> (same: bool)
    ensures
        same == (bucket_view(*a) == bucket_view(*b)),
{
    a.0 == b.0 && same_id(&a.1, &b.1) && same_id(&a.2, &b.2) && a.3 == b.3
}

/// the siblings of a list, in the order of their indexes
fn siblings_of<'a>(store: &'a ThingsStore, target: &(u8, Option<ThingsId>, Option<ThingsId>, i64)) -> (list: Vec<&'a Task>)
    requires
        store.well_formed(),
    ensures
        held(list@) == sibling_list(*store, bucket_view(*target)),
        list@.len() <= store.tasks@.len(),
{
    let ghost tasks = store.tasks@;
    let ghost wanted = bucket_view(*target);
    let ghost keep = |t: Task| new_sibling(*store, wanted, t);
    let keeps = |j: usize| -> (r: bool)
        requires
            j < store.tasks@.len(),
        ensures
            r == new_sibling(*store, bucket_view(*target), store.tasks@[j as int]),
        {
            let t = &store.tasks[j];
            !t.trashed && t.status == TaskStatus::Incomplete && store.can_upgrade_to_task7(t) && same_target(
                &store.bucket(t),
                target,
            )
        };
    let picked = pick(store.tasks.len(), keeps, Ghost(|j: int| keep(tasks[j])));
    proof {
        lemma_distinct_task_positions(tasks, picked@);
    }
    let list = listed(&store.tasks, &picked, task_before, Ghost(keep), Ghost(|t: Task| task_position(t)));
    proof {
        lemma_listed_in_order(held(list@), tasks, picked@, keep, |t: Task| task_position(t));
        assert(lists_siblings(*store, wanted, held(list@)));
        let chosen = sibling_list(*store, wanted);
        assert(lists_in_order(chosen, tasks, keep, |t: Task| task_position(t)));
        lemma_lists_in_order_unique(held(list@), chosen, tasks, keep, |t: Task| task_position(t));
    }
    list
}

/// the order of Today's section compares the day groups, the today indexes, the indexes and the ids in turn, and tells distinct to-dos apart
proof fn lemma_new_today_rank(a: Task, b: Task)
    ensures
        (new_today_rank(a) < new_today_rank(b)) == (listed_reference(a) > listed_reference(b) || (
        listed_reference(a) == listed_reference(b) && (a.today_index < b.today_index || (a.today_index
            == b.today_index && (a.index > b.index || (a.index == b.index && id_value(a.uuid) < id_value(
            b.uuid))))))),
        a.uuid@ != b.uuid@ ==> new_today_rank(a) != new_today_rank(b),
{
    lemma_id_value_bound(a.uuid);
    lemma_id_value_bound(b.uuid);
    let lo_a = a.today_index + 0x8000_0000int;
    let lo_b = b.today_index + 0x8000_0000int;
    lemma_stacked_order(-listed_reference(a), lo_a, -listed_reference(b), lo_b, 0x1_0000_0000int);
    let v_a = (-listed_reference(a)) * 0x1_0000_0000int + lo_a;
    let v_b = (-listed_reference(b)) * 0x1_0000_0000int + lo_b;
    lemma_stacked_order(v_a, i32::MAX - a.index, v_b, i32::MAX - b.index, 0x1_0000_0000int);
    let w_a = v_a * 0x1_0000_0000int + (i32::MAX - a.index);
    let w_b = v_b * 0x1_0000_0000int + (i32::MAX - b.index);
    lemma_stacked_order(w_a, id_value(a.uuid), w_b, id_value(b.uuid), id_room());
    if a.uuid@ != b.uuid@ {
        lemma_id_value_injective(a.uuid, b.uuid);
    }
}

/// the day group a to-do is listed under in Today's section, computed
fn listed_reference_of(t: &Task) -> (r: i64)
    ensures
        r == listed_reference(*t),
{
    match t.today_index_reference {
        Some(r) => r,
        None => 0,
    }
}

/// the to-do comes first in Today's section
fn new_today_before(a: &Task, b: &Task) -> (before: bool)
    ensures
        before == (new_today_rank(*a) < new_today_rank(*b)),
{
    proof {
        lemma_new_today_rank(*a, *b);
    }
    let ra = listed_reference_of(a);
    let rb = listed_reference_of(b);
    ra > rb || (ra == rb && (a.today_index < b.today_index || (a.today_index == b.today_index && (a.index
        > b.index || (a.index == b.index && a.uuid.sorts_before(&b.uuid))))))
}

/// Today's section of the evening or of the day, in its order
fn today_members<'a>(store: &'a ThingsStore, today: &Instant, evening: bool) -> (list: Vec<&'a Task>)
    requires
        store.well_formed(),
    ensures
        held(list@) == today_list(store.tasks@, *today, evening),
        list@.len() <= store.tasks@.len(),
{
    let ghost tasks = store.tasks@;
    let ghost keep = |t: Task| today_sibling(*today, evening, t);
    let keeps = |j: usize| -> (r: bool)
        requires
            j < store.tasks@.len(),
        ensures
            r == today_sibling(*today, evening, store.tasks@[j as int]),
        {
            let t = &store.tasks[j];
            !t.trashed && t.status == TaskStatus::Incomplete && t.start == TaskStart::Anytime && (t.is_today(
                today,
            ) || t.evening) && t.evening == evening
        };
    let picked = pick(store.tasks.len(), keeps, Ghost(|j: int| keep(tasks[j])));
    proof {
        assert forall|m: int, k: int| 0 <= m < k < picked@.len() implies new_today_rank(
            tasks[#[trigger] picked@[m] as int],
        ) != new_today_rank(tasks[#[trigger] picked@[k] as int]) by {
            let a = tasks[picked@[m] as int];
            let b = tasks[picked@[k] as int];
            assert(a.uuid@ != b.uuid@);
            lemma_new_today_rank(a, b);
        }
    }
    let list = listed(&store.tasks, &picked, new_today_before, Ghost(keep), Ghost(|t: Task| new_today_rank(t)));
    proof {
        lemma_listed_in_order(held(list@), tasks, picked@, keep, |t: Task| new_today_rank(t));
        assert(lists_today(tasks, *today, evening, held(list@)));
        let chosen = today_list(tasks, *today, evening);
        assert(lists_in_order(chosen, tasks, keep, |t: Task| new_today_rank(t)));
        lemma_lists_in_order_unique(held(list@), chosen, tasks, keep, |t: Task| new_today_rank(t));
    }
    list
}

/// the day group a today index counts in, computed
fn group_reference_of(t: &Task, today_ts: i64) -> (r: i64)
    ensures
        r == group_reference(*t, today_ts),
{
    match t.today_index_reference {
        Some(r) => r,
        None => today_ts,
    }
}

/// the members of a day group among the first `n` of a list
fn group_of(list: &Vec<&Task>, reference: i64, today_ts: i64, n: usize) -> (run: Vec<(ThingsId, i32)>)
    requires
        n <= list@.len(),
    ensures
        run@ == group_run(held(list@), reference, today_ts, n as int),
        run@.len() <= n,
{
    let mut run: Vec<(ThingsId, i32)> = Vec::new();
    let mut i: usize = 0;
    while i < n
        invariant
            i <= n,
            n <= list@.len(),
            run@ == group_run(held(list@), reference, today_ts, i as int),
            run@.len() <= i,
        decreases n - i,
    {
        let t = list[i];
        if group_reference_of(t, today_ts) == reference {
            run.push((t.uuid, t.today_index));
        }
        i += 1;
    }
    run
}

/// a new to-do placed in Today next to its anchor
fn place_today(store: &ThingsStore, anchor: &Task, before: bool, task: NewTask, today_ts: i64, today: &Instant) -> (res: (
    NewTask,
    Vec<(ThingsId, i32)>,
))
    requires
        store.well_formed(),
        *today == midnight_of(today_ts as int),
    ensures
        (res.0@, res.1@) == today_placed(store.tasks@, *anchor, before, task@, today_ts),
{
    let mut task = task;
    let list = today_members(store, today, anchor.evening);
    let at: usize = match position_of(&list, &anchor.uuid) {
        Some(p) => if before {
            p
        } else {
            p + 1
        },
        None => 0,
    };
    let reference = if at < list.len() {
        group_reference_of(list[at], today_ts)
    } else if at >= 1 {
        group_reference_of(list[at - 1], today_ts)
    } else {
        today_ts
    };
    let group = group_of(&list, reference, today_ts, list.len());
    let prior = group_of(&list, reference, today_ts, at);
    assert(group@.len() <= i32::MAX);
    let (today_index, moved) = allocate(group.as_slice(), prior.len());
    task.evening = anchor.evening;
    task.today_index_reference = Some(reference);
    task.today_sort_index = today_index;
    (task, moved)
}

/// an anchor that may be missing, as a value
pub open spec fn anchor_view(anchor: Option<&Task>) -> Option<Task> {
    match anchor {
        Some(a) => Some(*a),
        None => None,
    }
}

/// a repeat that may be missing, as values
pub open spec fn repeat_view(repeat: Option<(RepeatSpec, Bound, i32)>) -> Option<((CadenceView, i32), Bound, int)> {
    match repeat {
        Some(r) => Some((r.0@, r.1, r.2 as int)),
        None => None,
    }
}

/// the plan is the outcome's, or the outcome plans nothing when there is none
pub open spec fn checked_matches(outcome: NewOutcome, plan: Option<Result<NewPlan, String>>, today_ts: i64) -> bool {
    match plan {
        None => outcome is Unplannable,
        Some(p) => plan_matches(outcome, p, today_ts),
    }
}

/// a new to-do placed in its list and in Today, with the days of its template
fn place(
    store: &ThingsStore,
    args: &NewArgs,
    task: NewTask,
    anchor: Option<&Task>,
    repeat: Option<(RepeatSpec, Bound, i32)>,
    now: Instant,
    today_ts: i64,
    today: &Instant,
) -> (res: Option<Result<NewPlan, String>>)
    requires
        store.well_formed(),
        *today == midnight_of(today_ts as int),
        day_of_spec(today_ts as int) is Some,
        repeat matches Some(r) ==> well_formed(r.0@) && valid_day(r.2 as int) && (r.1 matches Bound::Until(
            u,
        ) ==> valid_day(u as int)),
    ensures
        res matches Some(Ok(p)) ==> p.entity == EntityType::Task7 && p.modification_date == now,
        checked_matches(placed_new(*store, *args, task@, anchor_view(anchor), repeat_view(repeat), today_ts), res, today_ts),
{
    let ghost input = task@;
    let ghost tasks = store.tasks@;
    let target = target_of(&task);
    let before = args.before_id.is_some();
    let in_today = match anchor {
        Some(a) => a.start == TaskStart::Anytime && (a.is_today(today) || a.evening),
        None => false,
    };
    match anchor {
        Some(a) => {
            if !in_today && !same_target(&store.bucket(a), &target) {
                return Some(Err(String::from_str("Cannot place new task relative to an item in a different container/list.")));
            }
        },
        None => {},
    }
    let siblings = siblings_of(store, &target);
    let at: usize = match anchor {
        Some(a) => if same_target(&store.bucket(a), &target) {
            match position_of(&siblings, &a.uuid) {
                Some(p) => if before {
                    p
                } else {
                    p + 1
                },
                None => return Some(Err(String::from_str("Anchor not found in target list."))),
            }
        } else {
            0
        },
        None => 0,
    };
    proof {
        let list = sibling_list(*store, bucket_view(target));
        let expected_at = match anchor_view(anchor) {
            Some(a) => if bucket_of(tasks, a) == bucket_view(target) {
                match position_in(list, a.uuid@, list.len() as int) {
                    Some(p) => Some(
                        if before {
                            p
                        } else {
                            p + 1
                        },
                    ),
                    None => None,
                }
            } else {
                Some(0int)
            },
            None => Some(0int),
        };
        assert(expected_at == Some(at as int));
    }
    let run = run_with(&siblings, false);
    assert(run@.len() <= i32::MAX);
    let (index, moved) = allocate(run.as_slice(), at);
    assert(allocation(run_of(held(siblings@), false), at as int) == (index, moved@));
    let mut task = task;
    task.sort_index = index;
    assert(task@ == NewTaskView { sort_index: index, ..input });
    assert(in_today == anchor_today(anchor_view(anchor), today_ts));
    let new_today = task.start == TaskStart::Anytime && match task.scheduled_date {
        Some(day) => day <= today_ts,
        None => false,
    };
    let (task, today_moved) = if new_today && in_today {
        match anchor {
            Some(a) => place_today(store, a, before, task, today_ts, today),
            None => (task, Vec::new()),
        }
    } else {
        (task, Vec::new())
    };
    match repeat {
        None => Some(
            Ok(
                NewPlan {
                    task,
                    repeat: None,
                    index_updates: moved,
                    today_updates: today_moved,
                    entity: EntityType::Task7,
                    modification_date: now,
                },
            ),
        ),
        Some((spec, end, first)) => match spec.template_days(first) {
            None => None,
            Some((next, back)) => {
                let today_day = match day_of(today_ts) {
                    Some(day) => day,
                    None => 0,
                };
                let rule = spec.rule(first, today_day, end);
                Some(
                    Ok(
                        NewPlan {
                            task,
                            repeat: Some(NewRepeat { rule, first, next, after_completion_reference: back }),
                            index_updates: moved,
                            today_updates: today_moved,
                            entity: EntityType::Task7,
                            modification_date: now,
                        },
                    ),
                )
            },
        },
    }
}

/// what the flags of a new to-do come to, computed
fn plan_new(args: &NewArgs, store: &ThingsStore, now: Instant, today_ts: i64) -> (res: Option<Result<NewPlan, String>>)
    requires
        store.well_formed(),
        day_of_spec(today_ts as int) is Some,
    ensures
        res matches Some(Ok(p)) ==> p.entity == EntityType::Task7 && p.modification_date == now,
        checked_matches(new_outcome(*store, *args, today_ts), res, today_ts),
{
    let day = match day_of(today_ts) {
        Some(day) => day,
        None => 0,
    };
    let today = Instant { seconds: day_timestamp(day), nanos: 0 };
    let title = trimmed(args.title.as_str());
    if title.as_str().unicode_len() == 0 {
        return Some(Err(String::from_str("Task title cannot be empty.")));
    }
    let anchor = match anchor_of(store, args) {
        Ok(anchor) => anchor,
        Err(message) => return Some(Err(message)),
    };
    let target_text = trimmed(args.in_target.as_str());
    let (project, area) = match container_of(store, target_text.as_str()) {
        Ok(found) => found,
        Err(message) => return Some(Err(message)),
    };
    let notes = if args.notes.as_str().unicode_len() > 0 {
        Some(args.notes.clone())
    } else {
        None
    };
    let start = if project.is_some() || area.is_some() {
        TaskStart::Anytime
    } else {
        TaskStart::Inbox
    };
    let task = NewTask {
        title,
        notes,
        start,
        scheduled_date: None,
        today_index_reference: None,
        evening: false,
        alarm_time_offset: None,
        tag_ids: Vec::new(),
        deadline: None,
        project,
        area,
        sort_index: 0,
        today_sort_index: 0,
    };
    proof {
        assert(id_bytes_of(task.tag_ids@) =~= seq![]);
        assert(task@ == base_view(trim_spec(args.title@), args.notes@, project, area));
    }
    let task = match &args.when {
        None => task,
        Some(w) => {
            let when = trimmed(w.as_str());
            match when_applied(task, when.as_str(), today_ts) {
                Ok(t) => t,
                Err(message) => return Some(Err(message)),
            }
        },
    };
    let task = match reminder_applied(task, &args.reminder) {
        Ok(t) => t,
        Err(message) => return Some(Err(message)),
    };
    let (task, repeat) = match repeat_applied(task, args, today_ts) {
        RepeatApplied::Kept(t, r) => (t, r),
        RepeatApplied::Refused(message) => return Some(Err(message)),
        RepeatApplied::Unplannable => return None,
    };
    let task = match tags_applied(store, task, &args.tags) {
        Ok(t) => t,
        Err(message) => return Some(Err(message)),
    };
    let task = match deadline_applied(task, &args.deadline_date) {
        Ok(t) => t,
        Err(message) => return Some(Err(message)),
    };
    place(store, args, task, anchor, repeat, now, today_ts, &today)
}

/// the plan of a new to-do: its fields, its template when it repeats, and the siblings its place moves, or the message refusing it
///
/// `today_ts` is the timestamp of today's UTC midnight; a day today or before starts in Anytime, a later one in Someday
pub fn new_plan(args: &NewArgs, store: &ThingsStore, now: Instant, today_ts: i64) -> (plan: Result<NewPlan, String>)
    requires
        store.well_formed(),
        day_of_spec(today_ts as int) is Some,
        !(new_outcome(*store, *args, today_ts) is Unplannable),
    ensures
        plan_matches(new_outcome(*store, *args, today_ts), plan, today_ts),
        plan matches Ok(p) ==> p.entity == EntityType::Task7 && p.modification_date == now,
{
    match plan_new(args, store, now, today_ts) {
        Some(plan) => plan,
        None => Err(String::new()),
    }
}

/// the plan of a new to-do as `new_plan` makes it, or None where a day it needs would fall beyond the calendar or its repeat interval cannot be split before the unit
pub fn new_plan_checked(args: &NewArgs, store: &ThingsStore, now: Instant, today_ts: i64) -> (plan: Option<
    Result<NewPlan, String>,
>)
    requires
        store.well_formed(),
        day_of_spec(today_ts as int) is Some,
    ensures
        checked_matches(new_outcome(*store, *args, today_ts), plan, today_ts),
        plan matches Some(Ok(p)) ==> p.entity == EntityType::Task7 && p.modification_date == now,
{
    match plan_new(args, store, now, today_ts) {
        None => None,
        Some(_) => Some(new_plan(args, store, now, today_ts)),
    }
}

/// a repeating new to-do is scheduled, and the first day of its rule has not passed
#[verifier::spinoff_prover]
#[verifier::rlimit(80)]
pub proof fn lemma_repeat_starts_on_its_first_day(store: ThingsStore, args: NewArgs, today_ts: i64)
    requires
        new_outcome(store, args, today_ts) matches NewOutcome::Planned(_, Some(_), _, _),
    ensures
        match new_outcome(store, args, today_ts) {
            NewOutcome::Planned(v, Some(r), _, _) => v.scheduled_date is Some && r.2 >= day_of_spec(today_ts as int)->0,
            _ => true,
        },
{
    let title = trim_spec(args.title@);
    let anchor = new_anchor(store, args)->Ok_0;
    let (project, area) = new_container(store, trim_spec(args.in_target@))->Ok_0;
    let base = base_view(title, args.notes@, project, area);
    let when = match args.when {
        None => Ok(base),
        Some(w) => with_when(base, trim_spec(w@), today_ts),
    };
    let v1 = when->Ok_0;
    let v2 = with_reminder(v1, args.reminder)->Ok_0;
    let step = new_repeat(v2, args, today_ts);
    assert(step is Kept);
    let v3 = step->Kept_0;
    assert(v3.scheduled_date is Some);
    let v4 = with_tags(store, v3, args.tags)->Ok_0;
    let v5 = with_deadline(v4, args.deadline_date)->Ok_0;
    assert(v5.scheduled_date == v3.scheduled_date);
}

/// the words `--when` takes differ, whatever the case of their letters
proof fn lemma_when_words_differ(w: Seq<char>)
    ensures
        same_word(w, "evening"@) ==> !same_word(w, "anytime"@) && !same_word(w, "someday"@) && !same_word(w, "today"@),
        same_word(w, "today"@) ==> !same_word(w, "anytime"@) && !same_word(w, "someday"@) && !same_word(w, "evening"@),
{
    reveal_strlit("evening");
    reveal_strlit("anytime");
    reveal_strlit("someday");
    reveal_strlit("today");
    assert(lowercase_spec("evening"@)[0] == 'e');
    assert(lowercase_spec("anytime"@)[0] == 'a');
    assert(lowercase_spec("someday"@)[0] == 's');
    assert(lowercase_spec("today"@)[0] == 't');
}

/// `--when evening` or `--when today` starts the to-do in Anytime on today, its evening bit set
/// for evening alone
proof fn lemma_when_today_or_evening(v: NewTaskView, w: Seq<char>, today_ts: i64)
    requires
        same_word(w, "evening"@) || same_word(w, "today"@),
    ensures
        with_when(v, w, today_ts) matches Ok(u) && u.start == TaskStart::Anytime && u.scheduled_date == Some(today_ts)
            && u.evening == same_word(w, "evening"@),
{
    lemma_when_words_differ(w);
}

/// reading `--reminder`, `--repeat`, `--tags` and `--deadline` leaves the evening bit as it was,
/// and all but a repeat leave the start and the day too
proof fn lemma_later_flags_keep_evening(store: ThingsStore, args: NewArgs, v: NewTaskView, today_ts: i64)
    ensures
        with_reminder(v, args.reminder) matches Ok(w) ==> w.evening == v.evening && w.start == v.start
            && w.scheduled_date == v.scheduled_date,
        new_repeat(v, args, today_ts) matches RepeatStep::Kept(w, r) ==> w.evening == v.evening && (args.repeat is None
            ==> w == v && r is None),
        with_tags(store, v, args.tags) matches Ok(w) ==> w.evening == v.evening && w.start == v.start
            && w.scheduled_date == v.scheduled_date,
        with_deadline(v, args.deadline_date) matches Ok(w) ==> w.evening == v.evening && w.start == v.start
            && w.scheduled_date == v.scheduled_date,
{
}

/// placing a to-do keeps its start, its day and its evening bit, unless it goes beside a to-do in
/// Today, whose part of Today it joins
proof fn lemma_placing_keeps_evening(
    store: ThingsStore,
    args: NewArgs,
    v: NewTaskView,
    anchor: Option<Task>,
    repeat: Option<((CadenceView, i32), Bound, int)>,
    today_ts: i64,
)
    ensures
        placed_new(store, args, v, anchor, repeat, today_ts) matches NewOutcome::Planned(w, _, _, _) ==> w.start
            == v.start && w.scheduled_date == v.scheduled_date && (w.evening == v.evening || (anchor matches Some(a)
            && anchor_in_today(a, today_ts) && w.evening == a.evening)),
{
}

/// A new to-do for `--when evening` lands in This Evening and one for `--when today` in plain
/// Today, whatever the case of the word: its evening bit is set for evening and clear for
/// today, unless it is placed beside a to-do in Today, whose part of Today it joins. Either way
/// it starts on a day, and without a repeat, which may move it to the rule's first day, it starts
/// in Anytime on today.
#[verifier::rlimit(40)]
pub proof fn lemma_when_evening_sets_the_evening_bit(store: ThingsStore, args: NewArgs, today_ts: i64)
    requires
        args.when is Some,
        same_word(trim_spec(args.when->0@), "evening"@) || same_word(trim_spec(args.when->0@), "today"@),
    ensures
        new_outcome(store, args, today_ts) matches NewOutcome::Planned(v, _, _, _) ==> {
            &&& args.repeat is None ==> v.start == TaskStart::Anytime && v.scheduled_date == Some(today_ts)
            &&& (v.evening == same_word(trim_spec(args.when->0@), "evening"@) || (new_anchor(store, args) matches Ok(
                Some(a),
            ) && anchor_in_today(a, today_ts) && v.evening == a.evening))
        },
{
    if new_outcome(store, args, today_ts) is Planned {
        let title = trim_spec(args.title@);
        let anchor = new_anchor(store, args)->Ok_0;
        let (project, area) = new_container(store, trim_spec(args.in_target@))->Ok_0;
        let base = base_view(title, args.notes@, project, area);
        let w = trim_spec(args.when->0@);
        lemma_when_today_or_evening(base, w, today_ts);
        let v1 = with_when(base, w, today_ts)->Ok_0;
        lemma_later_flags_keep_evening(store, args, v1, today_ts);
        let v2 = with_reminder(v1, args.reminder)->Ok_0;
        lemma_later_flags_keep_evening(store, args, v2, today_ts);
        let v3 = new_repeat(v2, args, today_ts)->Kept_0;
        let repeat = new_repeat(v2, args, today_ts)->Kept_1;
        lemma_later_flags_keep_evening(store, args, v3, today_ts);
        let v4 = with_tags(store, v3, args.tags)->Ok_0;
        lemma_later_flags_keep_evening(store, args, v4, today_ts);
        let v5 = with_deadline(v4, args.deadline_date)->Ok_0;
        lemma_placing_keeps_evening(store, args, v5, anchor, repeat, today_ts);
    }
}

} // verus!
