//! the items of the local store: to-dos, projects and headings, checklist items, areas and tags, as the views read them

use crate::common::{blank, decimal, is_blank, signed_decimal, signed_decimal_text};
use crate::ids::things_id::ThingsId;
use crate::wire::{RecurrenceRule, TaskStart, TaskStatus, TaskType};
use vstd::prelude::*;

verus! {

/// an instant of the wire as UTC: whole seconds since 1970 and the nanoseconds past them
#[derive(Debug, Clone, Copy, PartialEq, Eq, Structural)]
pub struct Instant {
    pub seconds: i64,
    pub nanos: u32,
}

/// instants in order: by their seconds, then by their nanoseconds
pub open spec fn instant_key(t: Instant) -> int {
    t.seconds * 0x1_0000_0000 + t.nanos
}

/// the earlier instant comes first, or they are the same
pub fn instant_le(a: Instant, b: Instant) -> (earlier: bool)
    ensures
        earlier == (instant_key(a) <= instant_key(b)),
{
    a.seconds < b.seconds || (a.seconds == b.seconds && a.nanos <= b.nanos)
}

#[derive(Debug, Clone)]
pub struct Tag {
    pub uuid: ThingsId,
    pub title: String,
    pub shortcut: Option<String>,
    pub index: i32,
    pub parent_uuid: Option<ThingsId>,
}

#[derive(Debug, Clone)]
pub struct Area {
    pub uuid: ThingsId,
    pub title: String,
    pub tags: Vec<ThingsId>,
    pub index: i32,
}

#[derive(Debug, Clone)]
pub struct ChecklistItem {
    pub uuid: ThingsId,
    pub title: String,
    pub task_uuid: ThingsId,
    pub status: TaskStatus,
    pub index: i32,
}

impl ChecklistItem {
    pub fn is_completed(&self) -> (done: bool)
        ensures
            done == (self.status == TaskStatus::Completed),
    {
        self.status == TaskStatus::Completed
    }

    pub fn is_canceled(&self) -> (canceled: bool)
        ensures
            canceled == (self.status == TaskStatus::Canceled),
    {
        self.status == TaskStatus::Canceled
    }
}

/// the to-dos of a project, and how many of them are done
#[derive(Debug, Clone, Copy, PartialEq, Eq, Structural)]
pub struct ProjectProgress {
    pub total: i32,
    pub done: i32,
}

impl Default for ProjectProgress {
    fn default() -> (progress: ProjectProgress)
        ensures
            progress == (ProjectProgress { total: 0, done: 0 }),
    {
        ProjectProgress { total: 0, done: 0 }
    }
}

/// the replayed state of a checklist item
#[derive(Debug, Clone)]
pub struct ChecklistItemStateProps {
    pub title: String,
    pub status: TaskStatus,
    /// `sp`, as the bits of the wire's floating-point timestamp
    pub stop_date: Option<u64>,
    pub task_ids: Vec<ThingsId>,
    pub sort_index: i32,
}

/// the replayed state of an area
#[derive(Debug, Clone)]
pub struct AreaStateProps {
    pub title: String,
    pub tag_ids: Vec<ThingsId>,
    pub sort_index: i32,
}

/// the replayed state of a tag
#[derive(Debug, Clone)]
pub struct TagStateProps {
    pub title: String,
    pub shortcut: Option<String>,
    pub sort_index: i32,
    pub parent_ids: Vec<ThingsId>,
}

/// a to-do, project or heading as the views read it
#[derive(Debug, Clone)]
pub struct Task {
    pub uuid: ThingsId,
    pub title: String,
    pub status: TaskStatus,
    pub start: TaskStart,
    pub item_type: TaskType,
    /// the entity name the history writes it under, such as `Task6`
    pub entity: String,
    pub notes: Option<String>,
    pub project: Option<ThingsId>,
    pub area: Option<ThingsId>,
    pub action_group: Option<ThingsId>,
    pub tags: Vec<ThingsId>,
    pub trashed: bool,
    pub deadline: Option<Instant>,
    pub deadline_suppressed: bool,
    pub start_date: Option<Instant>,
    pub stop_date: Option<Instant>,
    pub creation_date: Option<Instant>,
    pub modification_date: Option<Instant>,
    pub index: i32,
    pub today_index: i32,
    pub today_index_reference: Option<i64>,
    pub leaves_tombstone: bool,
    pub instance_creation_paused: bool,
    pub instance_creation_start_date: Option<i64>,
    pub instance_creation_count: i32,
    pub evening: bool,
    pub alarm_time_offset: Option<i64>,
    pub recurrence_rule: Option<RecurrenceRule>,
    /// the repeater of an old repeating item, as the JSON text the history holds
    pub repeater: Option<String>,
    pub recurrence_templates: Vec<ThingsId>,
    /// `do`, the deadline of a repeat's instances as days after their day
    pub due_date_offset: i32,
    /// the object's replay did not complete
    ///
    /// what is shown may be behind the history
    /// no write goes through it
    pub degraded: bool,
    pub checklist_items: Vec<ChecklistItem>,
}

/// `a / b` rounded toward zero, as Rust divides
pub open spec fn trunc_div(a: int, b: int) -> int {
    if a >= 0 {
        a / b
    } else {
        -((-a) / b)
    }
}

/// the remainder of `a / b` rounded toward zero, as Rust's `%`
pub open spec fn trunc_rem(a: int, b: int) -> int {
    a - b * trunc_div(a, b)
}

/// a number as `{:02}` writes it: two digits at least, zero-padded after any sign
pub open spec fn two_digits(n: int) -> Seq<char> {
    if 0 <= n < 10 {
        "0"@ + decimal(n as nat)
    } else {
        signed_decimal(n)
    }
}

/// the reminder of an offset in seconds after midnight, as `HH:MM`
pub open spec fn reminder_text(secs: int) -> Seq<char> {
    two_digits(trunc_div(secs, 3600)) + ":"@ + two_digits(trunc_div(trunc_rem(secs, 3600), 60))
}

/// a number as `{:02}` writes it
fn two_digit_text(n: i64) -> (text: String)
    ensures
        text@ == two_digits(n as int),
{
    if 0 <= n && n < 10 {
        let mut text = String::from_str("0");
        let digits = signed_decimal_text(n);
        text.append(digits.as_str());
        text
    } else {
        signed_decimal_text(n)
    }
}

/// the plain-text status tests of a to-do, project or heading
pub open spec fn is_project_spec(task: Task) -> bool {
    task.item_type == TaskType::Project
}

/// a blank row: no title, notes, checklist, tag or deadline, and no project
pub open spec fn blank_task(task: Task) -> bool {
    &&& !is_project_spec(task)
    &&& blank(task.title@)
    &&& match task.notes {
        Some(notes) => blank(notes@),
        None => true,
    }
    &&& task.checklist_items@.len() == 0
    &&& task.tags@.len() == 0
    &&& task.deadline is None
}

/// the template of a repeating item: a rule, and no template of its own
pub open spec fn is_template_spec(task: Task) -> bool {
    task.recurrence_rule is Some && task.recurrence_templates@.len() == 0
}

/// the day rule of the Today list
pub open spec fn today_rule(task: Task, today: Instant) -> bool {
    !is_template_spec(task) && match task.start_date {
        Some(start) => (task.start == TaskStart::Anytime || task.start == TaskStart::Someday)
            && instant_key(start) <= instant_key(today),
        None => !task.deadline_suppressed && match task.deadline {
            Some(deadline) => instant_key(deadline) <= instant_key(today),
            None => false,
        },
    }
}

impl Task {
    /// the reminder as `HH:MM`, None without one
    pub fn reminder(&self) -> (time: Option<String>)
        ensures
            match self.alarm_time_offset {
                Some(secs) => time matches Some(t) && t@ == reminder_text(secs as int),
                None => time is None,
            },
    {
        match self.alarm_time_offset {
            Some(secs) => {
                // the quotient and remainder rounded toward zero, by the magnitude
                let magnitude: u64 = if secs >= 0 {
                    secs as u64
                } else {
                    (-(secs as i128)) as u64
                };
                let hours_magnitude = magnitude / 3600;
                let rest_magnitude = magnitude % 3600;
                let hours: i64 = if secs >= 0 {
                    hours_magnitude as i64
                } else {
                    -(hours_magnitude as i64)
                };
                let rest: i64 = if secs >= 0 {
                    rest_magnitude as i64
                } else {
                    -(rest_magnitude as i64)
                };
                let minutes: i64 = if rest >= 0 {
                    rest / 60
                } else {
                    -((-rest) / 60)
                };
                proof {
                    let s = secs as int;
                    let m = magnitude as int;
                    vstd::arithmetic::div_mod::lemma_fundamental_div_mod(m, 3600);
                    assert(trunc_div(s, 3600) == hours);
                    assert(trunc_rem(s, 3600) == rest);
                    assert(trunc_div(rest as int, 60) == minutes);
                }
                let mut time = two_digit_text(hours);
                time.append(":");
                let tail = two_digit_text(minutes);
                time.append(tail.as_str());
                Some(time)
            },
            None => None,
        }
    }

    /// a blank row with nothing in it
    ///
    /// notes, a checklist, a tag or a deadline alone make it a row that counts
    /// a project always counts
    /// it holds its to-dos
    pub fn is_blank(&self) -> (empty: bool)
        ensures
            empty == blank_task(*self),
    {
        !self.is_project() && is_blank(self.title.as_str()) && match &self.notes {
            Some(notes) => is_blank(notes.as_str()),
            None => true,
        } && self.checklist_items.len() == 0 && self.tags.len() == 0 && self.deadline.is_none()
    }

    pub fn is_completed(&self) -> (done: bool)
        ensures
            done == (self.status == TaskStatus::Completed),
    {
        self.status == TaskStatus::Completed
    }

    pub fn is_canceled(&self) -> (canceled: bool)
        ensures
            canceled == (self.status == TaskStatus::Canceled),
    {
        self.status == TaskStatus::Canceled
    }

    pub fn is_todo(&self) -> (todo: bool)
        ensures
            todo == (self.item_type == TaskType::Todo),
    {
        self.item_type == TaskType::Todo
    }

    /// the number of an item kind this CLI does not know, None for a to-do, project or heading
    pub fn unknown_kind(&self) -> (kind: Option<i32>)
        ensures
            kind == match self.item_type {
                TaskType::Unknown(raw) => Some(raw),
                _ => None::<i32>,
            },
    {
        match self.item_type {
            TaskType::Unknown(raw) => Some(raw),
            _ => None,
        }
    }

    pub fn is_project(&self) -> (project: bool)
        ensures
            project == is_project_spec(*self),
    {
        self.item_type == TaskType::Project
    }

    pub fn is_heading(&self) -> (heading: bool)
        ensures
            heading == (self.item_type == TaskType::Heading),
    {
        self.item_type == TaskType::Heading
    }

    pub fn in_someday(&self) -> (someday: bool)
        ensures
            someday == (self.start == TaskStart::Someday && self.start_date is None),
    {
        self.start == TaskStart::Someday && self.start_date.is_none()
    }

    /// the day rule of the Today list
    ///
    /// `ThingsStore::in_today` completes it
    ///
    /// started on or before today, or undated with a deadline on or before today that nobody took out of Today
    /// templates are excluded
    pub fn is_today(&self, today: &Instant) -> (due: bool)
        ensures
            due == today_rule(*self, *today),
    {
        if self.is_recurrence_template() {
            return false;
        }
        match self.start_date {
            Some(start_date) => (self.start == TaskStart::Anytime || self.start == TaskStart::Someday)
                && instant_le(start_date, *today),
            None => !self.deadline_suppressed && match self.deadline {
                Some(deadline) => instant_le(deadline, *today),
                None => false,
            },
        }
    }

    pub fn is_staged_for_today(&self, today: &Instant) -> (staged: bool)
        ensures
            staged == match self.start_date {
                Some(start) => self.start == TaskStart::Someday && instant_key(start)
                    <= instant_key(*today),
                None => false,
            },
    {
        match self.start_date {
            Some(start_date) => self.start == TaskStart::Someday && instant_le(start_date, *today),
            None => false,
        }
    }

    pub fn is_recurrence_template(&self) -> (template: bool)
        ensures
            template == is_template_spec(*self),
    {
        self.recurrence_rule.is_some() && self.recurrence_templates.len() == 0
    }

    pub fn is_recurrence_instance(&self) -> (instance: bool)
        ensures
            instance == (self.recurrence_rule is None && self.recurrence_templates@.len() > 0),
    {
        self.recurrence_rule.is_none() && self.recurrence_templates.len() > 0
    }

    pub fn has_repeater(&self) -> (has: bool)
        ensures
            has == self.repeater is Some,
    {
        self.repeater.is_some()
    }
}

} // verus!
