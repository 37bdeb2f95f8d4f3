//! the values of the Things Cloud wire format that the logic reads, as plain values
//!
//! the JSON itself is read and written around the library

use vstd::prelude::*;

verus! {

/// `fu`, the unit a repeat rule counts in
#[derive(Debug, Clone, Copy, PartialEq, Eq, Structural)]
pub enum FrequencyUnit {
    Daily,
    Weekly,
    Monthly,
    Yearly,
    Unknown(i64),
}

/// the unit a wire number names
pub open spec fn unit_of_wire(code: i64) -> FrequencyUnit {
    if code == 16 {
        FrequencyUnit::Daily
    } else if code == 256 {
        FrequencyUnit::Weekly
    } else if code == 8 {
        FrequencyUnit::Monthly
    } else if code == 4 {
        FrequencyUnit::Yearly
    } else {
        FrequencyUnit::Unknown(code)
    }
}

/// the repeat type a wire number names
pub open spec fn recurrence_type_of_wire(code: i64) -> RecurrenceType {
    if code == 0 {
        RecurrenceType::FixedSchedule
    } else if code == 1 {
        RecurrenceType::AfterCompletion
    } else {
        RecurrenceType::Unknown(code)
    }
}

impl FrequencyUnit {
    /// the unit a wire number names
    pub fn from_wire(code: i64) -> (unit: FrequencyUnit)
        ensures
            unit == unit_of_wire(code),
    {
        if code == 16 {
            FrequencyUnit::Daily
        } else if code == 256 {
            FrequencyUnit::Weekly
        } else if code == 8 {
            FrequencyUnit::Monthly
        } else if code == 4 {
            FrequencyUnit::Yearly
        } else {
            FrequencyUnit::Unknown(code)
        }
    }

    /// the wire number of the unit
    pub fn to_wire(&self) -> (code: i64)
        ensures
            *self matches FrequencyUnit::Unknown(c) && (c == 16 || c == 256 || c == 8 || c == 4)
                || unit_of_wire(code) == *self,
    {
        match self {
            FrequencyUnit::Daily => 16,
            FrequencyUnit::Weekly => 256,
            FrequencyUnit::Monthly => 8,
            FrequencyUnit::Yearly => 4,
            FrequencyUnit::Unknown(code) => *code,
        }
    }
}

/// `tp` of a repeat rule
#[derive(Debug, Clone, Copy, PartialEq, Eq, Structural)]
pub enum RecurrenceType {
    FixedSchedule,
    AfterCompletion,
    Unknown(i64),
}

impl RecurrenceType {
    pub fn from_wire(code: i64) -> (kind: RecurrenceType)
        ensures
            kind == recurrence_type_of_wire(code),
    {
        if code == 0 {
            RecurrenceType::FixedSchedule
        } else if code == 1 {
            RecurrenceType::AfterCompletion
        } else {
            RecurrenceType::Unknown(code)
        }
    }

    pub fn to_wire(&self) -> (code: i64)
        ensures
            *self matches RecurrenceType::Unknown(c) && (c == 0 || c == 1)
                || recurrence_type_of_wire(code) == *self,
    {
        match self {
            RecurrenceType::FixedSchedule => 0,
            RecurrenceType::AfterCompletion => 1,
            RecurrenceType::Unknown(code) => *code,
        }
    }
}

/// one entry of `of`, the offsets of a repeat rule: the weekday, the day and the month it names, where it names them as integers
#[derive(Debug, Clone, Copy, PartialEq, Eq, Structural)]
pub struct RuleOffset {
    /// `wd`, a weekday counted from Sunday as 0
    pub wd: Option<i64>,
    /// `dy`, a day counted from 0, -1 for the last
    pub dy: Option<i64>,
    /// `mo`, a month counted from 0
    pub mo: Option<i64>,
}

/// `rr`, a repeat rule as the wire holds it
#[derive(Debug, Clone, PartialEq, Eq)]
pub struct RecurrenceRule {
    /// `tp`
    pub recurrence_type: RecurrenceType,
    /// `fu`
    pub frequency_unit: FrequencyUnit,
    /// `fa`, every how many units
    pub frequency_amount: i32,
    /// `of`
    pub offsets: Vec<RuleOffset>,
    /// `sr`, the day the rule was made
    pub start_date: Option<i64>,
    /// `ia`, the day the intervals count from
    pub interval_anchor: Option<i64>,
    /// `ed`, the last day, `RECURRENCE_END_NEVER` for none
    pub end_date: Option<i64>,
    /// `rc`, how many instances, 0 for no limit
    pub repeat_count: i32,
    /// `ts`
    pub time_span_in_days: i32,
    /// `rrv`
    pub version: i32,
}

/// the end day the app writes for a rule that never ends, 4001-01-01
pub const RECURRENCE_END_NEVER: i64 = 64092211200;

/// the entity a write names: to-dos, projects and headings as the app writes them now (`Task7`)
/// and as older items read (`Task6`), checklist items, areas and tags
#[derive(Debug, Clone, Copy, PartialEq, Eq, Structural)]
pub enum EntityType {
    Task6,
    Task7,
    ChecklistItem3,
    Area3,
    Tag4,
}

/// `ss`, the status of a to-do, project, heading or checklist item
#[derive(Debug, Clone, Copy, PartialEq, Eq, Structural)]
pub enum TaskStatus {
    Incomplete,
    Canceled,
    Completed,
    Unknown(i64),
}

/// `st`, where a to-do starts
#[derive(Debug, Clone, Copy, PartialEq, Eq, Structural)]
pub enum TaskStart {
    Inbox,
    Anytime,
    Someday,
    Unknown(i64),
}

/// `tp`, the kind of a task
#[derive(Debug, Clone, Copy, PartialEq, Eq, Structural)]
pub enum TaskType {
    Todo,
    Project,
    Heading,
    Unknown(i32),
}

impl TaskStart {
    /// the wire number of the start
    pub fn to_wire(&self) -> (code: i64)
        ensures
            code == match *self {
                TaskStart::Inbox => 0,
                TaskStart::Anytime => 1,
                TaskStart::Someday => 2,
                TaskStart::Unknown(code) => code,
            },
    {
        match self {
            TaskStart::Inbox => 0,
            TaskStart::Anytime => 1,
            TaskStart::Someday => 2,
            TaskStart::Unknown(code) => *code,
        }
    }
}

} // verus!
