//! the fields `show` lists for one to-do, project or heading

use crate::calendar::{day_of, day_of_spec, day_text, day_text_spec};
use crate::find::{clear_of_calendar_edges, local_day, plausible_local_day};
use crate::common::{blank, one_line, sanitize, signed_decimal, signed_decimal_text, Shown};
use crate::ids::things_id::{id_text, lemma_id_text_bytes, lemma_parse_of_base58, ThingsId};
use crate::store::entities::{reminder_text, Area, Instant, Tag, Task};
use crate::store::{area_with, effective_area, effective_project, in_trash_spec, tag_with, task_with, ThingsStore};
use crate::wire::{TaskStart, TaskStatus, TaskType};
use vstd::prelude::*;

verus! {

/// the kind of an item as `show` names it
pub open spec fn kind_text(kind: TaskType) -> Seq<char> {
    match kind {
        TaskType::Todo => "to-do"@,
        TaskType::Project => "project"@,
        TaskType::Heading => "heading"@,
        TaskType::Unknown(raw) => "unknown kind "@ + signed_decimal(raw as int),
    }
}

/// the status of an item as `show` names it, with whether it is in the Trash and whether it
/// replayed in full
pub open spec fn status_text(tasks: Seq<Task>, task: Task) -> Seq<char> {
    let base = match task.status {
        TaskStatus::Incomplete => "open"@,
        TaskStatus::Completed => "done"@,
        TaskStatus::Canceled => "canceled"@,
        TaskStatus::Unknown(raw) => "unknown status "@ + signed_decimal(raw as int),
    };
    let trashed = if in_trash_spec(tasks, task) {
        base + ", in the Trash"@
    } else {
        base
    };
    if task.degraded {
        trashed + ", did not replay completely"@
    } else {
        trashed
    }
}

/// the UTC day of a day stamp as YYYY-MM-DD, empty for a stamp beyond the calendar
pub open spec fn stamp_text(stamp: Instant) -> Seq<char> {
    match day_of_spec(stamp.seconds as int) {
        Some(n) => day_text_spec(n as int),
        None => Seq::empty(),
    }
}

/// a day stamp as `When` shows it: today, or its day
pub open spec fn day_shown(stamp: Instant, today_ts: i64) -> Seq<char> {
    if day_of_spec(stamp.seconds as int) == day_of_spec(today_ts as int) {
        "today"@
    } else {
        stamp_text(stamp)
    }
}

/// where and when an item starts, as `show` says it: its list, or its day; a start this CLI does
/// not know with the day it carries; then evening and the reminder
pub open spec fn when_text(task: Task, today_ts: i64) -> Seq<char> {
    let base = match task.start {
        TaskStart::Unknown(raw) => match task.start_date {
            Some(d) => "unknown start "@ + signed_decimal(raw as int) + ", "@ + day_shown(d, today_ts),
            None => "unknown start "@ + signed_decimal(raw as int),
        },
        TaskStart::Inbox => "inbox"@,
        TaskStart::Someday => match task.start_date {
            Some(d) => day_shown(d, today_ts),
            None => "someday"@,
        },
        TaskStart::Anytime => match task.start_date {
            Some(d) => day_shown(d, today_ts),
            None => "anytime"@,
        },
    };
    let evening = if task.evening {
        base + " evening"@
    } else {
        base
    };
    match task.alarm_time_offset {
        Some(secs) => evening + " @"@ + reminder_text(secs as int),
        None => evening,
    }
}

/// the title of the project an id names, or the id's first eight characters in its place
pub open spec fn project_title_of(tasks: Seq<Task>, id: ThingsId) -> Seq<char> {
    match task_with(tasks, id) {
        Some(t) if !blank(t.title@) => t.title@,
        _ => "(project "@ + id_text(id).take(
            if id_text(id).len() < 8 {
                id_text(id).len() as int
            } else {
                8
            },
        ) + ")"@,
    }
}

/// the title of the area an id names, or the id's text
pub open spec fn area_title_of(areas: Seq<Area>, id: ThingsId) -> Seq<char> {
    match area_with(areas, id) {
        Some(a) => a.title@,
        None => id_text(id),
    }
}

/// the title of the tag an id names, or the id's text where no tag with a title has it
pub open spec fn tag_title_of(tags: Seq<Tag>, id: ThingsId) -> Seq<char> {
    match tag_with(tags, id) {
        Some(t) if !blank(t.title@) => t.title@,
        _ => id_text(id),
    }
}

/// the titles of the first `n` tags, each on one line, joined by commas
pub open spec fn tags_text(tags: Seq<Tag>, ids: Seq<ThingsId>, n: int) -> Seq<char>
    decreases n,
{
    if n <= 0 {
        Seq::empty()
    } else if n == 1 {
        sanitize(tag_title_of(tags, ids[0]), Shown::Field)
    } else {
        tags_text(tags, ids, n - 1) + ", "@ + sanitize(tag_title_of(tags, ids[n - 1]), Shown::Field)
    }
}

/// a line that shows only where `shown`
pub open spec fn line_if(shown: bool, name: Seq<char>, value: Seq<char>) -> Seq<(Seq<char>, Seq<char>)> {
    if shown {
        seq![(name, value)]
    } else {
        Seq::empty()
    }
}

/// the fields `show` lists for an item, each a name and its value: kind and status, when, then
/// the deadline, project, heading, area and tags the item has
pub open spec fn show_spec(tasks: Seq<Task>, areas: Seq<Area>, tags: Seq<Tag>, task: Task, today_ts: i64) -> Seq<
    (Seq<char>, Seq<char>),
> {
    seq![("Kind"@, kind_text(task.item_type) + ", "@ + status_text(tasks, task)), ("When"@, when_text(task, today_ts))]
        + line_if(task.deadline is Some, "Deadline"@, stamp_text(task.deadline->0)) + line_if(
        effective_project(tasks, task) is Some,
        "Project"@,
        sanitize(project_title_of(tasks, effective_project(tasks, task)->0), Shown::Field),
    ) + line_if(
        task.action_group is Some && task_with(tasks, task.action_group->0) is Some,
        "Heading"@,
        sanitize(task_with(tasks, task.action_group->0)->0.title@, Shown::Field),
    ) + line_if(
        effective_area(tasks, task) is Some,
        "Area"@,
        sanitize(area_title_of(areas, effective_area(tasks, task)->0), Shown::Field),
    ) + line_if(task.tags@.len() > 0, "Tags"@, tags_text(tags, task.tags@, task.tags@.len() as int))
}

/// the fields as text
pub open spec fn lines_view(lines: Seq<(String, String)>) -> Seq<(Seq<char>, Seq<char>)> {
    lines.map_values(|l: (String, String)| (l.0@, l.1@))
}

/// a day stamp as YYYY-MM-DD
fn stamp_string(stamp: &Instant) -> (text: String)
    ensures
        text@ == stamp_text(*stamp),
{
    match day_of(stamp.seconds) {
        Some(n) => day_text(n),
        None => String::new(),
    }
}

/// a day stamp as `When` shows it
fn day_string(stamp: &Instant, today_ts: i64) -> (text: String)
    ensures
        text@ == day_shown(*stamp, today_ts),
{
    if day_of(stamp.seconds) == day_of(today_ts) {
        String::from_str("today")
    } else {
        stamp_string(stamp)
    }
}

/// the name and value of a line
fn push_line(lines: &mut Vec<(String, String)>, name: &str, value: String)
    ensures
        lines_view(final(lines)@) == lines_view(old(lines)@).push((name@, value@)),
{
    let ghost before = lines@;
    lines.push((String::from_str(name), value));
    assert(lines_view(lines@) =~= lines_view(before).push((name@, value@)));
}

/// the parsed text of an id names what the id does
proof fn lemma_id_string_names(id: ThingsId, text: Seq<char>)
    requires
        text == id_text(id),
    ensures
        crate::ids::things_id::parse_spec(vstd::utf8::encode_utf8(text)) == Some(id@),
        vstd::utf8::encode_utf8(text) == crate::ids::things_id::base58_spec(id@),
{
    lemma_id_text_bytes(id);
    lemma_parse_of_base58(id@);
}

impl ThingsStore {
    /// the kind and status, as the `Kind` line shows them
    fn kind_line(&self, task: &Task) -> (text: String)
        ensures
            text@ == kind_text(task.item_type) + ", "@ + status_text(self.tasks@, *task),
    {
        let mut kind = match task.item_type {
            TaskType::Todo => String::from_str("to-do"),
            TaskType::Project => String::from_str("project"),
            TaskType::Heading => String::from_str("heading"),
            TaskType::Unknown(raw) => {
                let mut text = String::from_str("unknown kind ");
                text.append(signed_decimal_text(raw as i64).as_str());
                text
            },
        };
        kind.append(", ");
        let mut status = match task.status {
            TaskStatus::Incomplete => String::from_str("open"),
            TaskStatus::Completed => String::from_str("done"),
            TaskStatus::Canceled => String::from_str("canceled"),
            TaskStatus::Unknown(raw) => {
                let mut text = String::from_str("unknown status ");
                text.append(signed_decimal_text(raw).as_str());
                text
            },
        };
        if self.in_trash(task) {
            status.append(", in the Trash");
        }
        if task.degraded {
            status.append(", did not replay completely");
        }
        kind.append(status.as_str());
        kind
    }

    /// the title of the project an id names, on one line
    fn project_line(&self, p: ThingsId) -> (text: String)
        ensures
            text@ == sanitize(project_title_of(self.tasks@, p), Shown::Field),
    {
        let text = p.to_string();
        proof {
            lemma_id_string_names(p, text@);
        }
        let title = self.resolve_project_title(text.as_str());
        one_line(title.as_str())
    }

    /// the title of the area an id names, on one line
    fn area_line(&self, a: ThingsId) -> (text: String)
        ensures
            text@ == sanitize(area_title_of(self.areas@, a), Shown::Field),
    {
        let text = a.to_string();
        proof {
            lemma_id_string_names(a, text@);
        }
        let title = self.resolve_area_title(text.as_str());
        one_line(title.as_str())
    }

    /// the titles of the tags, each on one line, joined by commas
    fn tags_line(&self, ids: &Vec<ThingsId>) -> (text: String)
        ensures
            text@ == tags_text(self.tags@, ids@, ids@.len() as int),
    {
        let mut joined = String::new();
        let mut k: usize = 0;
        while k < ids.len()
            invariant
                k <= ids@.len(),
                joined@ == tags_text(self.tags@, ids@, k as int),
            decreases ids@.len() - k,
        {
            let id = ids[k];
            let text = id.to_string();
            proof {
                lemma_id_string_names(id, text@);
            }
            let title = self.resolve_tag_title(text.as_str());
            if k > 0 {
                joined.append(", ");
            }
            joined.append(one_line(title.as_str()).as_str());
            k += 1;
        }
        joined
    }

    /// the fields `show` lists for an item, each a name and its value
    ///
    /// `today_ts` is the timestamp of today's UTC midnight, the day a stamp shows as today
    pub fn show_fields(&self, task: &Task, today_ts: i64) -> (lines: Vec<(String, String)>)
        requires
            day_of_spec(today_ts as int) is Some,
        ensures
            lines_view(lines@) == show_spec(self.tasks@, self.areas@, self.tags@, *task, today_ts),
    {
        let mut lines: Vec<(String, String)> = Vec::new();
        push_line(&mut lines, "Kind", self.kind_line(task));
        push_line(&mut lines, "When", when_line(task, today_ts));
        let ghost head = lines_view(lines@);
        match &task.deadline {
            Some(d) => push_line(&mut lines, "Deadline", stamp_string(d)),
            None => {},
        }
        let ghost with_deadline = lines_view(lines@);
        match self.effective_project_uuid(task) {
            Some(p) => push_line(&mut lines, "Project", self.project_line(p)),
            None => {},
        }
        let ghost with_project = lines_view(lines@);
        match task.action_group {
            Some(h) => match self.task(&h) {
                Some(heading) => push_line(&mut lines, "Heading", one_line(heading.title.as_str())),
                None => {},
            },
            None => {},
        }
        let ghost with_heading = lines_view(lines@);
        match self.effective_area_uuid(task) {
            Some(a) => push_line(&mut lines, "Area", self.area_line(a)),
            None => {},
        }
        let ghost with_area = lines_view(lines@);
        if task.tags.len() > 0 {
            push_line(&mut lines, "Tags", self.tags_line(&task.tags));
        }
        proof {
            let tasks = self.tasks@;
            assert(head =~= seq![
                ("Kind"@, kind_text(task.item_type) + ", "@ + status_text(tasks, *task)),
                ("When"@, when_text(*task, today_ts)),
            ]);
            assert(with_deadline =~= head + line_if(task.deadline is Some, "Deadline"@, stamp_text(task.deadline->0)));
            assert(with_project =~= with_deadline + line_if(
                effective_project(tasks, *task) is Some,
                "Project"@,
                sanitize(project_title_of(tasks, effective_project(tasks, *task)->0), Shown::Field),
            ));
            assert(with_heading =~= with_project + line_if(
                task.action_group is Some && task_with(tasks, task.action_group->0) is Some,
                "Heading"@,
                sanitize(task_with(tasks, task.action_group->0)->0.title@, Shown::Field),
            ));
            assert(with_area =~= with_heading + line_if(
                effective_area(tasks, *task) is Some,
                "Area"@,
                sanitize(area_title_of(self.areas@, effective_area(tasks, *task)->0), Shown::Field),
            ));
            assert(lines_view(lines@) =~= with_area + line_if(
                task.tags@.len() > 0,
                "Tags"@,
                tags_text(self.tags@, task.tags@, task.tags@.len() as int),
            ));
        }
        lines
    }
}

/// where and when an item starts, as the `When` line shows it
fn when_line(task: &Task, today_ts: i64) -> (text: String)
    ensures
        text@ == when_text(*task, today_ts),
{
    let mut when = match task.start {
        TaskStart::Unknown(raw) => {
            let mut text = String::from_str("unknown start ");
            text.append(signed_decimal_text(raw).as_str());
            match &task.start_date {
                Some(d) => {
                    text.append(", ");
                    text.append(day_string(d, today_ts).as_str());
                },
                None => {},
            }
            text
        },
        TaskStart::Inbox => String::from_str("inbox"),
        TaskStart::Someday => match &task.start_date {
            Some(d) => day_string(d, today_ts),
            None => String::from_str("someday"),
        },
        TaskStart::Anytime => match &task.start_date {
            Some(d) => day_string(d, today_ts),
            None => String::from_str("anytime"),
        },
    };
    if task.evening {
        when.append(" evening");
    }
    match task.reminder() {
        Some(time) => {
            when.append(" @");
            when.append(time.as_str());
        },
        None => {},
    }
    when
}

/// a local day as YYYY-MM-DD, empty for none
pub open spec fn local_day_text(day: Option<i32>) -> Seq<char> {
    match day {
        Some(n) => day_text_spec(n as int),
        None => Seq::empty(),
    }
}

/// the `Dates` line on the local days the item was made, changed and closed
pub open spec fn dates_text(task: Task, created: Option<i32>, modified: Option<i32>, stopped: Option<i32>) -> Seq<char> {
    let made = "created "@ + local_day_text(created);
    let changed = if task.modification_date is Some {
        made + ", modified "@ + local_day_text(modified)
    } else {
        made
    };
    if task.stop_date is Some {
        changed + ", "@ + (if task.status == TaskStatus::Canceled {
            "canceled"@
        } else {
            "completed"@
        }) + " "@ + local_day_text(stopped)
    } else {
        changed
    }
}

/// a local day as YYYY-MM-DD
fn local_day_string(instant: &Option<Instant>) -> (text: String)
    requires
        clear_of_calendar_edges(*instant),
    ensures
        exists|day: Option<i32>| plausible_local_day(*instant, day) && text@ == local_day_text(day),
{
    let day = match instant {
        Some(t) => local_day(t),
        None => None,
    };
    let text = match day {
        Some(n) => day_text(n),
        None => String::new(),
    };
    assert(plausible_local_day(*instant, day) && text@ == local_day_text(day));
    text
}

impl ThingsStore {
    /// the `Dates` line `show` lists: the local days the item was made, changed and closed
    ///
    /// each day rests on the machine's time zone: it is within a day of the UTC day of its
    /// instant, and empty where the item has no such instant or chrono does not take it
    pub fn show_dates(&self, task: &Task) -> (text: String)
        requires
            clear_of_calendar_edges(task.creation_date),
            clear_of_calendar_edges(task.modification_date),
            clear_of_calendar_edges(task.stop_date),
        ensures
            exists|c: Option<i32>, m: Option<i32>, d: Option<i32>|
                plausible_local_day(task.creation_date, c) && plausible_local_day(task.modification_date, m)
                    && plausible_local_day(task.stop_date, d) && text@ == #[trigger] dates_text(*task, c, m, d),
    {
        let created = local_day_string(&task.creation_date);
        let mut text = String::from_str("created ");
        text.append(created.as_str());
        let mut modified = String::new();
        if task.modification_date.is_some() {
            modified = local_day_string(&task.modification_date);
            text.append(", modified ");
            text.append(modified.as_str());
        }
        let mut stopped = String::new();
        if task.stop_date.is_some() {
            stopped = local_day_string(&task.stop_date);
            text.append(", ");
            text.append(if task.is_canceled() {
                "canceled"
            } else {
                "completed"
            });
            text.append(" ");
            text.append(stopped.as_str());
        }
        proof {
            let c = choose|c: Option<i32>| plausible_local_day(task.creation_date, c) && created@ == local_day_text(c);
            let m = if task.modification_date is Some {
                choose|m: Option<i32>| plausible_local_day(task.modification_date, m) && modified@ == local_day_text(m)
            } else {
                None
            };
            let d = if task.stop_date is Some {
                choose|d: Option<i32>| plausible_local_day(task.stop_date, d) && stopped@ == local_day_text(d)
            } else {
                None
            };
            assert(text@ =~= dates_text(*task, c, m, d));
        }
        text
    }
}

} // verus!
