//! the search: which to-dos, projects and checklists a query and its filters match, and the order they are listed in
//!
//! a day stamp compares by the day it names, an instant by its local day, the way the Logbook files it

use crate::calendar::{day_of_spec, epoch_day, parse_day_text, parsed_day, MAX_DAY, MIN_DAY};
use crate::common::{chars_of, string_of, trim_spec, trimmed};
use crate::ids::id_order::{id_value, lemma_id_value_bound, lemma_id_value_injective};
use crate::ids::things_id::{base58_spec, debug_str, debug_str_spec, ThingsId};
use crate::store::entities::{is_project_spec, today_rule, Area, Instant, Task};
use crate::store::order::order_by;
use crate::store::{
    area_with, effective_area, effective_project, id_room, in_trash_spec, lemma_stacked_order,
    task_with, unique_task_ids, ThingsStore,
};
use crate::text::{lower, lowercase_spec};
use crate::wire::{TaskStart, TaskStatus, TaskType};
use vstd::prelude::*;
use vstd::string::StringSliceAdditionalSpecFns;

verus! {

/// what `str::to_lowercase` gives for a text
pub uninterp spec fn lowercased(text: Seq<char>) -> Seq<char>;

/// `str::to_lowercase`: the text with every letter in lowercase, as Unicode maps it
#[verifier::external_body]
pub(crate) fn to_lowercase(text: &str) -> (lowered: String)
    ensures
        lowered@ == lowercased(text@),
{
    text.to_lowercase()
}

/// the day an instant falls on in UTC, numbered as chrono's `num_days_from_ce` numbers days
pub open spec fn utc_day(instant: Instant) -> int {
    instant.seconds / 86400 + epoch_day()
}

/// chrono's `DateTime::from_timestamp` takes the instant: its UTC day is in chrono's calendar, and its
/// nanoseconds stay within the second, or within a leap second on the last second of a minute
pub open spec fn instant_in_calendar(instant: Instant) -> bool {
    &&& MIN_DAY <= utc_day(instant) <= MAX_DAY
    &&& (instant.nanos < 1_000_000_000 || (instant.nanos < 2_000_000_000 && instant.seconds % 60 == 59))
}

/// the instant is not on the first or last day of chrono's calendar, so its local day exists in every time zone
pub open spec fn clear_of_calendar_edges(instant: Option<Instant>) -> bool {
    instant matches Some(t) ==> utc_day(t) != MIN_DAY && utc_day(t) != MAX_DAY
}

/// a local day the instant can have in some time zone: None for no instant or one chrono does not take,
/// otherwise a day at most one away from its UTC day
pub open spec fn plausible_local_day(instant: Option<Instant>, day: Option<i32>) -> bool {
    match instant {
        None => day is None,
        Some(t) => if instant_in_calendar(t) {
            day matches Some(d) && utc_day(t) - 1 <= d <= utc_day(t) + 1
        } else {
            day is None
        },
    }
}

/// the local day of an instant where the command runs, as `DateTime::from_timestamp(..)` and then
/// `with_timezone(&Local).date_naive()` give it, None where `from_timestamp` refuses the instant
///
/// which of the days next to its UTC day it is rests on the machine's time zone; chrono keeps every
/// offset strictly within a day of UTC (`FixedOffset::east_opt`), and `date_naive` panics only where the
/// local time leaves chrono's calendar, which the requirement rules out
#[verifier::external_body]
pub(crate) fn local_day(instant: &Instant) -> (day: Option<i32>)
    requires
        clear_of_calendar_edges(Some(*instant)),
    ensures
        plausible_local_day(Some(*instant), day),
{
    match chrono::DateTime::from_timestamp(instant.seconds, instant.nanos) {
        Some(utc) => Some(chrono::Datelike::num_days_from_ce(&utc.with_timezone(&chrono::Local).date_naive())),
        None => None,
    }
}

/// the search flags
pub struct FindArgs {
    /// matched against titles, case aside
    pub query: Option<String>,
    pub incomplete: bool,
    /// also search the notes
    pub notes: bool,
    /// also search the checklist items
    pub checklists: bool,
    pub completed: bool,
    pub canceled: bool,
    pub any_status: bool,
    pub tag_filters: Vec<String>,
    pub project_filters: Vec<String>,
    pub area_filters: Vec<String>,
    pub inbox: bool,
    pub today: bool,
    pub someday: bool,
    pub evening: bool,
    pub has_deadline: bool,
    pub no_deadline: bool,
    pub recurring: bool,
    pub trashed: bool,
    pub deadline: Vec<String>,
    pub scheduled: Vec<String>,
    pub created: Vec<String>,
    pub completed_on: Vec<String>,
}

/// how a day compares to a filter's day
#[derive(Debug, Clone, Copy, PartialEq, Eq, Structural)]
pub enum DateOp {
    After,
    Before,
    OnOrAfter,
    OnOrBefore,
    On,
}

/// one date filter: `>`, `<`, `>=`, `<=` or `=` and a day
#[derive(Debug, Clone, Copy, PartialEq, Eq, Structural)]
pub struct DateFilter {
    pub op: DateOp,
    pub day: i32,
}

/// a container filter as typed and lowercased: it matches an id prefix or a title substring
pub struct ContainerFilter {
    pub token: String,
    pub lowered: String,
}

/// the filters worked out once for the whole search
pub struct Prepared {
    pub query: Option<String>,
    pub statuses: Option<Vec<TaskStatus>>,
    pub project_filters: Vec<ContainerFilter>,
    pub area_filters: Vec<ContainerFilter>,
    pub deadline: Vec<DateFilter>,
    pub scheduled: Vec<DateFilter>,
    pub created: Vec<DateFilter>,
    pub completed_on: Vec<DateFilter>,
}

/// the text holds the other one somewhere
pub open spec fn has_substring(text: Seq<char>, part: Seq<char>) -> bool {
    exists|i: int| 0 <= i && i + part.len() <= text.len() && #[trigger] text.subrange(i, i + part.len()) == part
}

/// the day passes the filter
pub open spec fn day_passes(day: Option<i32>, filter: DateFilter) -> bool {
    match day {
        None => false,
        Some(d) => match filter.op {
            DateOp::After => d > filter.day,
            DateOp::Before => d < filter.day,
            DateOp::OnOrAfter => d >= filter.day,
            DateOp::OnOrBefore => d <= filter.day,
            DateOp::On => d == filter.day,
        },
    }
}

/// the day passes every filter
pub open spec fn passes_all(day: Option<i32>, filters: Seq<DateFilter>) -> bool {
    forall|k: int| 0 <= k < filters.len() ==> day_passes(day, #[trigger] filters[k])
}

/// the day a day stamp names
pub open spec fn stamp_day(stamp: Option<Instant>) -> Option<i32> {
    match stamp {
        Some(t) => day_of_spec(t.seconds as int),
        None => None,
    }
}

/// the message for a day a date filter cannot read
pub open spec fn bad_date_message(flag: Seq<char>, value: Seq<char>) -> Seq<char> {
    "Invalid date for "@ + flag + ": "@ + debug_str_spec(value)
        + ". Expected YYYY-MM-DD, 'today', 'tomorrow', or 'yesterday'."@
}

/// the message for a date filter without an operator
pub open spec fn bad_expression_message(flag: Seq<char>, raw: Seq<char>) -> Seq<char> {
    "Invalid date expression for "@ + flag + ": "@ + debug_str_spec(raw)
        + ". Expected an operator prefix: >, <, >=, <=, or =  (e.g. '<=2026-03-31')"@
}

/// the day a date filter names: today, tomorrow or yesterday in any case, or a YYYY-MM-DD day
pub open spec fn date_value(value: Seq<char>, flag: Seq<char>, today: i32) -> Result<i32, Seq<char>> {
    let lowered = lowercase_spec(trim_spec(value));
    if lowered == "today"@ {
        Ok(today)
    } else if lowered == "tomorrow"@ {
        Ok((today + 1) as i32)
    } else if lowered == "yesterday"@ {
        Ok((today - 1) as i32)
    } else {
        match parsed_day(lowered) {
            Some(n) => Ok(n),
            None => Err(bad_date_message(flag, value)),
        }
    }
}

/// the text starts with the prefix
pub open spec fn starts(text: Seq<char>, prefix: Seq<char>) -> bool {
    prefix.len() <= text.len() && text.subrange(0, prefix.len() as int) == prefix
}

/// a date filter: an operator, the longer ones first, then its day
pub open spec fn date_expression(raw: Seq<char>, flag: Seq<char>, today: i32) -> Result<DateFilter, Seq<char>> {
    let value = trim_spec(raw);
    let (op, rest) = if starts(value, ">="@) {
        (Some(DateOp::OnOrAfter), value.skip(2))
    } else if starts(value, "<="@) {
        (Some(DateOp::OnOrBefore), value.skip(2))
    } else if starts(value, ">"@) {
        (Some(DateOp::After), value.skip(1))
    } else if starts(value, "<"@) {
        (Some(DateOp::Before), value.skip(1))
    } else if starts(value, "="@) {
        (Some(DateOp::On), value.skip(1))
    } else {
        (None, value)
    };
    match op {
        None => Err(bad_expression_message(flag, raw)),
        Some(op) => match date_value(rest, flag, today) {
            Ok(day) => Ok(DateFilter { op, day }),
            Err(message) => Err(message),
        },
    }
}

/// the filters the first `n` expressions give, or the message of the first one refused
pub open spec fn date_filters(exprs: Seq<String>, flag: Seq<char>, today: i32, n: int) -> Result<Seq<DateFilter>, Seq<char>>
    decreases n,
{
    if n <= 0 {
        Ok(seq![])
    } else {
        match date_filters(exprs, flag, today, n - 1) {
            Err(message) => Err(message),
            Ok(list) => match date_expression(exprs[n - 1]@, flag, today) {
                Err(message) => Err(message),
                Ok(filter) => Ok(list.push(filter)),
            },
        }
    }
}

/// the statuses a search keeps, None for any
///
/// with none named: the completed ones under `--completed-on`, any in the Trash, the open ones otherwise
pub open spec fn status_set(args: FindArgs) -> Option<Seq<TaskStatus>> {
    let chosen = (if args.incomplete { seq![TaskStatus::Incomplete] } else { seq![] }) + (if args.completed {
        seq![TaskStatus::Completed]
    } else {
        seq![]
    }) + (if args.canceled { seq![TaskStatus::Canceled] } else { seq![] });
    if args.any_status {
        None
    } else if chosen.len() == 0 && args.completed_on@.len() > 0 {
        Some(seq![TaskStatus::Completed])
    } else if chosen.len() == 0 {
        if args.trashed {
            None
        } else {
            Some(seq![TaskStatus::Incomplete])
        }
    } else {
        Some(chosen)
    }
}

/// the filter matches the container by id prefix or by a substring of its lowercased title
pub open spec fn container_passes(filter: ContainerFilter, id: ThingsId, title_lower: Seq<char>) -> bool {
    vstd::utf8::encode_utf8(filter.token@).is_prefix_of(base58_spec(id@)) || has_substring(
        title_lower,
        filter.lowered@,
    )
}

/// some filter matches the container
pub open spec fn any_container_passes(filters: Seq<ContainerFilter>, id: ThingsId, title_lower: Seq<char>) -> bool {
    exists|k: int| 0 <= k < filters.len() && container_passes(#[trigger] filters[k], id, title_lower)
}

/// the query is in the title, case aside
pub open spec fn title_hit(task: Task, q: Seq<char>) -> bool {
    has_substring(lowercased(task.title@), q)
}

/// the query is in the notes, where notes are searched
pub open spec fn notes_hit(args: FindArgs, task: Task, q: Seq<char>) -> bool {
    args.notes && match task.notes {
        Some(n) => has_substring(lowercased(n@), q),
        None => false,
    }
}

/// the query is in a checklist item's title, where checklists are searched
pub open spec fn checklist_hit(args: FindArgs, task: Task, q: Seq<char>) -> bool {
    args.checklists && exists|k: int|
        0 <= k < task.checklist_items@.len() && has_substring(lowercased(#[trigger] task.checklist_items@[k].title@), q)
}

/// the task carries one of the tags the filters resolved to
pub open spec fn tagged(task: Task, tag_uuids: Seq<ThingsId>) -> bool {
    exists|i: int, j: int|
        0 <= i < tag_uuids.len() && 0 <= j < task.tags@.len() && #[trigger] task.tags@[j]@ == #[trigger] tag_uuids[i]@
}

/// what the search asks of a task, the days of its creation and completion where the command runs given: whether it matches, and whether only a checklist item does
pub open spec fn match_spec(
    tasks: Seq<Task>,
    areas: Seq<Area>,
    args: FindArgs,
    tag_uuids: Seq<ThingsId>,
    prepared: Prepared,
    today: Instant,
    task: Task,
    created_day: Option<i32>,
    completed_day: Option<i32>,
) -> (bool, bool) {
    let trashed = in_trash_spec(tasks, task);
    let query_ok = match prepared.query {
        None => true,
        Some(q) => title_hit(task, q@) || notes_hit(args, task, q@) || checklist_hit(args, task, q@),
    };
    let checklist_only = match prepared.query {
        None => false,
        Some(q) => checklist_hit(args, task, q@) && !title_hit(task, q@) && !notes_hit(args, task, q@),
    };
    let project_ok = args.project_filters@.len() == 0 || match effective_project(tasks, task) {
        None => false,
        Some(p) => match task_with(tasks, p) {
            None => false,
            Some(project) => any_container_passes(prepared.project_filters@, p, lowercased(project.title@)),
        },
    };
    let area_ok = args.area_filters@.len() == 0 || match effective_area(tasks, task) {
        None => false,
        Some(a) => match area_with(areas, a) {
            None => false,
            Some(area) => any_container_passes(prepared.area_filters@, a, lowercased(area.title@)),
        },
    };
    let matched = {
        &&& task.item_type != TaskType::Heading
        &&& trashed == args.trashed
        &&& match prepared.statuses {
            None => true,
            Some(list) => list@.contains(task.status),
        }
        &&& query_ok
        &&& (args.tag_filters@.len() == 0 || tagged(task, tag_uuids))
        &&& project_ok
        &&& area_ok
        &&& !((args.inbox || args.today || args.someday) && trashed)
        &&& !(args.inbox && task.start != TaskStart::Inbox)
        &&& !(args.today && !today_rule(task, today))
        &&& !(args.someday && !(task.start == TaskStart::Someday && task.start_date is None))
        &&& !(args.evening && !task.evening)
        &&& !(args.has_deadline && task.deadline is None)
        &&& !(args.no_deadline && task.deadline is Some)
        &&& !(args.recurring && task.recurrence_rule is None)
        &&& passes_all(stamp_day(task.deadline), prepared.deadline@)
        &&& passes_all(stamp_day(task.start_date), prepared.scheduled@)
        &&& passes_all(created_day, prepared.created@)
        &&& passes_all(completed_day, prepared.completed_on@)
    };
    if matched {
        (true, checklist_only)
    } else {
        (false, false)
    }
}

/// the text holds the other one somewhere
pub fn contains_text(text: &Vec<char>, part: &Vec<char>) -> (found: bool)
    ensures
        found == has_substring(text@, part@),
{
    let n = text.len();
    let m = part.len();
    if m > n {
        return false;
    }
    let mut i: usize = 0;
    while i <= n - m
        invariant
            m <= n,
            n == text@.len(),
            m == part@.len(),
            i <= n - m + 1,
            forall|k: int| 0 <= k < i ==> #[trigger] text@.subrange(k, k + m) != part@,
        decreases n - m + 1 - i,
    {
        let mut j: usize = 0;
        while j < m && text[i + j] == part[j]
            invariant
                j <= m,
                i + m <= n,
                n == text@.len(),
                m == part@.len(),
                forall|k: int| 0 <= k < j ==> text@[i + k] == part@[k],
            decreases m - j,
        {
            j += 1;
        }
        if j == m {
            assert(text@.subrange(i as int, i + m) =~= part@);
            return true;
        }
        assert(text@.subrange(i as int, i + m)[j as int] != part@[j as int]);
        i += 1;
    }
    proof {
        assert forall|k: int| 0 <= k && k + part@.len() <= text@.len() implies #[trigger] text@.subrange(
            k,
            k + part@.len(),
        ) != part@ by {
            assert(k < i);
        }
    }
    false
}

/// the text holds the other one somewhere
fn holds_text(text: &str, part: &str) -> (found: bool)
    ensures
        found == has_substring(text@, part@),
{
    contains_text(&chars_of(text), &chars_of(part))
}

/// the day passes the filter
pub fn date_matches(day: Option<i32>, filter: DateFilter) -> (passes: bool)
    ensures
        passes == day_passes(day, filter),
{
    match day {
        None => false,
        Some(d) => match filter.op {
            DateOp::After => d > filter.day,
            DateOp::Before => d < filter.day,
            DateOp::OnOrAfter => d >= filter.day,
            DateOp::OnOrBefore => d <= filter.day,
            DateOp::On => d == filter.day,
        },
    }
}

/// the day passes every filter
fn passes_every(day: Option<i32>, filters: &Vec<DateFilter>) -> (passes: bool)
    ensures
        passes == passes_all(day, filters@),
{
    let mut k: usize = 0;
    while k < filters.len()
        invariant
            k <= filters@.len(),
            forall|i: int| 0 <= i < k ==> day_passes(day, #[trigger] filters@[i]),
        decreases filters@.len() - k,
    {
        if !date_matches(day, filters[k]) {
            return false;
        }
        k += 1;
    }
    true
}

/// the day a day stamp names
fn day_of_stamp(stamp: Option<Instant>) -> (day: Option<i32>)
    ensures
        day == stamp_day(stamp),
{
    match stamp {
        Some(t) => crate::calendar::day_of(t.seconds),
        None => None,
    }
}

/// the day a date filter names: today, tomorrow or yesterday in any case, or a YYYY-MM-DD day
pub fn parse_date_value(value: &str, flag: &str, today: i32) -> (day: Result<i32, String>)
    requires
        MIN_DAY < today < MAX_DAY,
    ensures
        match date_value(value@, flag@, today) {
            Ok(n) => day == Ok::<i32, String>(n),
            Err(message) => day matches Err(m) && m@ == message,
        },
{
    let chars = chars_of(trimmed(value).as_str());
    let mut lowered: Vec<char> = Vec::new();
    let mut i: usize = 0;
    while i < chars.len()
        invariant
            i <= chars@.len(),
            lowered@ == lowercase_spec(chars@.take(i as int)),
        decreases chars@.len() - i,
    {
        lowered.push(lower(chars[i]));
        assert(lowercase_spec(chars@.take(i + 1)) =~= lowercase_spec(chars@.take(i as int)).push(
            crate::text::lower_spec(chars@[i as int]),
        ));
        i += 1;
    }
    assert(chars@.take(chars@.len() as int) =~= chars@);
    let text = string_of(&lowered);
    let word = text.as_str();
    proof {
        reveal_strlit("today");
        reveal_strlit("tomorrow");
        reveal_strlit("yesterday");
    }
    if same_text(word, "today") {
        return Ok(today);
    }
    if same_text(word, "tomorrow") {
        return Ok(today + 1);
    }
    if same_text(word, "yesterday") {
        return Ok(today - 1);
    }
    match parse_day_text(word) {
        Some(n) => Ok(n),
        None => {
            let mut message = String::from_str("Invalid date for ");
            message.append(flag);
            message.append(": ");
            message.append(debug_str(value).as_str());
            message.append(". Expected YYYY-MM-DD, 'today', 'tomorrow', or 'yesterday'.");
            Err(message)
        },
    }
}

/// the two texts are the same
pub(crate) fn same_text(a: &str, b: &str) -> (same: bool)
    ensures
        same == (a@ == b@),
{
    let x = chars_of(a);
    let y = chars_of(b);
    if x.len() != y.len() {
        return false;
    }
    let mut i: usize = 0;
    while i < x.len()
        invariant
            i <= x@.len(),
            x@.len() == y@.len(),
            x@ == a@,
            y@ == b@,
            forall|k: int| 0 <= k < i ==> x@[k] == y@[k],
        decreases x@.len() - i,
    {
        if x[i] != y[i] {
            return false;
        }
        i += 1;
    }
    assert(a@ =~= b@);
    true
}

/// the text starts with the prefix
fn starts_text(text: &Vec<char>, prefix: &str) -> (found: bool)
    ensures
        found == starts(text@, prefix@),
{
    let p = chars_of(prefix);
    if p.len() > text.len() {
        return false;
    }
    let mut i: usize = 0;
    while i < p.len()
        invariant
            i <= p@.len(),
            p@.len() <= text@.len(),
            p@ == prefix@,
            forall|k: int| 0 <= k < i ==> text@[k] == p@[k],
        decreases p@.len() - i,
    {
        if text[i] != p[i] {
            assert(text@.subrange(0, p@.len() as int)[i as int] != prefix@[i as int]);
            return false;
        }
        i += 1;
    }
    assert(text@.subrange(0, p@.len() as int) =~= prefix@);
    true
}

/// the characters after the first `from`
fn rest_of(text: &Vec<char>, from: usize) -> (rest: String)
    requires
        from <= text@.len(),
    ensures
        rest@ == text@.skip(from as int),
{
    let mut tail: Vec<char> = Vec::new();
    let mut i: usize = from;
    while i < text.len()
        invariant
            from <= i <= text@.len(),
            tail@ == text@.subrange(from as int, i as int),
        decreases text@.len() - i,
    {
        tail.push(text[i]);
        assert(tail@ =~= text@.subrange(from as int, i + 1));
        i += 1;
    }
    assert(text@.skip(from as int) =~= text@.subrange(from as int, text@.len() as int));
    string_of(&tail)
}

/// a date filter: an operator, the longer ones first, then its day
pub fn parse_date_expr(raw: &str, flag: &str, today: i32) -> (filter: Result<DateFilter, String>)
    requires
        MIN_DAY < today < MAX_DAY,
    ensures
        match date_expression(raw@, flag@, today) {
            Ok(f) => filter == Ok::<DateFilter, String>(f),
            Err(message) => filter matches Err(m) && m@ == message,
        },
{
    let value = chars_of(trimmed(raw).as_str());
    proof {
        reveal_strlit(">=");
        reveal_strlit("<=");
        reveal_strlit(">");
        reveal_strlit("<");
        reveal_strlit("=");
    }
    let (op, skip) = if starts_text(&value, ">=") {
        (DateOp::OnOrAfter, 2usize)
    } else if starts_text(&value, "<=") {
        (DateOp::OnOrBefore, 2usize)
    } else if starts_text(&value, ">") {
        (DateOp::After, 1usize)
    } else if starts_text(&value, "<") {
        (DateOp::Before, 1usize)
    } else if starts_text(&value, "=") {
        (DateOp::On, 1usize)
    } else {
        let mut message = String::from_str("Invalid date expression for ");
        message.append(flag);
        message.append(": ");
        message.append(debug_str(raw).as_str());
        message.append(". Expected an operator prefix: >, <, >=, <=, or =  (e.g. '<=2026-03-31')");
        return Err(message);
    };
    let rest = rest_of(&value, skip);
    match parse_date_value(rest.as_str(), flag, today) {
        Ok(day) => Ok(DateFilter { op, day }),
        Err(message) => Err(message),
    }
}

/// the filters a list of expressions gives, or the message of the first one refused
fn parse_date_filters(exprs: &Vec<String>, flag: &str, today: i32) -> (filters: Result<Vec<DateFilter>, String>)
    requires
        MIN_DAY < today < MAX_DAY,
    ensures
        match date_filters(exprs@, flag@, today, exprs@.len() as int) {
            Ok(list) => filters matches Ok(f) && f@ == list,
            Err(message) => filters matches Err(m) && m@ == message,
        },
{
    let mut list: Vec<DateFilter> = Vec::new();
    let mut i: usize = 0;
    while i < exprs.len()
        invariant
            i <= exprs@.len(),
            MIN_DAY < today < MAX_DAY,
            date_filters(exprs@, flag@, today, i as int) == Ok::<Seq<DateFilter>, Seq<char>>(list@),
        decreases exprs@.len() - i,
    {
        match parse_date_expr(exprs[i].as_str(), flag, today) {
            Ok(f) => {
                list.push(f);
            },
            Err(message) => {
                proof {
                    lemma_date_filters_stay_failed(exprs@, flag@, today, i + 1, exprs@.len() as int);
                }
                return Err(message);
            },
        }
        i += 1;
    }
    Ok(list)
}

/// a refused expression stays the refusal as more come
proof fn lemma_date_filters_stay_failed(exprs: Seq<String>, flag: Seq<char>, today: i32, from: int, to: int)
    requires
        1 <= from <= to,
        date_filters(exprs, flag, today, from) is Err,
    ensures
        date_filters(exprs, flag, today, to) == date_filters(exprs, flag, today, from),
    decreases to - from,
{
    if from < to {
        lemma_date_filters_stay_failed(exprs, flag, today, from, to - 1);
    }
}

/// the statuses a search keeps, None for any
pub fn build_status_set(args: &FindArgs) -> (statuses: Option<Vec<TaskStatus>>)
    ensures
        match status_set(*args) {
            None => statuses is None,
            Some(list) => statuses matches Some(s) && s@ == list,
        },
{
    if args.any_status {
        return None;
    }
    let mut chosen: Vec<TaskStatus> = Vec::new();
    if args.incomplete {
        chosen.push(TaskStatus::Incomplete);
    }
    if args.completed {
        chosen.push(TaskStatus::Completed);
    }
    if args.canceled {
        chosen.push(TaskStatus::Canceled);
    }
    proof {
        let expected = (if args.incomplete { seq![TaskStatus::Incomplete] } else { seq![] }) + (if args.completed {
            seq![TaskStatus::Completed]
        } else {
            seq![]
        }) + (if args.canceled { seq![TaskStatus::Canceled] } else { seq![] });
        assert(chosen@ =~= expected);
    }
    if chosen.len() == 0 && args.completed_on.len() > 0 {
        return Some(vec![TaskStatus::Completed]);
    }
    if chosen.len() == 0 {
        if args.trashed {
            return None;
        }
        return Some(vec![TaskStatus::Incomplete]);
    }
    Some(chosen)
}

/// what the filters need, worked out once: the lowered query, the statuses, the container filters and the date filters, or the message of the first date filter refused
pub open spec fn prepared_dates(args: FindArgs, today: i32) -> Result<
    (Seq<DateFilter>, Seq<DateFilter>, Seq<DateFilter>, Seq<DateFilter>),
    Seq<char>,
> {
    match date_filters(args.deadline@, "--deadline"@, today, args.deadline@.len() as int) {
        Err(m) => Err(m),
        Ok(deadline) => match date_filters(args.scheduled@, "--scheduled"@, today, args.scheduled@.len() as int) {
            Err(m) => Err(m),
            Ok(scheduled) => match date_filters(args.created@, "--created"@, today, args.created@.len() as int) {
                Err(m) => Err(m),
                Ok(created) => match date_filters(
                    args.completed_on@,
                    "--completed-on"@,
                    today,
                    args.completed_on@.len() as int,
                ) {
                    Err(m) => Err(m),
                    Ok(completed_on) => Ok((deadline, scheduled, created, completed_on)),
                },
            },
        },
    }
}

/// the filters typed, each with its lowercased text
pub open spec fn lowered_filters(texts: Seq<String>, filters: Seq<ContainerFilter>) -> bool {
    &&& filters.len() == texts.len()
    &&& forall|k: int|
        0 <= k < texts.len() ==> (#[trigger] filters[k]).token@ == texts[k]@ && filters[k].lowered@ == lowercased(
            texts[k]@,
        )
}

/// the container filters as typed, each with its lowercased text
fn container_filters(texts: &Vec<String>) -> (filters: Vec<ContainerFilter>)
    ensures
        lowered_filters(texts@, filters@),
{
    let mut filters: Vec<ContainerFilter> = Vec::new();
    let mut k: usize = 0;
    while k < texts.len()
        invariant
            k <= texts@.len(),
            filters@.len() == k,
            forall|i: int|
                0 <= i < k ==> (#[trigger] filters@[i]).token@ == texts@[i]@ && filters@[i].lowered@ == lowercased(
                    texts@[i]@,
                ),
        decreases texts@.len() - k,
    {
        let text = texts[k].as_str();
        filters.push(ContainerFilter { token: String::from_str(text), lowered: to_lowercase(text) });
        k += 1;
    }
    filters
}

impl Prepared {
    /// what the filters need, worked out once for the whole search, `today` the day the command runs on
    pub fn new(args: &FindArgs, today: i32) -> (prepared: Result<Prepared, String>)
        requires
            MIN_DAY < today < MAX_DAY,
        ensures
            match prepared_dates(*args, today) {
                Err(message) => prepared matches Err(m) && m@ == message,
                Ok((deadline, scheduled, created, completed_on)) => prepared matches Ok(p) && {
                    &&& match args.query {
                        None => p.query is None,
                        Some(q) => p.query matches Some(l) && l@ == lowercased(q@),
                    }
                    &&& match status_set(*args) {
                        None => p.statuses is None,
                        Some(list) => p.statuses matches Some(s) && s@ == list,
                    }
                    &&& lowered_filters(args.project_filters@, p.project_filters@)
                    &&& lowered_filters(args.area_filters@, p.area_filters@)
                    &&& p.deadline@ == deadline
                    &&& p.scheduled@ == scheduled
                    &&& p.created@ == created
                    &&& p.completed_on@ == completed_on
                },
            },
    {
        proof {
            reveal_strlit("--deadline");
            reveal_strlit("--scheduled");
            reveal_strlit("--created");
            reveal_strlit("--completed-on");
        }
        let deadline = match parse_date_filters(&args.deadline, "--deadline", today) {
            Ok(f) => f,
            Err(m) => return Err(m),
        };
        let scheduled = match parse_date_filters(&args.scheduled, "--scheduled", today) {
            Ok(f) => f,
            Err(m) => return Err(m),
        };
        let created = match parse_date_filters(&args.created, "--created", today) {
            Ok(f) => f,
            Err(m) => return Err(m),
        };
        let completed_on = match parse_date_filters(&args.completed_on, "--completed-on", today) {
            Ok(f) => f,
            Err(m) => return Err(m),
        };
        let query = match &args.query {
            Some(q) => Some(to_lowercase(q.as_str())),
            None => None,
        };
        Ok(Prepared {
            query,
            statuses: build_status_set(args),
            project_filters: container_filters(&args.project_filters),
            area_filters: container_filters(&args.area_filters),
            deadline,
            scheduled,
            created,
            completed_on,
        })
    }
}

/// the filter matches the container by id prefix or by a substring of its lowercased title
fn container_matches(filter: &ContainerFilter, id: &ThingsId, title_lower: &str) -> (passes: bool)
    ensures
        passes == container_passes(*filter, *id, title_lower@),
{
    id.starts_with(filter.token.as_str()) || holds_text(title_lower, filter.lowered.as_str())
}

/// some filter matches the container
fn any_container_matches(filters: &Vec<ContainerFilter>, id: &ThingsId, title_lower: &str) -> (passes: bool)
    ensures
        passes == any_container_passes(filters@, *id, title_lower@),
{
    let mut k: usize = 0;
    while k < filters.len()
        invariant
            k <= filters@.len(),
            forall|i: int| 0 <= i < k ==> !container_passes(#[trigger] filters@[i], *id, title_lower@),
        decreases filters@.len() - k,
    {
        if container_matches(&filters[k], id, title_lower) {
            return true;
        }
        k += 1;
    }
    false
}

/// the query is in a checklist item's title
fn checklist_holds(task: &Task, q: &str) -> (found: bool)
    ensures
        found == exists|k: int|
            0 <= k < task.checklist_items@.len() && has_substring(
                lowercased(#[trigger] task.checklist_items@[k].title@),
                q@,
            ),
{
    let mut k: usize = 0;
    while k < task.checklist_items.len()
        invariant
            k <= task.checklist_items@.len(),
            forall|i: int|
                0 <= i < k ==> !has_substring(lowercased(#[trigger] task.checklist_items@[i].title@), q@),
        decreases task.checklist_items@.len() - k,
    {
        let lowered = to_lowercase(task.checklist_items[k].title.as_str());
        if holds_text(lowered.as_str(), q) {
            return true;
        }
        k += 1;
    }
    false
}

/// the task carries one of the tags
fn carries_tag(task: &Task, tag_uuids: &Vec<ThingsId>) -> (found: bool)
    ensures
        found == tagged(*task, tag_uuids@),
{
    let mut i: usize = 0;
    while i < tag_uuids.len()
        invariant
            i <= tag_uuids@.len(),
            forall|a: int, b: int|
                0 <= a < i && 0 <= b < task.tags@.len() ==> #[trigger] task.tags@[b]@ != #[trigger] tag_uuids@[a]@,
        decreases tag_uuids@.len() - i,
    {
        let mut j: usize = 0;
        while j < task.tags.len()
            invariant
                i < tag_uuids@.len(),
                j <= task.tags@.len(),
                forall|a: int, b: int|
                    0 <= a < i && 0 <= b < task.tags@.len() ==> #[trigger] task.tags@[b]@ != #[trigger] tag_uuids@[a]@,
                forall|b: int| 0 <= b < j ==> #[trigger] task.tags@[b]@ != tag_uuids@[i as int]@,
            decreases task.tags@.len() - j,
        {
            if task.tags[j] == tag_uuids[i] {
                assert(task.tags@[j as int]@ == tag_uuids@[i as int]@);
                return true;
            }
            j += 1;
        }
        i += 1;
    }
    false
}

/// whether a task matches, and whether only a checklist item does
#[derive(Debug, Clone, Copy, PartialEq, Eq, Structural)]
pub struct MatchResult {
    pub matched: bool,
    pub checklist_only: bool,
}

impl ThingsStore {
    /// whether the search matches a task, the days of its creation and completion where the command runs given, and whether only a checklist item matches the query
    pub fn matches(
        &self,
        task: &Task,
        args: &FindArgs,
        tag_uuids: &Vec<ThingsId>,
        prepared: &Prepared,
        today: &Instant,
        created_day: Option<i32>,
        completed_day: Option<i32>,
    ) -> (result: MatchResult)
        ensures
            (result.matched, result.checklist_only) == match_spec(
                self.tasks@,
                self.areas@,
                *args,
                tag_uuids@,
                *prepared,
                *today,
                *task,
                created_day,
                completed_day,
            ),
    {
        let no = MatchResult { matched: false, checklist_only: false };
        let trashed = self.in_trash(task);
        if task.is_heading() || trashed != args.trashed {
            return no;
        }
        match &prepared.statuses {
            Some(list) => {
                if !status_listed(list, task.status) {
                    return no;
                }
            },
            None => {},
        }
        let mut checklist_only = false;
        match &prepared.query {
            Some(q) => {
                let title_match = holds_text(to_lowercase(task.title.as_str()).as_str(), q.as_str());
                let notes_match = args.notes && match &task.notes {
                    Some(n) => holds_text(to_lowercase(n.as_str()).as_str(), q.as_str()),
                    None => false,
                };
                let checklist_match = args.checklists && checklist_holds(task, q.as_str());
                if !title_match && !notes_match && !checklist_match {
                    return no;
                }
                checklist_only = checklist_match && !title_match && !notes_match;
            },
            None => {},
        }
        if args.tag_filters.len() > 0 && !carries_tag(task, tag_uuids) {
            return no;
        }
        if args.project_filters.len() > 0 {
            let project_id = match self.effective_project_uuid(task) {
                Some(p) => p,
                None => return no,
            };
            let project = match self.task(&project_id) {
                Some(p) => p,
                None => return no,
            };
            let title = to_lowercase(project.title.as_str());
            if !any_container_matches(&prepared.project_filters, &project_id, title.as_str()) {
                return no;
            }
        }
        if args.area_filters.len() > 0 {
            let area_id = match self.effective_area_uuid(task) {
                Some(a) => a,
                None => return no,
            };
            let area = match self.area(&area_id) {
                Some(a) => a,
                None => return no,
            };
            let title = to_lowercase(area.title.as_str());
            if !any_container_matches(&prepared.area_filters, &area_id, title.as_str()) {
                return no;
            }
        }
        if (args.inbox || args.today || args.someday) && trashed {
            return no;
        }
        if args.inbox && task.start != TaskStart::Inbox {
            return no;
        }
        if args.today && !task.is_today(today) {
            return no;
        }
        if args.someday && !task.in_someday() {
            return no;
        }
        if args.evening && !task.evening {
            return no;
        }
        if args.has_deadline && task.deadline.is_none() {
            return no;
        }
        if args.no_deadline && task.deadline.is_some() {
            return no;
        }
        if args.recurring && task.recurrence_rule.is_none() {
            return no;
        }
        if !passes_every(day_of_stamp(task.deadline), &prepared.deadline) {
            return no;
        }
        if !passes_every(day_of_stamp(task.start_date), &prepared.scheduled) {
            return no;
        }
        if !passes_every(created_day, &prepared.created) {
            return no;
        }
        if !passes_every(completed_day, &prepared.completed_on) {
            return no;
        }
        MatchResult { matched: true, checklist_only }
    }
}

/// the status is in the list
fn status_listed(list: &Vec<TaskStatus>, status: TaskStatus) -> (found: bool)
    ensures
        found == list@.contains(status),
{
    let mut k: usize = 0;
    while k < list.len()
        invariant
            k <= list@.len(),
            forall|i: int| 0 <= i < k ==> list@[i] != status,
        decreases list@.len() - k,
    {
        if list[k] == status {
            assert(list@[k as int] == status);
            return true;
        }
        k += 1;
    }
    false
}

/// the order a search lists its matches in: projects first, then by index, then by id
pub open spec fn found_rank(task: Task) -> int {
    ((if is_project_spec(task) { 0int } else { 1int }) * 0x1_0000_0000int + (task.index + 0x8000_0000int)) * id_room()
        + id_value(task.uuid)
}

/// projects come first, then the lower index, then the lower id
proof fn lemma_found_rank(a: Task, b: Task)
    ensures
        (found_rank(a) < found_rank(b)) == ((is_project_spec(a) && !is_project_spec(b)) || (is_project_spec(a)
            == is_project_spec(b) && (a.index < b.index || (a.index == b.index && id_value(a.uuid) < id_value(
            b.uuid))))),
        a.uuid@ != b.uuid@ ==> found_rank(a) != found_rank(b),
{
    lemma_id_value_bound(a.uuid);
    lemma_id_value_bound(b.uuid);
    let pa = if is_project_spec(a) { 0int } else { 1int };
    let pb = if is_project_spec(b) { 0int } else { 1int };
    lemma_stacked_order(pa, a.index + 0x8000_0000int, pb, b.index + 0x8000_0000int, 0x1_0000_0000int);
    let ha = pa * 0x1_0000_0000int + (a.index + 0x8000_0000int);
    let hb = pb * 0x1_0000_0000int + (b.index + 0x8000_0000int);
    lemma_stacked_order(ha, id_value(a.uuid), hb, id_value(b.uuid), id_room());
    if a.uuid@ != b.uuid@ {
        lemma_id_value_injective(a.uuid, b.uuid);
    }
}

/// the matches in the order a search lists them: projects first, then by index, then by id
///
/// the rows hold distinct tasks; the result holds the same rows
pub fn order_found<'a>(rows: Vec<(&'a Task, bool)>) -> (ordered: Vec<(&'a Task, bool)>)
    requires
        forall|i: int, j: int| 0 <= i < j < rows@.len() ==> (#[trigger] rows@[i]).0.uuid@ != (#[trigger] rows@[j]).0.uuid@,
    ensures
        ordered@.len() == rows@.len(),
        forall|i: int| 0 <= i < rows@.len() ==> ordered@.contains(#[trigger] rows@[i]),
        forall|p: int| 0 <= p < ordered@.len() ==> rows@.contains(#[trigger] ordered@[p]),
        forall|p: int, q: int|
            0 <= p < q < ordered@.len() ==> found_rank(*(#[trigger] ordered@[p]).0) < found_rank(*(#[trigger] ordered@[q]).0),
{
    let n = rows.len();
    let ghost key = |i: int| found_rank(*rows@[i].0);
    let compare = |a: usize, b: usize| -> (r: bool)
        requires
            a < n,
            b < n,
        ensures
            r == (found_rank(*rows@[a as int].0) < found_rank(*rows@[b as int].0)),
        {
            let x = rows[a].0;
            let y = rows[b].0;
            proof {
                lemma_found_rank(*x, *y);
            }
            (x.is_project() && !y.is_project()) || (x.is_project() == y.is_project() && (x.index < y.index || (
            x.index == y.index && x.uuid.sorts_before(&y.uuid))))
        };
    proof {
        assert forall|i: int, j: int| 0 <= i < n && 0 <= j < n && i != j implies #[trigger] key(i) != #[trigger] key(j) by {
            if i < j {
                assert(rows@[i].0.uuid@ != rows@[j].0.uuid@);
            } else {
                assert(rows@[j].0.uuid@ != rows@[i].0.uuid@);
            }
            lemma_found_rank(*rows@[i].0, *rows@[j].0);
        }
    }
    let order = order_by(n, compare, Ghost(key));
    let mut ordered: Vec<(&'a Task, bool)> = Vec::new();
    let mut p: usize = 0;
    while p < n
        invariant
            p <= n,
            n == rows@.len(),
            order@.len() == n,
            forall|q: int| 0 <= q < n ==> #[trigger] order@[q] < n,
            ordered@.len() == p,
            forall|i: int| 0 <= i < p ==> #[trigger] ordered@[i] == rows@[order@[i] as int],
        decreases n - p,
    {
        ordered.push(rows[order[p]]);
        p += 1;
    }
    proof {
        assert forall|i: int| 0 <= i < rows@.len() implies ordered@.contains(#[trigger] rows@[i]) by {
            assert(order@.contains(i as usize));
            let q = choose|q: int| 0 <= q < order@.len() && order@[q] == i as usize;
            assert(ordered@[q] == rows@[i]);
        }
        assert forall|p: int| 0 <= p < ordered@.len() implies rows@.contains(#[trigger] ordered@[p]) by {
            assert(ordered@[p] == rows@[order@[p] as int]);
        }
        assert forall|p: int, q: int| 0 <= p < q < ordered@.len() implies found_rank(*(#[trigger] ordered@[p]).0)
            < found_rank(*(#[trigger] ordered@[q]).0) by {
            assert(ordered@[p] == rows@[order@[p] as int]);
            assert(ordered@[q] == rows@[order@[q] as int]);
        }
    }
    ordered
}

/// the search matches the task on some local days its creation and completion can have, a checklist item alone or not as `checklist_only` says
pub open spec fn matches_on_plausible_days(
    tasks: Seq<Task>,
    areas: Seq<Area>,
    args: FindArgs,
    tag_uuids: Seq<ThingsId>,
    prepared: Prepared,
    today: Instant,
    task: Task,
    checklist_only: bool,
) -> bool {
    exists|c: Option<i32>, d: Option<i32>|
        plausible_local_day(task.creation_date, c) && plausible_local_day(task.stop_date, d)
            && #[trigger] match_spec(tasks, areas, args, tag_uuids, prepared, today, task, c, d) == (
            true,
            checklist_only,
        )
}

/// the search fails the task on some local days its creation and completion can have
pub open spec fn fails_on_plausible_days(
    tasks: Seq<Task>,
    areas: Seq<Area>,
    args: FindArgs,
    tag_uuids: Seq<ThingsId>,
    prepared: Prepared,
    today: Instant,
    task: Task,
) -> bool {
    exists|c: Option<i32>, d: Option<i32>|
        plausible_local_day(task.creation_date, c) && plausible_local_day(task.stop_date, d)
            && !(#[trigger] match_spec(tasks, areas, args, tag_uuids, prepared, today, task, c, d)).0
}

/// `x` stands before `y` in the tasks
pub open spec fn comes_before(tasks: Seq<Task>, x: Task, y: Task) -> bool {
    exists|a: int, b: int| 0 <= a < b < tasks.len() && #[trigger] tasks[a] == x && #[trigger] tasks[b] == y
}

/// every instant of the task is clear of the edges of chrono's calendar
pub open spec fn dates_clear(task: Task) -> bool {
    clear_of_calendar_edges(task.creation_date) && clear_of_calendar_edges(task.stop_date)
}

impl ThingsStore {
    /// the tasks a search matches, in the order of the store, each with whether only a checklist item matched
    ///
    /// the local days of creation and completion rest on the machine's time zone: each is None where the
    /// task has no such date, and otherwise within a day of the date's UTC day. A task is listed exactly
    /// when the search matches it on the days found
    pub fn find_tasks<'a>(
        &'a self,
        args: &FindArgs,
        tag_uuids: &Vec<ThingsId>,
        prepared: &Prepared,
        today: &Instant,
    ) -> (rows: Vec<(&'a Task, bool)>)
        requires
            self.well_formed(),
            forall|j: int| 0 <= j < self.tasks@.len() ==> dates_clear(#[trigger] self.tasks@[j]),
        ensures
            forall|i: int|
                0 <= i < rows@.len() ==> self.tasks@.contains(*(#[trigger] rows@[i]).0)
                    && matches_on_plausible_days(
                    self.tasks@,
                    self.areas@,
                    *args,
                    tag_uuids@,
                    *prepared,
                    *today,
                    *rows@[i].0,
                    rows@[i].1,
                ),
            forall|j: int|
                0 <= j < self.tasks@.len() ==> (exists|i: int|
                    0 <= i < rows@.len() && *rows@[i].0 == #[trigger] self.tasks@[j]) || fails_on_plausible_days(
                    self.tasks@,
                    self.areas@,
                    *args,
                    tag_uuids@,
                    *prepared,
                    *today,
                    self.tasks@[j],
                ),
            forall|i: int, k: int|
                0 <= i < k < rows@.len() ==> comes_before(self.tasks@, *(#[trigger] rows@[i]).0, *(#[trigger] rows@[k]).0),
            forall|i: int, k: int| 0 <= i < k < rows@.len() ==> (#[trigger] rows@[i]).0.uuid@ != (#[trigger] rows@[k]).0.uuid@,
    {
        let mut rows: Vec<(&'a Task, bool)> = Vec::new();
        let ghost mut source: Seq<int> = seq![];
        let mut j: usize = 0;
        while j < self.tasks.len()
            invariant
                j <= self.tasks@.len(),
                self.well_formed(),
                forall|m: int| 0 <= m < self.tasks@.len() ==> dates_clear(#[trigger] self.tasks@[m]),
                source.len() == rows@.len(),
                forall|i: int| 0 <= i < source.len() ==> 0 <= #[trigger] source[i] < j,
                forall|i: int, k: int| 0 <= i < k < source.len() ==> #[trigger] source[i] < #[trigger] source[k],
                forall|i: int| 0 <= i < rows@.len() ==> *(#[trigger] rows@[i]).0 == self.tasks@[source[i]],
                forall|i: int|
                    0 <= i < rows@.len() ==> matches_on_plausible_days(
                        self.tasks@,
                        self.areas@,
                        *args,
                        tag_uuids@,
                        *prepared,
                        *today,
                        *(#[trigger] rows@[i]).0,
                        rows@[i].1,
                    ),
                forall|m: int|
                    0 <= m < j ==> (exists|i: int| 0 <= i < rows@.len() && source[i] == m) || fails_on_plausible_days(
                        self.tasks@,
                        self.areas@,
                        *args,
                        tag_uuids@,
                        *prepared,
                        *today,
                        #[trigger] self.tasks@[m],
                    ),
            decreases self.tasks@.len() - j,
        {
            let task = &self.tasks[j];
            proof {
                assert(dates_clear(self.tasks@[j as int]));
            }
            let created = match &task.creation_date {
                Some(t) => local_day(t),
                None => None,
            };
            let completed = match &task.stop_date {
                Some(t) => local_day(t),
                None => None,
            };
            assert(plausible_local_day(task.creation_date, created));
            assert(plausible_local_day(task.stop_date, completed));
            let result = self.matches(task, args, tag_uuids, prepared, today, created, completed);
            if result.matched {
                let ghost before_rows = rows@;
                let ghost before_source = source;
                rows.push((task, result.checklist_only));
                proof {
                    source = source.push(j as int);
                    assert(rows@[rows@.len() - 1] == (task, result.checklist_only));
                    assert forall|i: int| 0 <= i < rows@.len() implies matches_on_plausible_days(
                        self.tasks@,
                        self.areas@,
                        *args,
                        tag_uuids@,
                        *prepared,
                        *today,
                        *(#[trigger] rows@[i]).0,
                        rows@[i].1,
                    ) by {
                        if i < before_rows.len() {
                            assert(rows@[i] == before_rows[i]);
                        } else {
                            assert(match_spec(self.tasks@, self.areas@, *args, tag_uuids@, *prepared, *today, *rows@[i].0, created, completed)
                                == (true, rows@[i].1));
                        }
                    }
                    assert forall|m: int|
                        0 <= m < j + 1 implies (exists|i: int| 0 <= i < rows@.len() && source[i] == m) || fails_on_plausible_days(
                            self.tasks@,
                            self.areas@,
                            *args,
                            tag_uuids@,
                            *prepared,
                            *today,
                            #[trigger] self.tasks@[m],
                        ) by {
                        if m < j {
                            if exists|i: int| 0 <= i < before_rows.len() && before_source[i] == m {
                                let i = choose|i: int| 0 <= i < before_rows.len() && before_source[i] == m;
                                assert(source[i] == m);
                            }
                        } else {
                            assert(source[source.len() - 1] == m);
                        }
                    }
                }
            } else {
                proof {
                    assert forall|m: int|
                        0 <= m < j + 1 implies (exists|i: int| 0 <= i < rows@.len() && source[i] == m) || fails_on_plausible_days(
                            self.tasks@,
                            self.areas@,
                            *args,
                            tag_uuids@,
                            *prepared,
                            *today,
                            #[trigger] self.tasks@[m],
                        ) by {
                        if m == j {
                            assert(!match_spec(self.tasks@, self.areas@, *args, tag_uuids@, *prepared, *today, self.tasks@[m], created, completed).0);
                        }
                    }
                }
            }
            j += 1;
        }
        proof {
            assert forall|i: int| 0 <= i < rows@.len() implies self.tasks@.contains(*(#[trigger] rows@[i]).0) by {
                assert(self.tasks@[source[i]] == *rows@[i].0);
            }
            assert forall|m: int| 0 <= m < self.tasks@.len() implies (exists|i: int|
                0 <= i < rows@.len() && *rows@[i].0 == #[trigger] self.tasks@[m]) || fails_on_plausible_days(
                self.tasks@,
                self.areas@,
                *args,
                tag_uuids@,
                *prepared,
                *today,
                self.tasks@[m],
            ) by {
                if exists|i: int| 0 <= i < rows@.len() && source[i] == m {
                    let i = choose|i: int| 0 <= i < rows@.len() && source[i] == m;
                    assert(*rows@[i].0 == self.tasks@[m]);
                }
            }
            assert forall|i: int, k: int| 0 <= i < k < rows@.len() implies comes_before(
                self.tasks@,
                *(#[trigger] rows@[i]).0,
                *(#[trigger] rows@[k]).0,
            ) by {
                let a = source[i];
                let b = source[k];
                assert(0 <= a < b < self.tasks@.len());
                assert(self.tasks@[a] == *rows@[i].0 && self.tasks@[b] == *rows@[k].0);
            }
            assert forall|i: int, k: int| 0 <= i < k < rows@.len() implies (#[trigger] rows@[i]).0.uuid@
                != (#[trigger] rows@[k]).0.uuid@ by {
                assert(source[i] < source[k]);
                assert(*rows@[i].0 == self.tasks@[source[i]]);
                assert(*rows@[k].0 == self.tasks@[source[k]]);
            }
        }
        rows
    }
}

/// A search by completion day with no status flag searches the completed items: the status set
/// is exactly Completed, so a task that matches is a completed one, and a completed task is not
/// turned away for its status.
pub proof fn lemma_completed_on_searches_completed(
    tasks: Seq<Task>,
    areas: Seq<Area>,
    args: FindArgs,
    tag_uuids: Seq<ThingsId>,
    prepared: Prepared,
    today: Instant,
    task: Task,
    created_day: Option<i32>,
    completed_day: Option<i32>,
)
    requires
        !args.incomplete,
        !args.completed,
        !args.canceled,
        !args.any_status,
        args.completed_on@.len() > 0,
        match status_set(args) {
            None => prepared.statuses is None,
            Some(list) => prepared.statuses matches Some(s) && s@ == list,
        },
    ensures
        status_set(args) matches Some(list) && list.len() == 1 && list[0] == TaskStatus::Completed,
        match_spec(tasks, areas, args, tag_uuids, prepared, today, task, created_day, completed_day).0
            ==> task.status == TaskStatus::Completed,
        task.status == TaskStatus::Completed ==> match prepared.statuses {
            None => true,
            Some(list) => list@.contains(task.status),
        },
{
    let s = prepared.statuses->0@;
    assert(s.len() == 1 && s[0] == TaskStatus::Completed);
    if task.status == TaskStatus::Completed {
        assert(s[0] == task.status);
    }
}

/// The status flags choose what a search looks at: any status looks at all; the flags given
/// look at exactly those statuses; without a flag, a completion-day filter or the Trash, a
/// search looks at the open items.
pub proof fn lemma_status_flags_choose(args: FindArgs)
    ensures
        args.any_status ==> status_set(args) is None,
        !args.any_status && (args.incomplete || args.completed || args.canceled) ==> (status_set(args) matches Some(
            list,
        ) && (list.contains(TaskStatus::Incomplete) <==> args.incomplete) && (list.contains(TaskStatus::Completed)
            <==> args.completed) && (list.contains(TaskStatus::Canceled) <==> args.canceled)),
        !args.any_status && !args.incomplete && !args.completed && !args.canceled && args.completed_on@.len() == 0
            && !args.trashed ==> (status_set(args) matches Some(list) && list.len() == 1 && list[0]
            == TaskStatus::Incomplete),
{
    let a: Seq<TaskStatus> = if args.incomplete { seq![TaskStatus::Incomplete] } else { seq![] };
    let b: Seq<TaskStatus> = if args.completed { seq![TaskStatus::Completed] } else { seq![] };
    let c: Seq<TaskStatus> = if args.canceled { seq![TaskStatus::Canceled] } else { seq![] };
    let chosen = a + b + c;
    assert forall|t: TaskStatus| chosen.contains(t) <==> (a.contains(t) || b.contains(t) || c.contains(t)) by {
        if a.contains(t) {
            let k = choose|k: int| 0 <= k < a.len() && a[k] == t;
            assert(chosen[k] == t);
        }
        if b.contains(t) {
            let k = choose|k: int| 0 <= k < b.len() && b[k] == t;
            assert(chosen[a.len() + k] == t);
        }
        if c.contains(t) {
            let k = choose|k: int| 0 <= k < c.len() && c[k] == t;
            assert(chosen[a.len() + b.len() + k] == t);
        }
        if chosen.contains(t) {
            let k = choose|k: int| 0 <= k < chosen.len() && chosen[k] == t;
            if k < a.len() {
                assert(a[k] == t);
            } else if k < a.len() + b.len() {
                assert(b[k - a.len()] == t);
            } else {
                assert(c[k - a.len() - b.len()] == t);
            }
        }
    }
    if args.incomplete {
        assert(a[0] == TaskStatus::Incomplete);
    }
    if args.completed {
        assert(b[0] == TaskStatus::Completed);
    }
    if args.canceled {
        assert(c[0] == TaskStatus::Canceled);
    }
}

} // verus!
