//! moving a to-do, project or heading next to another: within Today's order when both stand in Today, otherwise within the list that holds them both
//!
//! every change of a reorder lands in one commit, a rebalance whole or not at all

use crate::calendar::{day_of, day_of_spec, day_timestamp, day_timestamp_spec};
use crate::common::{one_line, sanitize, signed_decimal, signed_decimal_text, Shown};
use crate::ids::id_order::{id_value, lemma_id_value_bound, lemma_id_value_injective};
use crate::ids::things_id::ThingsId;
use crate::ordering::{allocate, allocation};
use crate::store::entities::{is_project_spec, today_rule, Instant, Task};
use crate::store::{
    effective_area, effective_project, held, holds_id, id_room, in_closed_container_spec,
    in_trash_spec, lemma_distinct_task_positions, lemma_listed_in_order, lemma_lists_in_order_unique,
    lemma_stacked_order, listed, lists_in_order, pick, task_before,
    task_position, task_resolution, task_with_bytes, unique_task_ids, ThingsStore,
};
use crate::wire::{EntityType, TaskStart, TaskStatus, TaskType};
use vstd::prelude::*;

verus! {

/// what a reorder asks: the item, and the anchor it goes before or after
pub struct ReorderArgs {
    pub item_id: String,
    pub before_id: Option<String>,
    pub after_id: Option<String>,
}

/// the place a reorder writes to one task: `ix`, `ti`, `tir` and the evening bit, each where it changes
#[derive(Debug, Clone, Copy, PartialEq)]
pub struct PlaceUpdate {
    pub uuid: ThingsId,
    pub sort_index: Option<i32>,
    pub today_sort_index: Option<i32>,
    pub today_index_reference: Option<i64>,
    pub evening: Option<bool>,
}

/// a reorder ready to write: the item that moves, every update and how the new place reads
pub struct ReorderPlan<'a> {
    pub item: &'a Task,
    pub updates: Vec<PlaceUpdate>,
    pub label: String,
    /// the entity every update is written as
    pub entity: EntityType,
    /// the instant every update is stamped with
    pub modification_date: Instant,
}

/// the anchor's identifier, before taking precedence over after
pub open spec fn anchor_text(args: ReorderArgs) -> Seq<char> {
    match args.before_id {
        Some(text) => text@,
        None => match args.after_id {
            Some(text) => text@,
            None => seq![],
        },
    }
}

/// 00:00 UTC of the day a timestamp falls in
pub open spec fn midnight_of(today_ts: int) -> Instant {
    Instant { seconds: day_timestamp_spec(day_of_spec(today_ts)->0 as int) as i64, nanos: 0 }
}

/// a to-do Today orders: open, in Anytime, due today, outside the Trash and any closed project or heading
pub open spec fn today_orderable(tasks: Seq<Task>, task: Task, today: Instant) -> bool {
    &&& task.start == TaskStart::Anytime
    &&& today_rule(task, today)
    &&& task.status == TaskStatus::Incomplete
    &&& !task.trashed
    &&& !in_closed_container_spec(tasks, task)
}

/// the day group a today index counts in: `tir` when a client set it, otherwise the scheduled day, otherwise today
pub open spec fn today_group_of(task: Task, today_ts: i64) -> i64 {
    match task.today_index_reference {
        Some(reference) => reference,
        None => match task.start_date {
            Some(start) => start.seconds,
            None => today_ts,
        },
    }
}

/// Today's order within a group: by today index, then the higher index first, then by id
pub open spec fn today_rank(task: Task) -> int {
    ((task.today_index as int) * 0x1_0000_0000int + (i32::MAX - task.index)) * id_room() + id_value(
        task.uuid,
    )
}

/// the other to-dos of an anchor's day group that Today orders
pub open spec fn in_group(tasks: Seq<Task>, item: Task, group: i64, today: Instant, today_ts: i64, task: Task) -> bool {
    &&& task.uuid@ != item.uuid@
    &&& today_orderable(tasks, task, today)
    &&& today_group_of(task, today_ts) == group
}

/// `list` holds the day group of an anchor without the item, in Today's order
pub open spec fn lists_group(tasks: Seq<Task>, item: Task, group: i64, today: Instant, today_ts: i64, list: Seq<Task>) -> bool {
    lists_in_order(list, tasks, |t: Task| in_group(tasks, item, group, today, today_ts, t), |t: Task| today_rank(t))
}

/// the day group of an anchor without the item, in Today's order
pub open spec fn group_list(tasks: Seq<Task>, item: Task, group: i64, today: Instant, today_ts: i64) -> Seq<Task> {
    choose|list: Seq<Task>| #[trigger] lists_group(tasks, item, group, today, today_ts, list)
}

/// the wire number of a start
pub open spec fn start_code(start: TaskStart) -> i64 {
    match start {
        TaskStart::Inbox => 0,
        TaskStart::Anytime => 1,
        TaskStart::Someday => 2,
        TaskStart::Unknown(code) => code,
    }
}

/// the bytes of an id that may be missing
pub open spec fn id_bytes(id: Option<ThingsId>) -> Option<Seq<u8>> {
    match id {
        Some(id) => Some(id@),
        None => None,
    }
}

/// the list a task is ordered in: a heading among its project's headings, a project among its area's projects, a to-do under its project's heading, in its area's start, or in the start of no area
pub open spec fn bucket_of(tasks: Seq<Task>, task: Task) -> (int, Option<Seq<u8>>, Option<Seq<u8>>, i64) {
    if task.item_type == TaskType::Heading {
        (0, id_bytes(task.project), None, 0)
    } else if is_project_spec(task) {
        (1, id_bytes(task.area), None, 0)
    } else if effective_project(tasks, task) is Some {
        (2, id_bytes(effective_project(tasks, task)), id_bytes(task.action_group), 0)
    } else if effective_area(tasks, task) is Some {
        (3, id_bytes(effective_area(tasks, task)), None, start_code(task.start))
    } else {
        (4, None, None, start_code(task.start))
    }
}

/// an open task outside the Trash ordered in a list
pub open spec fn in_bucket(tasks: Seq<Task>, bucket: (int, Option<Seq<u8>>, Option<Seq<u8>>, i64), task: Task) -> bool {
    &&& !in_trash_spec(tasks, task)
    &&& task.status == TaskStatus::Incomplete
    &&& bucket_of(tasks, task) == bucket
}

/// `list` holds the open tasks of a list, in the order of their indexes
pub open spec fn lists_bucket(tasks: Seq<Task>, bucket: (int, Option<Seq<u8>>, Option<Seq<u8>>, i64), list: Seq<Task>) -> bool {
    lists_in_order(list, tasks, |t: Task| in_bucket(tasks, bucket, t), |t: Task| task_position(t))
}

/// the open tasks of a list, in the order of their indexes
pub open spec fn bucket_list(tasks: Seq<Task>, bucket: (int, Option<Seq<u8>>, Option<Seq<u8>>, i64)) -> Seq<Task> {
    choose|list: Seq<Task>| #[trigger] lists_bucket(tasks, bucket, list)
}

/// the first `n` members of a list but the one with an id
pub open spec fn without(list: Seq<Task>, id: Seq<u8>, n: int) -> Seq<Task>
    decreases n,
{
    if n <= 0 {
        seq![]
    } else {
        let rest = without(list, id, n - 1);
        if list[n - 1].uuid@ != id {
            rest.push(list[n - 1])
        } else {
            rest
        }
    }
}

/// the position of the first of the first `n` members with an id
pub open spec fn position_in(list: Seq<Task>, id: Seq<u8>, n: int) -> Option<int>
    decreases n,
{
    if n <= 0 {
        None
    } else {
        match position_in(list, id, n - 1) {
            Some(p) => Some(p),
            None => if list[n - 1].uuid@ == id {
                Some(n - 1)
            } else {
                None
            },
        }
    }
}

/// the first of the first `n` members whose entity the writes cannot upgrade
pub open spec fn first_stuck(list: Seq<Task>, upgradable: Seq<ThingsId>, n: int) -> Option<Task>
    decreases n,
{
    if n <= 0 {
        None
    } else {
        match first_stuck(list, upgradable, n - 1) {
            Some(t) => Some(t),
            None => if !holds_id(upgradable, list[n - 1].uuid) {
                Some(list[n - 1])
            } else {
                None
            },
        }
    }
}

/// the members of a list with their indexes, or their today indexes
pub open spec fn run_of(list: Seq<Task>, today: bool) -> Seq<(ThingsId, i32)> {
    list.map_values(|t: Task| (t.uuid, if today { t.today_index } else { t.index }))
}

/// the updates a rebalance writes: a new index, or a new today index, per member that moves
pub open spec fn moved_updates(moved: Seq<(ThingsId, i32)>, today: bool) -> Seq<PlaceUpdate> {
    moved.map_values(
        |m: (ThingsId, i32)|
            PlaceUpdate {
                uuid: m.0,
                sort_index: if today { None } else { Some(m.1) },
                today_sort_index: if today { Some(m.1) } else { None },
                today_index_reference: None,
                evening: None,
            },
    )
}

/// `(before=` or `(after=` and the anchor's title on one line
pub open spec fn label_head(anchor: Task, before: bool) -> Seq<char> {
    (if before { "(before="@ } else { "(after="@ }) + sanitize(anchor.title@, Shown::Field)
}

/// a reorder within Today: the item joins the anchor's day group and takes a slot next to the anchor among that group's today indexes, the evening bit following the anchor's
pub open spec fn today_reorder(
    tasks: Seq<Task>,
    item: Task,
    anchor: Task,
    before: bool,
    today_ts: i64,
) -> Result<(Task, Seq<PlaceUpdate>, Seq<char>), Seq<char>> {
    let today = midnight_of(today_ts as int);
    let group = today_group_of(anchor, today_ts);
    let list = group_list(tasks, item, group, today, today_ts);
    match position_in(list, anchor.uuid@, list.len() as int) {
        None => Err("Anchor not found in reorder list."@),
        Some(p) => {
            let placed = allocation(run_of(list, true), if before { p } else { p + 1 });
            let own = PlaceUpdate {
                uuid: item.uuid,
                sort_index: None,
                today_sort_index: Some(placed.0),
                today_index_reference: Some(group),
                evening: if item.evening != anchor.evening { Some(anchor.evening) } else { None },
            };
            Ok(
                (
                    item,
                    moved_updates(placed.1, true).push(own),
                    label_head(anchor, before) + ", today_ref="@ + signed_decimal(group as int)
                        + ", today_index="@ + signed_decimal(placed.0 as int) + ")"@,
                ),
            )
        },
    }
}

/// a reorder within the list that orders both: the item takes a slot next to the anchor, or the list is rebalanced when no slot is left and every member can be written
pub open spec fn list_reorder(
    tasks: Seq<Task>,
    upgradable: Seq<ThingsId>,
    item: Task,
    anchor: Task,
    before: bool,
) -> Result<(Task, Seq<PlaceUpdate>, Seq<char>), Seq<char>> {
    let bucket = bucket_of(tasks, item);
    if bucket_of(tasks, anchor) != bucket {
        Err("Cannot reorder across different containers/lists."@)
    } else if !in_bucket(tasks, bucket, item) || !in_bucket(tasks, bucket, anchor) {
        Err("Cannot reorder item in the selected list."@)
    } else {
        let list = bucket_list(tasks, bucket);
        let rest = without(list, item.uuid@, list.len() as int);
        match position_in(rest, anchor.uuid@, rest.len() as int) {
            None => Err("Anchor not found in reorder list."@),
            Some(p) => {
                let placed = allocation(run_of(rest, false), if before { p } else { p + 1 });
                if placed.1.len() > 0 && first_stuck(rest, upgradable, rest.len() as int) is Some {
                    Err(
                        "Cannot rebalance around unsupported task entity: "@ + first_stuck(
                            rest,
                            upgradable,
                            rest.len() as int,
                        )->0.entity@,
                    )
                } else {
                    let own = PlaceUpdate {
                        uuid: item.uuid,
                        sort_index: Some(placed.0),
                        today_sort_index: None,
                        today_index_reference: None,
                        evening: None,
                    };
                    Ok(
                        (
                            item,
                            moved_updates(placed.1, false) + if placed.0 != item.index {
                                seq![own]
                            } else {
                                seq![]
                            },
                            label_head(anchor, before) + ", index="@ + signed_decimal(placed.0 as int) + ")"@,
                        ),
                    )
                }
            },
        }
    }
}

/// a reorder once both ends are resolved and can be written
pub open spec fn placed_reorder(
    tasks: Seq<Task>,
    upgradable: Seq<ThingsId>,
    item: Task,
    anchor: Task,
    before: bool,
    today_ts: i64,
) -> Result<(Task, Seq<PlaceUpdate>, Seq<char>), Seq<char>> {
    let today = midnight_of(today_ts as int);
    if item.uuid@ == anchor.uuid@ {
        Err("Cannot reorder an item relative to itself."@)
    } else if today_orderable(tasks, item, today) && today_orderable(tasks, anchor, today) {
        today_reorder(tasks, item, anchor, before, today_ts)
    } else {
        list_reorder(tasks, upgradable, item, anchor, before)
    }
}

/// what a reorder does: the item and the anchor resolved by id or unique prefix, each of an entity the writes can upgrade, then the plan within Today or within their list
pub open spec fn reorder_outcome(
    tasks: Seq<Task>,
    sorted: Seq<ThingsId>,
    upgradable: Seq<ThingsId>,
    item_text: Seq<char>,
    anchor_text: Seq<char>,
    before: bool,
    today_ts: i64,
) -> Result<(Task, Seq<PlaceUpdate>, Seq<char>), Seq<char>> {
    let found = task_resolution(tasks, sorted, item_text);
    match found.0 {
        None => Err(found.1),
        Some(bytes) => {
            let item = task_with_bytes(tasks, bytes)->0;
            if !holds_id(upgradable, item.uuid) {
                Err("Unsupported task entity for reordering: "@ + item.entity@)
            } else {
                let other = task_resolution(tasks, sorted, anchor_text);
                match other.0 {
                    None => Err(other.1),
                    Some(anchor_bytes) => {
                        let anchor = task_with_bytes(tasks, anchor_bytes)->0;
                        if !holds_id(upgradable, anchor.uuid) {
                            Err("Unsupported anchor task entity for reordering: "@ + anchor.entity@)
                        } else {
                            placed_reorder(tasks, upgradable, item, anchor, before, today_ts)
                        }
                    },
                }
            }
        },
    }
}

/// the higher of two numbers stacked above a base compares first, whatever stands below
proof fn lemma_today_rank(a: Task, b: Task)
    ensures
        (today_rank(a) < today_rank(b)) == (a.today_index < b.today_index || (a.today_index
            == b.today_index && (a.index > b.index || (a.index == b.index && id_value(a.uuid)
            < id_value(b.uuid))))),
        a.uuid@ != b.uuid@ ==> today_rank(a) != today_rank(b),
{
    lemma_id_value_bound(a.uuid);
    lemma_id_value_bound(b.uuid);
    let lo_a = i32::MAX - a.index;
    let lo_b = i32::MAX - b.index;
    lemma_stacked_order(a.today_index as int, lo_a, b.today_index as int, lo_b, 0x1_0000_0000int);
    let hi_a = (a.today_index as int) * 0x1_0000_0000int + lo_a;
    let hi_b = (b.today_index as int) * 0x1_0000_0000int + lo_b;
    lemma_stacked_order(hi_a, id_value(a.uuid), hi_b, id_value(b.uuid), id_room());
    if a.uuid@ != b.uuid@ {
        lemma_id_value_injective(a.uuid, b.uuid);
    }
}

/// the task comes first in Today's order
fn today_before(a: &Task, b: &Task) -> (before: bool)
    ensures
        before == (today_rank(*a) < today_rank(*b)),
{
    proof {
        lemma_today_rank(*a, *b);
    }
    a.today_index < b.today_index || (a.today_index == b.today_index && (a.index > b.index || (
    a.index == b.index && a.uuid.sorts_before(&b.uuid))))
}

/// two ids that may be missing are the same
pub(crate) fn same_id(a: &Option<ThingsId>, b: &Option<ThingsId>) -> (same: bool)
    ensures
        same == (id_bytes(*a) == id_bytes(*b)),
{
    match (a, b) {
        (Some(x), Some(y)) => x == y,
        (None, None) => true,
        _ => false,
    }
}

impl ThingsStore {
    /// the list a task is ordered in
    pub(crate) fn bucket(&self, task: &Task) -> (bucket: (u8, Option<ThingsId>, Option<ThingsId>, i64))
        ensures
            (bucket.0 as int, id_bytes(bucket.1), id_bytes(bucket.2), bucket.3) == bucket_of(self.tasks@, *task),
    {
        if task.is_heading() {
            return (0, task.project, None, 0);
        }
        if task.is_project() {
            return (1, task.area, None, 0);
        }
        let project = self.effective_project_uuid(task);
        if project.is_some() {
            return (2, project, task.action_group, 0);
        }
        let area = self.effective_area_uuid(task);
        if area.is_some() {
            return (3, area, None, task.start.to_wire());
        }
        (4, None, None, task.start.to_wire())
    }

    /// two tasks are ordered in one list
    fn same_bucket(&self, a: &Task, b: &Task) -> (same: bool)
        ensures
            same == (bucket_of(self.tasks@, *a) == bucket_of(self.tasks@, *b)),
    {
        let x = self.bucket(a);
        let y = self.bucket(b);
        x.0 == y.0 && same_id(&x.1, &y.1) && same_id(&x.2, &y.2) && x.3 == y.3
    }

    /// an open task outside the Trash ordered in the same list as `like`
    fn in_bucket_of(&self, like: &Task, task: &Task) -> (kept: bool)
        ensures
            kept == in_bucket(self.tasks@, bucket_of(self.tasks@, *like), *task),
    {
        !self.in_trash(task) && task.status == TaskStatus::Incomplete && self.same_bucket(task, like)
    }

    /// a to-do Today orders
    fn today_orderable(&self, task: &Task, today: &Instant) -> (orderable: bool)
        ensures
            orderable == today_orderable(self.tasks@, *task, *today),
    {
        task.start == TaskStart::Anytime && task.is_today(today) && task.status == TaskStatus::Incomplete
            && !task.trashed && !self.in_closed_container(task)
    }

    /// the open tasks ordered in the list of `like`, in the order of their indexes
    fn bucket_members(&self, like: &Task) -> (list: Vec<&Task>)
        requires
            self.well_formed(),
        ensures
            held(list@) == bucket_list(self.tasks@, bucket_of(self.tasks@, *like)),
            list@.len() <= self.tasks@.len(),
    {
        let ghost tasks = self.tasks@;
        let ghost bucket = bucket_of(tasks, *like);
        let ghost keep = |t: Task| in_bucket(tasks, bucket, t);
        let keeps = |j: usize| -> (r: bool)
            requires
                j < self.tasks@.len(),
            ensures
                r == in_bucket(self.tasks@, bucket_of(self.tasks@, *like), self.tasks@[j as int]),
            { self.in_bucket_of(like, &self.tasks[j]) };
        let picked = pick(self.tasks.len(), keeps, Ghost(|j: int| keep(tasks[j])));
        proof {
            lemma_distinct_task_positions(tasks, picked@);
        }
        let list = listed(&self.tasks, &picked, task_before, Ghost(keep), Ghost(|t: Task| task_position(t)));
        proof {
            lemma_listed_in_order(held(list@), tasks, picked@, keep, |t: Task| task_position(t));
            assert(lists_bucket(tasks, bucket, held(list@)));
            let chosen = bucket_list(tasks, bucket);
            assert(lists_in_order(chosen, tasks, keep, |t: Task| task_position(t)));
            lemma_lists_in_order_unique(held(list@), chosen, tasks, keep, |t: Task| task_position(t));
        }
        list
    }

    /// the other to-dos of a day group that Today orders, in Today's order
    fn group_members(&self, item: &Task, group: i64, today: &Instant, today_ts: i64) -> (list: Vec<&Task>)
        requires
            self.well_formed(),
        ensures
            held(list@) == group_list(self.tasks@, *item, group, *today, today_ts),
            list@.len() <= self.tasks@.len(),
    {
        let ghost tasks = self.tasks@;
        let ghost keep = |t: Task| in_group(tasks, *item, group, *today, today_ts, t);
        let keeps = |j: usize| -> (r: bool)
            requires
                j < self.tasks@.len(),
            ensures
                r == in_group(self.tasks@, *item, group, *today, today_ts, self.tasks@[j as int]),
            {
                let t = &self.tasks[j];
                t.uuid != item.uuid && self.today_orderable(t, today) && today_group(t, today_ts) == group
            };
        let picked = pick(self.tasks.len(), keeps, Ghost(|j: int| keep(tasks[j])));
        proof {
            assert forall|m: int, k: int| 0 <= m < k < picked@.len() implies today_rank(
                tasks[#[trigger] picked@[m] as int],
            ) != today_rank(tasks[#[trigger] picked@[k] as int]) by {
                let a = tasks[picked@[m] as int];
                let b = tasks[picked@[k] as int];
                assert(a.uuid@ != b.uuid@);
                lemma_today_rank(a, b);
            }
        }
        let list = listed(&self.tasks, &picked, today_before, Ghost(keep), Ghost(|t: Task| today_rank(t)));
        proof {
            lemma_listed_in_order(held(list@), tasks, picked@, keep, |t: Task| today_rank(t));
            assert(lists_group(tasks, *item, group, *today, today_ts, held(list@)));
            let chosen = group_list(tasks, *item, group, *today, today_ts);
            assert(lists_in_order(chosen, tasks, keep, |t: Task| today_rank(t)));
            lemma_lists_in_order_unique(held(list@), chosen, tasks, keep, |t: Task| today_rank(t));
        }
        list
    }

    /// the first member of a list whose entity the writes cannot upgrade
    fn first_stuck<'a>(&self, list: &Vec<&'a Task>) -> (found: Option<&'a Task>)
        ensures
            match first_stuck(held(list@), self.upgradable_ids@, list@.len() as int) {
                Some(t) => found matches Some(f) && *f == t,
                None => found is None,
            },
    {
        let mut i: usize = 0;
        while i < list.len()
            invariant
                i <= list@.len(),
                first_stuck(held(list@), self.upgradable_ids@, i as int) is None,
            decreases list@.len() - i,
        {
            if !self.can_upgrade_to_task7(list[i]) {
                proof {
                    lemma_first_stuck_stays(held(list@), self.upgradable_ids@, i + 1, list@.len() as int);
                }
                return Some(list[i]);
            }
            i += 1;
        }
        None
    }
}

/// a member found among the first ones stays the first found as the list goes on
proof fn lemma_first_stuck_stays(list: Seq<Task>, upgradable: Seq<ThingsId>, from: int, to: int)
    requires
        1 <= from <= to,
        first_stuck(list, upgradable, from) is Some,
    ensures
        first_stuck(list, upgradable, to) == first_stuck(list, upgradable, from),
    decreases to - from,
{
    if from < to {
        lemma_first_stuck_stays(list, upgradable, from, to - 1);
    }
}

/// a position found among the first `n` members is one of them
pub(crate) proof fn lemma_position_bound(list: Seq<Task>, id: Seq<u8>, n: int)
    ensures
        position_in(list, id, n) matches Some(p) ==> 0 <= p < n,
    decreases n,
{
    if n > 0 {
        lemma_position_bound(list, id, n - 1);
    }
}

/// a position found among the first members stays the one found as the list goes on
proof fn lemma_position_stays(list: Seq<Task>, id: Seq<u8>, from: int, to: int)
    requires
        1 <= from <= to,
        position_in(list, id, from) is Some,
    ensures
        position_in(list, id, to) == position_in(list, id, from),
    decreases to - from,
{
    if from < to {
        lemma_position_stays(list, id, from, to - 1);
    }
}

/// the day group a today index counts in
fn today_group(task: &Task, today_ts: i64) -> (group: i64)
    ensures
        group == today_group_of(*task, today_ts),
{
    match task.today_index_reference {
        Some(reference) => reference,
        None => match task.start_date {
            Some(start) => start.seconds,
            None => today_ts,
        },
    }
}

/// the position of the first member with an id
pub(crate) fn position_of(list: &Vec<&Task>, id: &ThingsId) -> (found: Option<usize>)
    ensures
        match position_in(held(list@), id@, list@.len() as int) {
            Some(p) => found == Some(p as usize),
            None => found is None,
        },
        found matches Some(p) ==> p < list@.len(),
        position_in(held(list@), id@, list@.len() as int) matches Some(p) ==> 0 <= p < list@.len(),
{
    proof {
        lemma_position_bound(held(list@), id@, list@.len() as int);
    }
    let mut i: usize = 0;
    while i < list.len()
        invariant
            i <= list@.len(),
            position_in(held(list@), id@, i as int) is None,
        decreases list@.len() - i,
    {
        if list[i].uuid == *id {
            proof {
                lemma_position_stays(held(list@), id@, i + 1, list@.len() as int);
            }
            return Some(i);
        }
        i += 1;
    }
    None
}

/// the members of a list but the one with an id
fn without_id<'a>(list: &Vec<&'a Task>, id: &ThingsId) -> (rest: Vec<&'a Task>)
    ensures
        held(rest@) == without(held(list@), id@, list@.len() as int),
        rest@.len() <= list@.len(),
{
    let mut rest: Vec<&'a Task> = Vec::new();
    let mut i: usize = 0;
    while i < list.len()
        invariant
            i <= list@.len(),
            rest@.len() <= i,
            held(rest@) == without(held(list@), id@, i as int),
        decreases list@.len() - i,
    {
        if list[i].uuid != *id {
            let ghost before = rest@;
            rest.push(list[i]);
            assert(held(rest@) =~= held(before).push(*list@[i as int]));
        }
        i += 1;
    }
    rest
}

/// the members of a list with their indexes, or their today indexes
pub(crate) fn run_with(list: &Vec<&Task>, today: bool) -> (run: Vec<(ThingsId, i32)>)
    ensures
        run@ == run_of(held(list@), today),
        run@.len() == list@.len(),
{
    let mut run: Vec<(ThingsId, i32)> = Vec::new();
    let mut i: usize = 0;
    while i < list.len()
        invariant
            i <= list@.len(),
            run@ == run_of(held(list@).take(i as int), today),
            run@.len() == i,
        decreases list@.len() - i,
    {
        let t = list[i];
        run.push((t.uuid, if today { t.today_index } else { t.index }));
        assert(run_of(held(list@).take(i + 1), today) =~= run_of(held(list@).take(i as int), today).push(
            (t.uuid, if today { t.today_index } else { t.index }),
        ));
        i += 1;
    }
    assert(held(list@).take(list@.len() as int) =~= held(list@));
    run
}

/// the updates a rebalance writes
fn updates_for(moved: &Vec<(ThingsId, i32)>, today: bool) -> (updates: Vec<PlaceUpdate>)
    ensures
        updates@ == moved_updates(moved@, today),
{
    let mut updates: Vec<PlaceUpdate> = Vec::new();
    let mut i: usize = 0;
    while i < moved.len()
        invariant
            i <= moved@.len(),
            updates@ == moved_updates(moved@.take(i as int), today),
        decreases moved@.len() - i,
    {
        let (uuid, index) = moved[i];
        let update = PlaceUpdate {
            uuid,
            sort_index: if today { None } else { Some(index) },
            today_sort_index: if today { Some(index) } else { None },
            today_index_reference: None,
            evening: None,
        };
        updates.push(update);
        assert(moved_updates(moved@.take(i + 1), today) =~= moved_updates(moved@.take(i as int), today).push(update));
        i += 1;
    }
    assert(moved@.take(moved@.len() as int) =~= moved@);
    updates
}

/// `(before=` or `(after=` and the anchor's title on one line
fn label_start(anchor: &Task, before: bool) -> (label: String)
    ensures
        label@ == label_head(*anchor, before),
{
    let mut label = if before {
        String::from_str("(before=")
    } else {
        String::from_str("(after=")
    };
    let title = one_line(anchor.title.as_str());
    label.append(title.as_str());
    label
}

/// the plan of a reorder within Today
fn plan_in_today<'a>(
    store: &'a ThingsStore,
    item: &'a Task,
    anchor: &'a Task,
    before: bool,
    now: Instant,
    today_ts: i64,
    today: &Instant,
) -> (plan: Result<ReorderPlan<'a>, String>)
    requires
        store.well_formed(),
        *today == midnight_of(today_ts as int),
    ensures
        plan matches Ok(p) ==> p.entity == EntityType::Task7 && p.modification_date == now,
        match today_reorder(store.tasks@, *item, *anchor, before, today_ts) {
            Err(message) => plan matches Err(m) && m@ == message,
            Ok(outcome) => plan matches Ok(p) && *p.item == outcome.0 && p.updates@ == outcome.1 && p.label@
                == outcome.2,
        },
{
    let group = today_group(anchor, today_ts);
    let list = store.group_members(item, group, today, today_ts);
    let at = match position_of(&list, &anchor.uuid) {
        Some(at) => at,
        None => return Err(String::from_str("Anchor not found in reorder list.")),
    };
    let hole = if before {
        at
    } else {
        at + 1
    };
    let run = run_with(&list, true);
    assert(run@.len() <= i32::MAX);
    let (index, moved) = allocate(run.as_slice(), hole);
    assert(allocation(run_of(held(list@), true), hole as int) == (index, moved@));
    let mut updates = updates_for(&moved, true);
    let ghost moved_part = updates@;
    let evening = if item.evening != anchor.evening {
        Some(anchor.evening)
    } else {
        None
    };
    updates.push(
        PlaceUpdate {
            uuid: item.uuid,
            sort_index: None,
            today_sort_index: Some(index),
            today_index_reference: Some(group),
            evening,
        },
    );
    let mut label = label_start(anchor, before);
    label.append(", today_ref=");
    label.append(signed_decimal_text(group).as_str());
    label.append(", today_index=");
    label.append(signed_decimal_text(index as i64).as_str());
    label.append(")");
    proof {
        let expected = today_reorder(store.tasks@, *item, *anchor, before, today_ts);
        assert(position_in(held(list@), anchor.uuid@, list@.len() as int) == Some(at as int));
        assert(expected is Ok);
        let (out_item, out_updates, out_label) = expected->Ok_0;
        assert(out_item == *item);
        assert(out_updates == updates@);
        assert(out_label == label@);
    }
    Ok(ReorderPlan { item, updates, label, entity: EntityType::Task7, modification_date: now })
}

/// the plan of a reorder within the list that orders both
fn plan_in_list<'a>(store: &'a ThingsStore, item: &'a Task, anchor: &'a Task, before: bool, now: Instant) -> (plan: Result<
    ReorderPlan<'a>,
    String,
>)
    requires
        store.well_formed(),
    ensures
        plan matches Ok(p) ==> p.entity == EntityType::Task7 && p.modification_date == now,
        match list_reorder(store.tasks@, store.upgradable_ids@, *item, *anchor, before) {
            Err(message) => plan matches Err(m) && m@ == message,
            Ok(outcome) => plan matches Ok(p) && *p.item == outcome.0 && p.updates@ == outcome.1 && p.label@
                == outcome.2,
        },
{
    if !store.same_bucket(anchor, item) {
        return Err(String::from_str("Cannot reorder across different containers/lists."));
    }
    if !store.in_bucket_of(item, item) || !store.in_bucket_of(item, anchor) {
        return Err(String::from_str("Cannot reorder item in the selected list."));
    }
    let list = store.bucket_members(item);
    let rest = without_id(&list, &item.uuid);
    let at = match position_of(&rest, &anchor.uuid) {
        Some(at) => at,
        None => return Err(String::from_str("Anchor not found in reorder list.")),
    };
    let hole = if before {
        at
    } else {
        at + 1
    };
    let run = run_with(&rest, false);
    assert(run@.len() <= i32::MAX);
    let (index, moved) = allocate(run.as_slice(), hole);
    assert(allocation(run_of(held(rest@), false), hole as int) == (index, moved@));
    if moved.len() > 0 {
        if let Some(stuck) = store.first_stuck(&rest) {
            let mut message = String::from_str("Cannot rebalance around unsupported task entity: ");
            message.append(stuck.entity.as_str());
            return Err(message);
        }
    }
    let mut updates = updates_for(&moved, false);
    let ghost moved_part = updates@;
    if index != item.index {
        updates.push(
            PlaceUpdate {
                uuid: item.uuid,
                sort_index: Some(index),
                today_sort_index: None,
                today_index_reference: None,
                evening: None,
            },
        );
    }
    let mut label = label_start(anchor, before);
    label.append(", index=");
    label.append(signed_decimal_text(index as i64).as_str());
    label.append(")");
    proof {
        let own = PlaceUpdate {
            uuid: item.uuid,
            sort_index: Some(index),
            today_sort_index: None,
            today_index_reference: None,
            evening: None,
        };
        if index != item.index {
            assert(updates@ =~= moved_part + seq![own]);
        } else {
            assert(updates@ =~= moved_part + Seq::<PlaceUpdate>::empty());
        }
    }
    Ok(ReorderPlan { item, updates, label, entity: EntityType::Task7, modification_date: now })
}

/// the plan of a reorder: the item and the anchor by id or unique prefix, then their new places within Today when both stand in it, otherwise within the list that orders both, or the message of what refused it
///
/// `today_ts` names today; a to-do counts as in Today by the day it falls in, a today index without a day group joins today's
pub fn reorder_plan<'a>(args: &ReorderArgs, store: &'a ThingsStore, now: Instant, today_ts: i64) -> (plan: Result<
    ReorderPlan<'a>,
    String,
>)
    requires
        store.well_formed(),
        day_of_spec(today_ts as int) is Some,
    ensures
        plan matches Ok(p) ==> p.entity == EntityType::Task7 && p.modification_date == now,
        match reorder_outcome(
            store.tasks@,
            store.task_ids_sorted@,
            store.upgradable_ids@,
            args.item_id@,
            anchor_text(*args),
            args.before_id is Some,
            today_ts,
        ) {
            Err(message) => plan matches Err(m) && m@ == message,
            Ok(outcome) => plan matches Ok(p) && *p.item == outcome.0 && p.updates@ == outcome.1 && p.label@
                == outcome.2,
        },
{
    let day = match day_of(today_ts) {
        Some(day) => day,
        None => 0,
    };
    let today = Instant { seconds: day_timestamp(day), nanos: 0 };
    let (found, message, _) = store.resolve_task_identifier(args.item_id.as_str());
    let item = match found {
        Some(item) => item,
        None => return Err(message),
    };
    if !store.can_upgrade_to_task7(item) {
        let mut refused = String::from_str("Unsupported task entity for reordering: ");
        refused.append(item.entity.as_str());
        return Err(refused);
    }
    let anchor_id: &str = match &args.before_id {
        Some(text) => text.as_str(),
        None => match &args.after_id {
            Some(text) => text.as_str(),
            None => "",
        },
    };
    proof {
        reveal_strlit("");
    }
    let (found, message, _) = store.resolve_task_identifier(anchor_id);
    let anchor = match found {
        Some(anchor) => anchor,
        None => return Err(message),
    };
    if !store.can_upgrade_to_task7(anchor) {
        let mut refused = String::from_str("Unsupported anchor task entity for reordering: ");
        refused.append(anchor.entity.as_str());
        return Err(refused);
    }
    if item.uuid == anchor.uuid {
        return Err(String::from_str("Cannot reorder an item relative to itself."));
    }
    let before = args.before_id.is_some();
    if store.today_orderable(item, &today) && store.today_orderable(anchor, &today) {
        plan_in_today(store, item, anchor, before, now, today_ts, &today)
    } else {
        plan_in_list(store, item, anchor, before, now)
    }
}

} // verus!
