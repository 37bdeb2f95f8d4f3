//! the local store: the replayed items and the lists the views show

pub mod entities;
pub mod order;

use crate::common::{
    blank, chars_of, decimal, decimal_text, is_blank, one_line, sanitize, string_of, trim_spec,
    trimmed, Shown,
};
use crate::ids::matching::{
    prefix_entries, prefix_matches, prefix_matches_spec, shortest_unique_prefixes,
};
use crate::ids::things_id::parse_spec;
use crate::ids::id_order::{id_value, lemma_id_value_bound, lemma_id_value_injective};
use crate::ids::things_id::ThingsId;
use crate::store::order::order_by;
use crate::store::entities::{
    blank_task, instant_key, instant_le, is_project_spec, is_template_spec, today_rule, Area, Instant,
    ProjectProgress, Tag, Task,
};
use crate::wire::{TaskStart, TaskStatus, TaskType};
use vstd::prelude::*;
use vstd::string::StringSliceAdditionalSpecFns;

verus! {

/// the replayed items, with the indexes the lists and lookups go through
///
/// each id is held by one item of its kind
pub struct ThingsStore {
    pub tasks: Vec<Task>,
    pub areas: Vec<Area>,
    pub tags: Vec<Tag>,
    pub project_progress: Vec<(ThingsId, ProjectProgress)>,
    pub short_ids: Vec<(ThingsId, String)>,
    pub markable_ids_sorted: Vec<ThingsId>,
    pub area_ids_sorted: Vec<ThingsId>,
    pub task_ids_sorted: Vec<ThingsId>,
    /// the ids of the tasks whose entity the writes can upgrade to `Task7`
    pub upgradable_ids: Vec<ThingsId>,
}

/// no two tasks share an id
pub open spec fn unique_task_ids(tasks: Seq<Task>) -> bool {
    forall|i: int, j: int|
        0 <= i < j < tasks.len() ==> #[trigger] tasks[i].uuid@ != #[trigger] tasks[j].uuid@
}

/// no two areas share an id
pub open spec fn unique_area_ids(areas: Seq<Area>) -> bool {
    forall|i: int, j: int|
        0 <= i < j < areas.len() ==> #[trigger] areas[i].uuid@ != #[trigger] areas[j].uuid@
}

/// no two tags share an id
pub open spec fn unique_tag_ids(tags: Seq<Tag>) -> bool {
    forall|i: int, j: int|
        0 <= i < j < tags.len() ==> #[trigger] tags[i].uuid@ != #[trigger] tags[j].uuid@
}

/// the task whose id has these bytes
pub open spec fn task_with_bytes(tasks: Seq<Task>, bytes: Seq<u8>) -> Option<Task>
    decreases tasks.len(),
{
    if tasks.len() == 0 {
        None
    } else if tasks[0].uuid@ == bytes {
        Some(tasks[0])
    } else {
        task_with_bytes(tasks.drop_first(), bytes)
    }
}

/// the task with an id
pub open spec fn task_with(tasks: Seq<Task>, id: ThingsId) -> Option<Task> {
    task_with_bytes(tasks, id@)
}

/// the task a text names by its id, None where the text is no id
pub open spec fn task_named(tasks: Seq<Task>, text: Seq<u8>) -> Option<Task> {
    match crate::ids::things_id::parse_spec(text) {
        Some(bytes) => task_with_bytes(tasks, bytes),
        None => None,
    }
}

/// the area whose id has these bytes
pub open spec fn area_with_bytes(areas: Seq<Area>, bytes: Seq<u8>) -> Option<Area>
    decreases areas.len(),
{
    if areas.len() == 0 {
        None
    } else if areas[0].uuid@ == bytes {
        Some(areas[0])
    } else {
        area_with_bytes(areas.drop_first(), bytes)
    }
}

/// the area with an id
pub open spec fn area_with(areas: Seq<Area>, id: ThingsId) -> Option<Area> {
    area_with_bytes(areas, id@)
}

/// the area a text names by its id, None where the text is no id
pub open spec fn area_named(areas: Seq<Area>, text: Seq<u8>) -> Option<Area> {
    match crate::ids::things_id::parse_spec(text) {
        Some(bytes) => area_with_bytes(areas, bytes),
        None => None,
    }
}

/// the tag whose id has these bytes
pub open spec fn tag_with_bytes(tags: Seq<Tag>, bytes: Seq<u8>) -> Option<Tag>
    decreases tags.len(),
{
    if tags.len() == 0 {
        None
    } else if tags[0].uuid@ == bytes {
        Some(tags[0])
    } else {
        tag_with_bytes(tags.drop_first(), bytes)
    }
}

/// the tag with an id
pub open spec fn tag_with(tags: Seq<Tag>, id: ThingsId) -> Option<Tag> {
    tag_with_bytes(tags, id@)
}

/// the tag a text names by its id, None where the text is no id
pub open spec fn tag_named(tags: Seq<Tag>, text: Seq<u8>) -> Option<Tag> {
    match crate::ids::things_id::parse_spec(text) {
        Some(bytes) => tag_with_bytes(tags, bytes),
        None => None,
    }
}

/// the first task with an id is at the first position holding it
proof fn lemma_task_with(tasks: Seq<Task>, id: ThingsId, k: int)
    requires
        0 <= k <= tasks.len(),
        forall|m: int| 0 <= m < k ==> tasks[m].uuid@ != id@,
    ensures
        task_with(tasks, id) == task_with(tasks.skip(k), id),
    decreases k,
{
    if k > 0 {
        lemma_task_with(tasks, id, k - 1);
        assert(tasks.skip(k - 1).drop_first() =~= tasks.skip(k));
        assert(tasks.skip(k - 1)[0] == tasks[k - 1]);
    } else {
        assert(tasks.skip(0) =~= tasks);
    }
}

proof fn lemma_area_with(areas: Seq<Area>, id: ThingsId, k: int)
    requires
        0 <= k <= areas.len(),
        forall|m: int| 0 <= m < k ==> areas[m].uuid@ != id@,
    ensures
        area_with(areas, id) == area_with(areas.skip(k), id),
    decreases k,
{
    if k > 0 {
        lemma_area_with(areas, id, k - 1);
        assert(areas.skip(k - 1).drop_first() =~= areas.skip(k));
        assert(areas.skip(k - 1)[0] == areas[k - 1]);
    } else {
        assert(areas.skip(0) =~= areas);
    }
}

proof fn lemma_tag_with(tags: Seq<Tag>, id: ThingsId, k: int)
    requires
        0 <= k <= tags.len(),
        forall|m: int| 0 <= m < k ==> tags[m].uuid@ != id@,
    ensures
        tag_with(tags, id) == tag_with(tags.skip(k), id),
    decreases k,
{
    if k > 0 {
        lemma_tag_with(tags, id, k - 1);
        assert(tags.skip(k - 1).drop_first() =~= tags.skip(k));
        assert(tags.skip(k - 1)[0] == tags[k - 1]);
    } else {
        assert(tags.skip(0) =~= tags);
    }
}

/// a task found by its id holds that id and stands in the list
pub proof fn lemma_task_with_found(tasks: Seq<Task>, id: ThingsId)
    ensures
        task_with(tasks, id) matches Some(t) ==> t.uuid@ == id@ && tasks.contains(t),
    decreases tasks.len(),
{
    if tasks.len() > 0 && tasks[0].uuid@ != id@ {
        lemma_task_with_found(tasks.drop_first(), id);
        if let Some(t) = task_with(tasks.drop_first(), id) {
            let i = choose|i: int| 0 <= i < tasks.drop_first().len() && tasks.drop_first()[i] == t;
            assert(tasks[i + 1] == t);
        }
    } else if tasks.len() > 0 {
        assert(tasks[0] == tasks[0]);
    }
}

/// an area found by the bytes of its id holds that id
pub proof fn lemma_area_with_bytes_id(areas: Seq<Area>, bytes: Seq<u8>)
    ensures
        area_with_bytes(areas, bytes) matches Some(a) ==> a.uuid@ == bytes,
    decreases areas.len(),
{
    if areas.len() > 0 && areas[0].uuid@ != bytes {
        lemma_area_with_bytes_id(areas.drop_first(), bytes);
    }
}

/// the project a task belongs to: its own, or its heading's
pub open spec fn effective_project(tasks: Seq<Task>, task: Task) -> Option<ThingsId> {
    match task.project {
        Some(project) => Some(project),
        None => match task.action_group {
            Some(heading) => match task_with(tasks, heading) {
                Some(heading) => heading.project,
                None => None,
            },
            None => None,
        },
    }
}

/// the area a task belongs to: its own, its project's or its heading's
pub open spec fn effective_area(tasks: Seq<Task>, task: Task) -> Option<ThingsId> {
    match task.area {
        Some(area) => Some(area),
        None => {
            let through_project = match effective_project(tasks, task) {
                Some(project) => match task_with(tasks, project) {
                    Some(project) => project.area,
                    None => None,
                },
                None => None,
            };
            if through_project is Some {
                through_project
            } else {
                match task.action_group {
                    Some(heading) => match task_with(tasks, heading) {
                        Some(heading) => heading.area,
                        None => None,
                    },
                    None => None,
                }
            }
        },
    }
}

/// the task an id names is in the Trash
pub open spec fn trashed_at(tasks: Seq<Task>, id: Option<ThingsId>) -> bool {
    match id {
        Some(id) => match task_with(tasks, id) {
            Some(container) => container.trashed,
            None => false,
        },
        None => false,
    }
}

/// the task an id names is no longer open
pub open spec fn closed_at(tasks: Seq<Task>, id: Option<ThingsId>) -> bool {
    match id {
        Some(id) => match task_with(tasks, id) {
            Some(container) => container.status != TaskStatus::Incomplete,
            None => false,
        },
        None => false,
    }
}

/// under a trashed heading or in a trashed project
pub open spec fn in_trashed_container_spec(tasks: Seq<Task>, task: Task) -> bool {
    trashed_at(tasks, task.action_group) || trashed_at(tasks, effective_project(tasks, task))
}

/// in the Trash itself or through a trashed project or heading
pub open spec fn in_trash_spec(tasks: Seq<Task>, task: Task) -> bool {
    task.trashed || in_trashed_container_spec(tasks, task)
}

/// in a trashed container or a project or heading that is no longer open
pub open spec fn in_closed_container_spec(tasks: Seq<Task>, task: Task) -> bool {
    in_trashed_container_spec(tasks, task) || closed_at(tasks, task.action_group) || closed_at(
        tasks,
        effective_project(tasks, task),
    )
}

/// in the Inbox list
pub open spec fn in_inbox_spec(tasks: Seq<Task>, task: Task) -> bool {
    &&& task.status == TaskStatus::Incomplete
    &&& task.start == TaskStart::Inbox
    &&& !in_trash_spec(tasks, task)
    &&& effective_project(tasks, task) is None
    &&& effective_area(tasks, task) is None
    &&& !is_project_spec(task)
    &&& task.item_type != TaskType::Heading
    &&& !blank_task(task)
}

/// in the Today list
pub open spec fn in_today_spec(tasks: Seq<Task>, task: Task, today: Instant) -> bool {
    &&& task.status == TaskStatus::Incomplete
    &&& today_rule(task, today)
    &&& !blank_task(task)
    &&& !task.trashed
    &&& !in_closed_container_spec(tasks, task)
}

impl ThingsStore {
    /// each id is held by one item of its kind
    pub open spec fn well_formed(&self) -> bool {
        &&& unique_task_ids(self.tasks@)
        &&& unique_area_ids(self.areas@)
        &&& unique_tag_ids(self.tags@)
        &&& self.tasks@.len() <= i32::MAX
    }

    /// the position of the task with an id
    fn task_index(&self, id: &ThingsId) -> (found: Option<usize>)
        ensures
            match found {
                Some(i) => i < self.tasks@.len() && self.tasks@[i as int].uuid@ == id@ && task_with(
                    self.tasks@,
                    *id,
                ) == Some(self.tasks@[i as int]),
                None => task_with(self.tasks@, *id) is None,
            },
    {
        let mut k: usize = 0;
        while k < self.tasks.len()
            invariant
                k <= self.tasks@.len(),
                forall|m: int| 0 <= m < k ==> self.tasks@[m].uuid@ != id@,
            decreases self.tasks@.len() - k,
        {
            if self.tasks[k].uuid == *id {
                proof {
                    lemma_task_with(self.tasks@, *id, k as int);
                }
                return Some(k);
            }
            k += 1;
        }
        proof {
            lemma_task_with(self.tasks@, *id, k as int);
        }
        None
    }

    /// the task with an id
    pub fn task(&self, id: &ThingsId) -> (found: Option<&Task>)
        ensures
            match found {
                Some(t) => task_with(self.tasks@, *id) == Some(*t),
                None => task_with(self.tasks@, *id) is None,
            },
    {
        match self.task_index(id) {
            Some(i) => Some(&self.tasks[i]),
            None => None,
        }
    }

    /// the area with an id
    pub fn area(&self, id: &ThingsId) -> (found: Option<&Area>)
        ensures
            match found {
                Some(a) => area_with(self.areas@, *id) == Some(*a),
                None => area_with(self.areas@, *id) is None,
            },
    {
        let mut k: usize = 0;
        while k < self.areas.len()
            invariant
                k <= self.areas@.len(),
                forall|m: int| 0 <= m < k ==> self.areas@[m].uuid@ != id@,
            decreases self.areas@.len() - k,
        {
            if self.areas[k].uuid == *id {
                proof {
                    lemma_area_with(self.areas@, *id, k as int);
                }
                return Some(&self.areas[k]);
            }
            k += 1;
        }
        proof {
            lemma_area_with(self.areas@, *id, k as int);
        }
        None
    }

    /// the tag with an id
    pub fn tag(&self, id: &ThingsId) -> (found: Option<&Tag>)
        ensures
            match found {
                Some(t) => tag_with(self.tags@, *id) == Some(*t),
                None => tag_with(self.tags@, *id) is None,
            },
    {
        let mut k: usize = 0;
        while k < self.tags.len()
            invariant
                k <= self.tags@.len(),
                forall|m: int| 0 <= m < k ==> self.tags@[m].uuid@ != id@,
            decreases self.tags@.len() - k,
        {
            if self.tags[k].uuid == *id {
                proof {
                    lemma_tag_with(self.tags@, *id, k as int);
                }
                return Some(&self.tags[k]);
            }
            k += 1;
        }
        proof {
            lemma_tag_with(self.tags@, *id, k as int);
        }
        None
    }

    pub fn effective_project_uuid(&self, task: &Task) -> (project: Option<ThingsId>)
        ensures
            project == effective_project(self.tasks@, *task),
    {
        if let Some(project) = task.project {
            return Some(project);
        }
        if let Some(action_group) = task.action_group {
            if let Some(heading) = self.task(&action_group) {
                if let Some(project) = heading.project {
                    return Some(project);
                }
            }
        }
        None
    }

    pub fn effective_area_uuid(&self, task: &Task) -> (area: Option<ThingsId>)
        ensures
            area == effective_area(self.tasks@, *task),
    {
        if let Some(area) = task.area {
            return Some(area);
        }
        if let Some(project_uuid) = self.effective_project_uuid(task) {
            if let Some(project) = self.task(&project_uuid) {
                if let Some(area) = project.area {
                    return Some(area);
                }
            }
        }
        if let Some(action_group) = task.action_group {
            if let Some(heading) = self.task(&action_group) {
                if let Some(area) = heading.area {
                    return Some(area);
                }
            }
        }
        None
    }

    /// the task an id names is in the Trash
    fn trashed_at(&self, id: Option<ThingsId>) -> (trashed: bool)
        ensures
            trashed == trashed_at(self.tasks@, id),
    {
        match id {
            Some(id) => match self.task(&id) {
                Some(container) => container.trashed,
                None => false,
            },
            None => false,
        }
    }

    /// the task an id names is no longer open
    fn closed_at(&self, id: Option<ThingsId>) -> (closed: bool)
        ensures
            closed == closed_at(self.tasks@, id),
    {
        match id {
            Some(id) => match self.task(&id) {
                Some(container) => container.status != TaskStatus::Incomplete,
                None => false,
            },
            None => false,
        }
    }

    /// under a trashed heading or in a trashed project
    ///
    /// that puts a to-do in the Trash along with them
    pub fn in_trashed_container(&self, task: &Task) -> (held: bool)
        ensures
            held == in_trashed_container_spec(self.tasks@, *task),
    {
        self.trashed_at(task.action_group) || self.trashed_at(self.effective_project_uuid(task))
    }

    /// in the Trash itself or through a trashed project or heading
    pub fn in_trash(&self, task: &Task) -> (trashed: bool)
        ensures
            trashed == in_trash_spec(self.tasks@, *task),
    {
        task.trashed || self.in_trashed_container(task)
    }

    /// in a trashed container or a project or heading that is no longer open
    ///
    /// that keeps a to-do out of the lists and a template out of the repeat pass
    pub fn in_closed_container(&self, task: &Task) -> (closed: bool)
        ensures
            closed == in_closed_container_spec(self.tasks@, *task),
    {
        self.in_trashed_container(task) || self.closed_at(task.action_group) || self.closed_at(
            self.effective_project_uuid(task),
        )
    }

    /// in the Inbox list as the Inbox view reads it
    ///
    /// a marked object without a create shows here as elsewhere
    /// a capture that is done, canceled or in the Trash is out of it
    pub fn in_inbox(&self, task: &Task) -> (inbox: bool)
        ensures
            inbox == in_inbox_spec(self.tasks@, *task),
    {
        task.status == TaskStatus::Incomplete && task.start == TaskStart::Inbox && !self.in_trash(
            task,
        ) && self.effective_project_uuid(task).is_none() && self.effective_area_uuid(
            task,
        ).is_none() && !task.is_project() && !task.is_heading() && !task.is_blank()
    }

    /// in the Today list as the Today view reads it
    ///
    /// a to-do that is blank, done or canceled, in the Trash or in a closed project or heading is out of it
    pub fn in_today(&self, task: &Task, today: &Instant) -> (listed: bool)
        ensures
            listed == in_today_spec(self.tasks@, *task, *today),
    {
        task.status == TaskStatus::Incomplete && task.is_today(today) && !task.is_blank()
            && !task.trashed && !self.in_closed_container(task)
    }

    /// the writes can upgrade the task's entity to `Task7`
    pub fn can_upgrade_to_task7(&self, task: &Task) -> (upgrades: bool)
        ensures
            upgrades == holds_id(self.upgradable_ids@, task.uuid),
    {
        holds_id_exec(&self.upgradable_ids, &task.uuid)
    }
}

/// two numbers written one above a base of the other compare as the pair of them
pub proof fn lemma_stacked_order(hi1: int, lo1: int, hi2: int, lo2: int, base: int)
    requires
        base > 0,
        0 <= lo1 < base,
        0 <= lo2 < base,
    ensures
        (hi1 * base + lo1 < hi2 * base + lo2) == (hi1 < hi2 || (hi1 == hi2 && lo1 < lo2)),
        (hi1 * base + lo1 == hi2 * base + lo2) == (hi1 == hi2 && lo1 == lo2),
{
    if hi1 < hi2 {
        vstd::arithmetic::mul::lemma_mul_inequality(hi1 + 1, hi2, base);
        vstd::arithmetic::mul::lemma_mul_is_distributive_add_other_way(base, hi1, 1);
    } else if hi2 < hi1 {
        vstd::arithmetic::mul::lemma_mul_inequality(hi2 + 1, hi1, base);
        vstd::arithmetic::mul::lemma_mul_is_distributive_add_other_way(base, hi2, 1);
    }
}

/// 2 to the 128th, the room an id takes below an index
pub open spec fn id_room() -> int {
    0x1_0000_0000_0000_0000_0000_0000_0000_0000int
}

/// the order of the lists: by index, then by id
pub open spec fn position_key(index: i32, id: ThingsId) -> int {
    index * id_room() + id_value(id)
}

/// the order of a task in the lists
pub open spec fn task_position(task: Task) -> int {
    position_key(task.index, task.uuid)
}

/// the order of an area in its list
pub open spec fn area_position(area: Area) -> int {
    position_key(area.index, area.uuid)
}

/// the order of a tag in its list
pub open spec fn tag_position(tag: Tag) -> int {
    position_key(tag.index, tag.uuid)
}

/// items of one index come in the order of their ids, and distinct ids take distinct places
pub proof fn lemma_position_key(i1: i32, a: ThingsId, i2: i32, b: ThingsId)
    ensures
        (position_key(i1, a) < position_key(i2, b)) == (i1 < i2 || (i1 == i2 && id_value(a)
            < id_value(b))),
        a@ != b@ ==> position_key(i1, a) != position_key(i2, b),
{
    lemma_id_value_bound(a);
    lemma_id_value_bound(b);
    lemma_stacked_order(i1 as int, id_value(a), i2 as int, id_value(b), id_room());
    if a@ != b@ {
        lemma_id_value_injective(a, b);
    }
}

/// the lower index comes first, then the lower id
fn position_before(i1: i32, a: &ThingsId, i2: i32, b: &ThingsId) -> (before: bool)
    ensures
        before == (position_key(i1, *a) < position_key(i2, *b)),
{
    proof {
        lemma_position_key(i1, *a, i2, *b);
    }
    i1 < i2 || (i1 == i2 && a.sorts_before(b))
}

/// the task comes first in the lists
pub(crate) fn task_before(a: &Task, b: &Task) -> (before: bool)
    ensures
        before == (task_position(*a) < task_position(*b)),
{
    position_before(a.index, &a.uuid, b.index, &b.uuid)
}

/// the area comes first in its list
fn area_before(a: &Area, b: &Area) -> (before: bool)
    ensures
        before == (area_position(*a) < area_position(*b)),
{
    position_before(a.index, &a.uuid, b.index, &b.uuid)
}

/// the tag comes first in its list
fn tag_before(a: &Tag, b: &Tag) -> (before: bool)
    ensures
        before == (tag_position(*a) < tag_position(*b)),
{
    position_before(a.index, &a.uuid, b.index, &b.uuid)
}

/// the items a list holds, through the references it holds them by
pub open spec fn held<T>(list: Seq<&T>) -> Seq<T> {
    list.map_values(|item: &T| *item)
}

/// `list` holds exactly the items `keep` takes, each once, in the order of `key`
pub open spec fn lists_in_order<T>(
    list: Seq<T>,
    items: Seq<T>,
    keep: spec_fn(T) -> bool,
    key: spec_fn(T) -> int,
) -> bool {
    &&& forall|i: int| 0 <= i < list.len() ==> #[trigger] keep(list[i]) && items.contains(list[i])
    &&& forall|j: int| 0 <= j < items.len() && #[trigger] keep(items[j]) ==> list.contains(items[j])
    &&& forall|p: int, q: int| 0 <= p < q < list.len() ==> key(#[trigger] list[p]) < key(#[trigger] list[q])
}

/// the positions `0..n` that `keep` takes, in order
pub(crate) fn pick<F: Fn(usize) -> bool>(n: usize, keep: F, Ghost(wanted): Ghost<spec_fn(int) -> bool>) -> (picked:
    Vec<usize>)
    requires
        forall|j: usize| j < n ==> #[trigger] keep.requires((j,)),
        forall|j: usize, r: bool| j < n && #[trigger] keep.ensures((j,), r) ==> r == wanted(j as int),
    ensures
        picked@.len() <= n,
        forall|m: int| 0 <= m < picked@.len() ==> #[trigger] picked@[m] < n && wanted(picked@[m] as int),
        forall|m: int, k: int| 0 <= m < k < picked@.len() ==> #[trigger] picked@[m] < #[trigger] picked@[k],
        forall|j: usize| j < n && wanted(j as int) ==> #[trigger] picked@.contains(j),
{
    let mut picked: Vec<usize> = Vec::new();
    let mut j: usize = 0;
    while j < n
        invariant
            j <= n,
            picked@.len() <= j,
            forall|j: usize| j < n ==> #[trigger] keep.requires((j,)),
            forall|j: usize, r: bool| j < n && #[trigger] keep.ensures((j,), r) ==> r == wanted(j as int),
            forall|m: int| 0 <= m < picked@.len() ==> #[trigger] picked@[m] < j && wanted(picked@[m] as int),
            forall|m: int, k: int| 0 <= m < k < picked@.len() ==> #[trigger] picked@[m] < #[trigger] picked@[k],
            forall|i: usize| i < j && wanted(i as int) ==> #[trigger] picked@.contains(i),
        decreases n - j,
    {
        let ghost before = picked@;
        if keep(j) {
            picked.push(j);
            proof {
                assert forall|i: usize| i < j + 1 && wanted(i as int) implies #[trigger] picked@.contains(i) by {
                    if i < j {
                        assert(before.contains(i));
                        let w = choose|w: int| 0 <= w < before.len() && before[w] == i;
                        assert(picked@[w] == i);
                    } else {
                        assert(picked@[picked@.len() - 1] == i);
                    }
                }
            }
        }
        j += 1;
    }
    picked
}

/// the items at the picked positions, which `keep` takes, in the order of `key`, which tells them apart
pub(crate) fn listed<'a, T, B: Fn(&T, &T) -> bool>(
    items: &'a Vec<T>,
    picked: &Vec<usize>,
    before: B,
    Ghost(keep): Ghost<spec_fn(T) -> bool>,
    Ghost(key): Ghost<spec_fn(T) -> int>,
) -> (list: Vec<&'a T>)
    requires
        forall|a: &T, b: &T| #[trigger] before.requires((a, b)),
        forall|a: &T, b: &T, r: bool| #[trigger] before.ensures((a, b), r) ==> r == (key(*a) < key(*b)),
        forall|m: int| 0 <= m < picked@.len() ==> #[trigger] picked@[m] < items@.len() && keep(items@[picked@[m] as int]),
        forall|m: int, k: int|
            0 <= m < k < picked@.len() ==> key(items@[#[trigger] picked@[m] as int]) != key(
                items@[#[trigger] picked@[k] as int],
            ),
    ensures
        list@.len() == picked@.len(),
        forall|i: int| 0 <= i < list@.len() ==> keep(#[trigger] held(list@)[i]) && items@.contains(held(list@)[i]),
        forall|m: int|
            0 <= m < picked@.len() ==> #[trigger] held(list@).contains(items@[picked@[m] as int]),
        forall|p: int, q: int| 0 <= p < q < list@.len() ==> key(#[trigger] held(list@)[p]) < key(#[trigger] held(list@)[q]),
{
    let n = picked.len();
    let compare = |a: usize, b: usize| -> (r: bool)
        requires
            a < n,
            b < n,
        ensures
            r == (key(items@[picked@[a as int] as int]) < key(items@[picked@[b as int] as int])),
        { before(&items[picked[a]], &items[picked[b]]) };
    let sorted = order_by(n, compare, Ghost(|a: int| key(items@[picked@[a] as int])));
    let mut list: Vec<&'a T> = Vec::new();
    let mut p: usize = 0;
    while p < n
        invariant
            p <= n,
            n == picked@.len(),
            sorted@.len() == n,
            forall|m: int| 0 <= m < picked@.len() ==> #[trigger] picked@[m] < items@.len(),
            forall|q: int| 0 <= q < n ==> #[trigger] sorted@[q] < n,
            list@.len() == p,
            forall|i: int| 0 <= i < p ==> *#[trigger] list@[i] == items@[picked@[sorted@[i] as int] as int],
        decreases n - p,
    {
        list.push(&items[picked[sorted[p]]]);
        p += 1;
    }
    proof {
        assert forall|i: int| 0 <= i < list@.len() implies keep(#[trigger] held(list@)[i]) && items@.contains(held(list@)[i]) by {
            let m = sorted@[i] as int;
            assert(held(list@)[i] == items@[picked@[m] as int]);
            assert(keep(items@[picked@[m] as int]));
        }
        assert forall|m: int| 0 <= m < picked@.len() implies #[trigger] held(list@).contains(
            items@[picked@[m] as int],
        ) by {
            assert(sorted@.contains(m as usize));
            let i = choose|i: int| 0 <= i < sorted@.len() && sorted@[i] == m as usize;
            assert(held(list@)[i] == items@[picked@[m] as int]);
        }
        assert forall|p: int, q: int| 0 <= p < q < list@.len() implies key(#[trigger] held(list@)[p]) < key(#[trigger] held(list@)[q]) by {
            assert(held(list@)[p] == items@[picked@[sorted@[p] as int] as int]);
            assert(held(list@)[q] == items@[picked@[sorted@[q] as int] as int]);
        }
    }
    list
}

/// distinct tasks take distinct places in the lists
pub(crate) proof fn lemma_distinct_task_positions(tasks: Seq<Task>, picked: Seq<usize>)
    requires
        unique_task_ids(tasks),
        forall|m: int| 0 <= m < picked.len() ==> #[trigger] picked[m] < tasks.len(),
        forall|m: int, k: int| 0 <= m < k < picked.len() ==> #[trigger] picked[m] < #[trigger] picked[k],
    ensures
        forall|m: int, k: int|
            0 <= m < k < picked.len() ==> task_position(tasks[#[trigger] picked[m] as int]) != task_position(
                tasks[#[trigger] picked[k] as int],
            ),
{
    assert forall|m: int, k: int| 0 <= m < k < picked.len() implies task_position(
        tasks[#[trigger] picked[m] as int],
    ) != task_position(tasks[#[trigger] picked[k] as int]) by {
        let a = tasks[picked[m] as int];
        let b = tasks[picked[k] as int];
        assert(a.uuid@ != b.uuid@);
        lemma_position_key(a.index, a.uuid, b.index, b.uuid);
    }
}

/// the list holds every item the positions it was made from name
pub(crate) proof fn lemma_listed_in_order<T>(
    list: Seq<T>,
    items: Seq<T>,
    picked: Seq<usize>,
    keep: spec_fn(T) -> bool,
    key: spec_fn(T) -> int,
)
    requires
        items.len() <= usize::MAX,
        forall|m: int| 0 <= m < picked.len() ==> #[trigger] list.contains(items[picked[m] as int]),
        forall|j: usize| j < items.len() && keep(items[j as int]) ==> #[trigger] picked.contains(j),
        forall|i: int| 0 <= i < list.len() ==> keep(#[trigger] list[i]) && items.contains(list[i]),
        forall|p: int, q: int| 0 <= p < q < list.len() ==> key(#[trigger] list[p]) < key(#[trigger] list[q]),
    ensures
        lists_in_order(list, items, keep, key),
{
    assert forall|j: int| 0 <= j < items.len() && #[trigger] keep(items[j]) implies list.contains(
        items[j],
    ) by {
        let ju = j as usize;
        assert(ju as int == j);
        assert(keep(items[ju as int]));
        assert(picked.contains(ju));
        let m = choose|m: int| 0 <= m < picked.len() && picked[m] == ju;
        assert(list.contains(items[picked[m] as int]));
    }
}

/// among the to-dos and projects outside the Trash of `status`, or of every status
pub open spec fn in_tasks_list(tasks: Seq<Task>, task: Task, status: Option<TaskStatus>) -> bool {
    &&& !in_trash_spec(tasks, task)
    &&& task.item_type != TaskType::Heading
    &&& match status {
        Some(status) => task.status == status,
        None => true,
    }
}

impl ThingsStore {
    /// the to-dos and projects outside the Trash of `status`, or of every status
    pub fn tasks(&self, status: Option<TaskStatus>) -> (list: Vec<&Task>)
        requires
            self.well_formed(),
        ensures
            lists_in_order(
                held(list@),
                self.tasks@,
                |t: Task| in_tasks_list(self.tasks@, t, status),
                |t: Task| task_position(t),
            ),
    {
        let ghost keep = |t: Task| in_tasks_list(self.tasks@, t, status);
        let keeps = |j: usize| -> (r: bool)
            requires
                j < self.tasks@.len(),
            ensures
                r == in_tasks_list(self.tasks@, self.tasks@[j as int], status),
            {
                let task = &self.tasks[j];
                !self.in_trash(task) && !task.is_heading() && match status {
                    Some(status) => task.status == status,
                    None => true,
                }
            };
        let picked = pick(self.tasks.len(), keeps, Ghost(|j: int| keep(self.tasks@[j])));
        proof {
            lemma_distinct_task_positions(self.tasks@, picked@);
        }
        let list = listed(&self.tasks, &picked, task_before, Ghost(keep), Ghost(|t: Task| task_position(t)));
        proof {
            lemma_listed_in_order(held(list@), self.tasks@, picked@, keep, |t: Task| task_position(t));
        }
        list
    }
}

/// distinct areas take distinct places in their list
proof fn lemma_distinct_area_positions(items: Seq<Area>, picked: Seq<usize>)
    requires
        unique_area_ids(items),
        forall|m: int| 0 <= m < picked.len() ==> #[trigger] picked[m] < items.len(),
        forall|m: int, k: int| 0 <= m < k < picked.len() ==> #[trigger] picked[m] < #[trigger] picked[k],
    ensures
        forall|m: int, k: int|
            0 <= m < k < picked.len() ==> area_position(items[#[trigger] picked[m] as int]) != area_position(
                items[#[trigger] picked[k] as int],
            ),
{
    assert forall|m: int, k: int| 0 <= m < k < picked.len() implies area_position(
        items[#[trigger] picked[m] as int],
    ) != area_position(items[#[trigger] picked[k] as int]) by {
        let a = items[picked[m] as int];
        let b = items[picked[k] as int];
        assert(a.uuid@ != b.uuid@);
        lemma_position_key(a.index, a.uuid, b.index, b.uuid);
    }
}

/// distinct tags take distinct places in their list
proof fn lemma_distinct_tag_positions(items: Seq<Tag>, picked: Seq<usize>)
    requires
        unique_tag_ids(items),
        forall|m: int| 0 <= m < picked.len() ==> #[trigger] picked[m] < items.len(),
        forall|m: int, k: int| 0 <= m < k < picked.len() ==> #[trigger] picked[m] < #[trigger] picked[k],
    ensures
        forall|m: int, k: int|
            0 <= m < k < picked.len() ==> tag_position(items[#[trigger] picked[m] as int]) != tag_position(
                items[#[trigger] picked[k] as int],
            ),
{
    assert forall|m: int, k: int| 0 <= m < k < picked.len() implies tag_position(
        items[#[trigger] picked[m] as int],
    ) != tag_position(items[#[trigger] picked[k] as int]) by {
        let a = items[picked[m] as int];
        let b = items[picked[k] as int];
        assert(a.uuid@ != b.uuid@);
        lemma_position_key(a.index, a.uuid, b.index, b.uuid);
    }
}

/// in the Someday list: open someday items without a day, projects and loose to-dos
pub open spec fn in_someday_list(tasks: Seq<Task>, task: Task) -> bool {
    &&& !in_trash_spec(tasks, task)
    &&& task.status == TaskStatus::Incomplete
    &&& task.start == TaskStart::Someday
    &&& task.item_type != TaskType::Heading
    &&& !blank_task(task)
    &&& !is_template_spec(task)
    &&& task.start_date is None
    &&& (is_project_spec(task) || effective_project(tasks, task) is None)
}

/// among the projects outside the Trash of `status`, or of every status, templates left out
pub open spec fn in_projects_list(task: Task, status: Option<TaskStatus>) -> bool {
    &&& !task.trashed
    &&& is_project_spec(task)
    &&& !is_template_spec(task)
    &&& match status {
        Some(status) => task.status == status,
        None => true,
    }
}

/// the project of a to-do lets it show in Anytime: it is open, not for someday, and started
pub open spec fn project_visible(tasks: Seq<Task>, task: Task, today: Instant) -> bool {
    &&& !in_closed_container_spec(tasks, task)
    &&& match effective_project(tasks, task) {
        None => true,
        Some(project) => match task_with(tasks, project) {
            None => true,
            Some(project) => project.start != TaskStart::Someday && match project.start_date {
                Some(start) => instant_key(start) <= instant_key(today),
                None => true,
            },
        },
    }
}

/// in the Anytime list: open, started to-dos outside the Trash in a visible project or none
pub open spec fn in_anytime_list(tasks: Seq<Task>, task: Task, today: Instant) -> bool {
    &&& !task.trashed
    &&& task.status == TaskStatus::Incomplete
    &&& task.start == TaskStart::Anytime
    &&& !is_project_spec(task)
    &&& task.item_type != TaskType::Heading
    &&& !blank_task(task)
    &&& match task.start_date {
        Some(start) => instant_key(start) <= instant_key(today),
        None => true,
    }
    &&& project_visible(tasks, task, today)
}

impl ThingsStore {
    /// the project of a to-do lets it show in Anytime
    fn project_visible(&self, task: &Task, today: &Instant) -> (visible: bool)
        ensures
            visible == project_visible(self.tasks@, *task, *today),
    {
        if self.in_closed_container(task) {
            return false;
        }
        let project_uuid = match self.effective_project_uuid(task) {
            Some(id) => id,
            None => {
                return true;
            },
        };
        let project = match self.task(&project_uuid) {
            Some(project) => project,
            None => {
                return true;
            },
        };
        if project.start == TaskStart::Someday {
            return false;
        }
        match project.start_date {
            Some(start_date) => instant_le(start_date, *today),
            None => true,
        }
    }

    /// the Inbox, in the order of its indexes
    pub fn inbox(&self) -> (list: Vec<&Task>)
        requires
            self.well_formed(),
        ensures
            lists_in_order(held(list@), self.tasks@, |t: Task| in_inbox_spec(self.tasks@, t), |t: Task| task_position(t)),
    {
        let ghost keep = |t: Task| in_inbox_spec(self.tasks@, t);
        let keeps = |j: usize| -> (r: bool)
            requires
                j < self.tasks@.len(),
            ensures
                r == in_inbox_spec(self.tasks@, self.tasks@[j as int]),
            { self.in_inbox(&self.tasks[j]) };
        let picked = pick(self.tasks.len(), keeps, Ghost(|j: int| keep(self.tasks@[j])));
        proof {
            lemma_distinct_task_positions(self.tasks@, picked@);
        }
        let list = listed(&self.tasks, &picked, task_before, Ghost(keep), Ghost(|t: Task| task_position(t)));
        proof {
            lemma_listed_in_order(held(list@), self.tasks@, picked@, keep, |t: Task| task_position(t));
        }
        list
    }

    /// the open someday projects and loose to-dos without a day, in the order of their indexes
    pub fn someday(&self) -> (list: Vec<&Task>)
        requires
            self.well_formed(),
        ensures
            lists_in_order(held(list@), self.tasks@, |t: Task| in_someday_list(self.tasks@, t), |t: Task| task_position(t)),
    {
        let ghost keep = |t: Task| in_someday_list(self.tasks@, t);
        let keeps = |j: usize| -> (r: bool)
            requires
                j < self.tasks@.len(),
            ensures
                r == in_someday_list(self.tasks@, self.tasks@[j as int]),
            {
                    let t = &self.tasks[j];
                    !self.in_trash(t) && t.status == TaskStatus::Incomplete && t.start == TaskStart::Someday
                        && !t.is_heading() && !t.is_blank() && !t.is_recurrence_template()
                        && t.start_date.is_none() && (t.is_project() || self.effective_project_uuid(t).is_none())
                };
        let picked = pick(self.tasks.len(), keeps, Ghost(|j: int| keep(self.tasks@[j])));
        proof {
            lemma_distinct_task_positions(self.tasks@, picked@);
        }
        let list = listed(&self.tasks, &picked, task_before, Ghost(keep), Ghost(|t: Task| task_position(t)));
        proof {
            lemma_listed_in_order(held(list@), self.tasks@, picked@, keep, |t: Task| task_position(t));
        }
        list
    }

    /// the projects outside the Trash of `status`, or of every status
    pub fn projects(&self, status: Option<TaskStatus>) -> (list: Vec<&Task>)
        requires
            self.well_formed(),
        ensures
            lists_in_order(held(list@), self.tasks@, |t: Task| in_projects_list(t, status), |t: Task| task_position(t)),
    {
        let ghost keep = |t: Task| in_projects_list(t, status);
        let keeps = |j: usize| -> (r: bool)
            requires
                j < self.tasks@.len(),
            ensures
                r == in_projects_list(self.tasks@[j as int], status),
            {
                    let t = &self.tasks[j];
                    !t.trashed && t.is_project() && !t.is_recurrence_template() && match status {
                        Some(status) => t.status == status,
                        None => true,
                    }
                };
        let picked = pick(self.tasks.len(), keeps, Ghost(|j: int| keep(self.tasks@[j])));
        proof {
            lemma_distinct_task_positions(self.tasks@, picked@);
        }
        let list = listed(&self.tasks, &picked, task_before, Ghost(keep), Ghost(|t: Task| task_position(t)));
        proof {
            lemma_listed_in_order(held(list@), self.tasks@, picked@, keep, |t: Task| task_position(t));
        }
        list
    }

    /// the open, started to-dos of Anytime, in the order of their indexes
    pub fn anytime(&self, today: &Instant) -> (list: Vec<&Task>)
        requires
            self.well_formed(),
        ensures
            lists_in_order(held(list@), self.tasks@, |t: Task| in_anytime_list(self.tasks@, t, *today), |t: Task| task_position(t)),
    {
        let ghost keep = |t: Task| in_anytime_list(self.tasks@, t, *today);
        let keeps = |j: usize| -> (r: bool)
            requires
                j < self.tasks@.len(),
            ensures
                r == in_anytime_list(self.tasks@, self.tasks@[j as int], *today),
            {
                    let t = &self.tasks[j];
                    !t.trashed && t.status == TaskStatus::Incomplete && t.start == TaskStart::Anytime
                        && !t.is_project() && !t.is_heading() && !t.is_blank() && match t.start_date {
                        Some(start) => instant_le(start, *today),
                        None => true,
                    } && self.project_visible(t, today)
                };
        let picked = pick(self.tasks.len(), keeps, Ghost(|j: int| keep(self.tasks@[j])));
        proof {
            lemma_distinct_task_positions(self.tasks@, picked@);
        }
        let list = listed(&self.tasks, &picked, task_before, Ghost(keep), Ghost(|t: Task| task_position(t)));
        proof {
            lemma_listed_in_order(held(list@), self.tasks@, picked@, keep, |t: Task| task_position(t));
        }
        list
    }

    /// every area, in the order of their indexes
    pub fn areas(&self) -> (list: Vec<&Area>)
        requires
            self.well_formed(),
        ensures
            lists_in_order(held(list@), self.areas@, |t: Area| true, |t: Area| area_position(t)),
    {
        let ghost keep = |t: Area| true;
        let keeps = |j: usize| -> (r: bool)
            requires
                j < self.areas@.len(),
            ensures
                r == true,
            { true };
        let picked = pick(self.areas.len(), keeps, Ghost(|j: int| keep(self.areas@[j])));
        proof {
            lemma_distinct_area_positions(self.areas@, picked@);
        }
        let list = listed(&self.areas, &picked, area_before, Ghost(keep), Ghost(|t: Area| area_position(t)));
        proof {
            lemma_listed_in_order(held(list@), self.areas@, picked@, keep, |t: Area| area_position(t));
        }
        list
    }

    /// the tags with a title, in the order of their indexes
    pub fn tags(&self) -> (list: Vec<&Tag>)
        requires
            self.well_formed(),
        ensures
            lists_in_order(held(list@), self.tags@, |t: Tag| !blank(t.title@), |t: Tag| tag_position(t)),
    {
        let ghost keep = |t: Tag| !blank(t.title@);
        let keeps = |j: usize| -> (r: bool)
            requires
                j < self.tags@.len(),
            ensures
                r == !blank(self.tags@[j as int].title@),
            { !is_blank(self.tags[j].title.as_str()) };
        let picked = pick(self.tags.len(), keeps, Ghost(|j: int| keep(self.tags@[j])));
        proof {
            lemma_distinct_tag_positions(self.tags@, picked@);
        }
        let list = listed(&self.tags, &picked, tag_before, Ghost(keep), Ghost(|t: Tag| tag_position(t)));
        proof {
            lemma_listed_in_order(held(list@), self.tags@, picked@, keep, |t: Tag| tag_position(t));
        }
        list
    }
}

/// an id is among the ids of a list
pub open spec fn holds_id(ids: Seq<ThingsId>, id: ThingsId) -> bool {
    exists|k: int| 0 <= k < ids.len() && #[trigger] ids[k]@ == id@
}

/// a to-do, project or area carries the tag id
pub open spec fn carried(tasks: Seq<Task>, areas: Seq<Area>, id: ThingsId) -> bool {
    (exists|i: int| 0 <= i < tasks.len() && holds_id(#[trigger] tasks[i].tags@, id)) || (exists|i: int|
        0 <= i < areas.len() && holds_id(#[trigger] areas[i].tags@, id))
}

/// the parent of the tag with an id, None where no tag of the store has the id or the tag no parent
pub open spec fn parent_of(tags: Seq<Tag>, id: ThingsId) -> Option<ThingsId> {
    match tag_with(tags, id) {
        Some(tag) => tag.parent_uuid,
        None => None,
    }
}

/// the tag the chain of parents reached before `k`: the tag itself, then each parent
pub open spec fn chain_before(tag: ThingsId, chain: Seq<ThingsId>, k: int) -> ThingsId {
    if k == 0 {
        tag
    } else {
        chain[k - 1]
    }
}

/// a tag found by its id stands in the list with that id
proof fn lemma_tag_with_found(tags: Seq<Tag>, id: ThingsId)
    ensures
        tag_with(tags, id) matches Some(t) ==> exists|i: int| 0 <= i < tags.len() && (#[trigger] tags[i]).uuid@ == id@,
    decreases tags.len(),
{
    if tags.len() > 0 {
        if tags[0].uuid@ == id@ {
            assert(tags[0].uuid@ == id@);
        } else {
            lemma_tag_with_found(tags.drop_first(), id);
            assert(tag_with(tags, id) == tag_with(tags.drop_first(), id));
            if tag_with(tags.drop_first(), id) is Some {
                let i = choose|i: int| 0 <= i < tags.drop_first().len() && (#[trigger] tags.drop_first()[i]).uuid@ == id@;
                assert(tags[i + 1] == tags.drop_first()[i]);
            }
        }
    }
}

/// A chain of parents never runs longer than there are tags: every id it passes before its
/// last, and the tag it starts from, is a distinct tag of the list.
pub proof fn lemma_climb_bounded(tags: Seq<Tag>, tag: ThingsId, chain: Seq<ThingsId>)
    requires
        climbs(tags, tag, chain),
    ensures
        chain.len() <= tags.len(),
{
    let n = chain.len() as int;
    if n > 0 {
        let passed = seq![tag] + chain.take(n - 1);
        let views = passed.map_values(|id: ThingsId| id@);
        let known = tags.map_values(|t: Tag| t.uuid@);
        assert forall|k: int| 0 <= k < n implies known.contains(#[trigger] views[k]) by {
            assert(climb_step(tags, tag, chain, k));
            let id = chain_before(tag, chain, k);
            assert(passed[k] == id);
            lemma_tag_with_found(tags, id);
            let i = choose|i: int| 0 <= i < tags.len() && (#[trigger] tags[i]).uuid@ == id@;
            assert(known[i] == views[k]);
        }
        assert(views.no_duplicates()) by {
            assert forall|a: int, b: int| 0 <= a < views.len() && 0 <= b < views.len() && a != b implies views[a]
                != views[b] by {
                if a > 0 && b > 0 {
                    assert(passed[a] == chain[a - 1]);
                    assert(passed[b] == chain[b - 1]);
                    if a < b {
                        assert(chain[a - 1]@ != chain[b - 1]@);
                    } else {
                        assert(chain[b - 1]@ != chain[a - 1]@);
                    }
                } else if a == 0 {
                    assert(passed[b] == chain[b - 1]);
                    assert(chain[b - 1]@ != tag@);
                } else {
                    assert(passed[a] == chain[a - 1]);
                    assert(chain[a - 1]@ != tag@);
                }
            }
        }
        views.unique_seq_to_set();
        known.lemma_cardinality_of_set();
        assert(views.to_set().subset_of(known.to_set()));
        vstd::set_lib::lemma_len_subset(views.to_set(), known.to_set());
    }
}

/// the `k`th tag of the chain is the parent of the one before it
pub open spec fn climb_step(tags: Seq<Tag>, tag: ThingsId, chain: Seq<ThingsId>, k: int) -> bool {
    parent_of(tags, chain_before(tag, chain, k)) matches Some(p) && p@ == chain[k]@
}

/// `chain` climbs from `tag` one parent at a time, never returning to an id it passed
pub open spec fn climbs(tags: Seq<Tag>, tag: ThingsId, chain: Seq<ThingsId>) -> bool {
    &&& forall|k: int| 0 <= k < chain.len() ==> #[trigger] climb_step(tags, tag, chain, k)
    &&& forall|k: int| 0 <= k < chain.len() ==> (#[trigger] chain[k])@ != tag@
    &&& forall|j: int, k: int| 0 <= j < k < chain.len() ==> (#[trigger] chain[j])@ != (#[trigger] chain[k])@
}

/// the climb ends: the last tag has no parent, or its parent is one the climb passed
pub open spec fn climb_ends(tags: Seq<Tag>, tag: ThingsId, chain: Seq<ThingsId>) -> bool {
    match parent_of(tags, chain_before(tag, chain, chain.len() as int)) {
        None => true,
        Some(p) => p@ == tag@ || holds_id(chain, p),
    }
}

/// one more parent keeps the climb going
proof fn lemma_climb_step(tags: Seq<Tag>, tag: ThingsId, before: Seq<ThingsId>, parent: ThingsId)
    requires
        climbs(tags, tag, before),
        parent_of(tags, chain_before(tag, before, before.len() as int)) == Some(parent),
        parent@ != tag@,
        !holds_id(before, parent),
    ensures
        climbs(tags, tag, before.push(parent)),
        parent_of(tags, parent) is Some ==> before.len() + 1 <= tags.len(),
{
    let chain = before.push(parent);
    assert forall|k: int| 0 <= k < chain.len() implies #[trigger] climb_step(tags, tag, chain, k) by {
        if k < before.len() {
            assert(climb_step(tags, tag, before, k));
            assert(chain_before(tag, chain, k) == chain_before(tag, before, k));
            assert(chain[k] == before[k]);
        } else {
            assert(chain_before(tag, chain, k) == chain_before(tag, before, before.len() as int));
        }
    }
    assert forall|j: int, k: int| 0 <= j < k < chain.len() implies (#[trigger] chain[j])@ != (
    #[trigger] chain[k])@ by {
        assert(chain[j] == before[j]);
        if k == before.len() {
            if before[j]@ == parent@ {
                assert(holds_id(before, parent));
            }
        } else {
            assert(chain[k] == before[k]);
        }
    }
    if parent_of(tags, parent) is Some {
        lemma_climb_bound(tags, tag, chain);
    }
}

/// a climb whose last tag has a parent passed only tags of the store
proof fn lemma_climb_bound(tags: Seq<Tag>, tag: ThingsId, chain: Seq<ThingsId>)
    requires
        climbs(tags, tag, chain),
        chain.len() > 0,
        parent_of(tags, chain[chain.len() - 1]) is Some,
    ensures
        chain.len() <= tags.len(),
{
    assert forall|k: int| 0 <= k < chain.len() implies tag_with(tags, #[trigger] chain[k]) is Some by {
        if k + 1 < chain.len() {
            assert(climb_step(tags, tag, chain, k + 1));
            assert(chain_before(tag, chain, k + 1) == chain[k]);
        }
    }
    lemma_tags_bound(tags, chain);
}

/// a tag found by its id holds the id and stands at a position of the list
proof fn lemma_tag_with_index(tags: Seq<Tag>, id: ThingsId)
    ensures
        tag_with(tags, id) is Some ==> exists|i: int|
            0 <= i < tags.len() && (#[trigger] tags[i]).uuid@ == id@,
    decreases tags.len(),
{
    if tags.len() > 0 && tags[0].uuid@ != id@ {
        lemma_tag_with_index(tags.drop_first(), id);
        if tag_with(tags, id) is Some {
            let i = choose|i: int|
                0 <= i < tags.drop_first().len() && (#[trigger] tags.drop_first()[i]).uuid@ == id@;
            assert(tags[i + 1].uuid@ == id@);
        }
    } else if tags.len() > 0 {
        assert(tags[0].uuid@ == id@);
    }
}

/// distinct numbers below `m` are at most `m`
proof fn lemma_distinct_below(idx: Seq<int>, m: int)
    requires
        m >= 0,
        idx.no_duplicates(),
        forall|k: int| 0 <= k < idx.len() ==> 0 <= #[trigger] idx[k] < m,
    ensures
        idx.len() <= m,
{
    idx.unique_seq_to_set();
    vstd::set_lib::lemma_int_range(0, m);
    assert(idx.to_set().subset_of(vstd::set_lib::set_int_range(0, m)));
    vstd::set_lib::lemma_len_subset(idx.to_set(), vstd::set_lib::set_int_range(0, m));
}

/// distinct ids of tags of the store are at most as many as its tags
proof fn lemma_tags_bound(tags: Seq<Tag>, chain: Seq<ThingsId>)
    requires
        forall|k: int| 0 <= k < chain.len() ==> tag_with(tags, #[trigger] chain[k]) is Some,
        forall|j: int, k: int| 0 <= j < k < chain.len() ==> (#[trigger] chain[j])@ != (#[trigger] chain[k])@,
    ensures
        chain.len() <= tags.len(),
{
    let idx = Seq::new(
        chain.len(),
        |k: int| choose|i: int| 0 <= i < tags.len() && (#[trigger] tags[i]).uuid@ == chain[k]@,
    );
    assert forall|k: int| 0 <= k < idx.len() implies 0 <= #[trigger] idx[k] < tags.len() && tags[idx[k]].uuid@ == chain[k]@ by {
        lemma_tag_with_index(tags, chain[k]);
    }
    assert(idx.no_duplicates()) by {
        assert forall|a: int, b: int| 0 <= a < idx.len() && 0 <= b < idx.len() && a != b implies idx[a] != idx[b] by {
            if a < b {
                assert(chain[a]@ != chain[b]@);
            } else {
                assert(chain[b]@ != chain[a]@);
            }
        }
    }
    lemma_distinct_below(idx, tags.len() as int);
}

/// the id is in the list
fn holds_id_exec(ids: &Vec<ThingsId>, id: &ThingsId) -> (found: bool)
    ensures
        found == holds_id(ids@, *id),
{
    let mut k: usize = 0;
    while k < ids.len()
        invariant
            k <= ids@.len(),
            forall|m: int| 0 <= m < k ==> ids@[m]@ != id@,
        decreases ids@.len() - k,
    {
        if ids[k] == *id {
            assert(ids@[k as int]@ == id@);
            return true;
        }
        k += 1;
    }
    false
}

impl ThingsStore {
    /// a to-do, project or area still carries the tag id
    pub fn tag_is_carried(&self, id: &ThingsId) -> (is_carried: bool)
        ensures
            is_carried == carried(self.tasks@, self.areas@, *id),
    {
        let mut i: usize = 0;
        while i < self.tasks.len()
            invariant
                i <= self.tasks@.len(),
                forall|m: int| 0 <= m < i ==> !holds_id(#[trigger] self.tasks@[m].tags@, *id),
            decreases self.tasks@.len() - i,
        {
            if holds_id_exec(&self.tasks[i].tags, id) {
                return true;
            }
            i += 1;
        }
        let mut i: usize = 0;
        while i < self.areas.len()
            invariant
                i <= self.areas@.len(),
                forall|m: int| 0 <= m < i ==> !holds_id(#[trigger] self.areas@[m].tags@, *id),
            decreases self.areas@.len() - i,
        {
            if holds_id_exec(&self.areas[i].tags, id) {
                return true;
            }
            i += 1;
        }
        false
    }

    /// the parent of the tag with an id
    fn parent_of(&self, id: &ThingsId) -> (parent: Option<ThingsId>)
        ensures
            parent == parent_of(self.tags@, *id),
    {
        match self.tag(id) {
            Some(tag) => tag.parent_uuid,
            None => None,
        }
    }

    /// the parents above a tag, nearest first
    ///
    /// the list stops where the chain ends or turns back on itself
    pub fn tag_ancestors(&self, tag: &ThingsId) -> (chain: Vec<ThingsId>)
        ensures
            climbs(self.tags@, *tag, chain@),
            climb_ends(self.tags@, *tag, chain@),
            chain@.len() <= self.tags@.len(),
    {
        let mut chain: Vec<ThingsId> = Vec::new();
        let mut current = self.parent_of(tag);
        loop
            invariant
                climbs(self.tags@, *tag, chain@),
                current == parent_of(self.tags@, chain_before(*tag, chain@, chain@.len() as int)),
                chain@.len() <= self.tags@.len() + 1,
                current is Some ==> chain@.len() <= self.tags@.len(),
            ensures
                climbs(self.tags@, *tag, chain@),
                climb_ends(self.tags@, *tag, chain@),
            decreases self.tags@.len() + 1 - chain@.len(),
        {
            let parent = match current {
                Some(parent) => parent,
                None => {
                    break;
                },
            };
            if parent == *tag || holds_id_exec(&chain, &parent) {
                break;
            }
            let ghost before = chain@;
            current = self.parent_of(&parent);
            chain.push(parent);
            proof {
                lemma_climb_step(self.tags@, *tag, before, parent);
            }
        }
        proof {
            lemma_climb_bounded(self.tags@, *tag, chain@);
        }
        chain
    }
}

/// a task counts toward the progress of a project: an open or closed to-do of it that is no template, in the Trash only along with a trashed project
pub open spec fn counts_for(tasks: Seq<Task>, task: Task, project: ThingsId) -> bool {
    &&& task.item_type == TaskType::Todo
    &&& !is_template_spec(task)
    &&& effective_project(tasks, task) matches Some(p) && p@ == project@
    &&& !(in_trash_spec(tasks, task) && !trashed_at(tasks, effective_project(tasks, task)))
}

/// the tasks among the first `n` that count toward a project, the completed ones alone where `done` is set
pub open spec fn counted(tasks: Seq<Task>, n: int, project: ThingsId, done: bool) -> nat
    decreases n,
{
    if n <= 0 {
        0
    } else {
        counted(tasks, n - 1, project, done) + if counts_for(tasks, tasks[n - 1], project) && (!done
            || tasks[n - 1].status == TaskStatus::Completed) {
            1nat
        } else {
            0nat
        }
    }
}

/// the progress entries hold, for each project with a to-do that counts, how many count and how many of those are done
pub open spec fn progress_of(tasks: Seq<Task>, n: int, entries: Seq<(ThingsId, ProjectProgress)>) -> bool {
    &&& forall|k: int|
        0 <= k < entries.len() ==> (#[trigger] entries[k]).1.total == counted(tasks, n, entries[k].0, false)
            && entries[k].1.done == counted(tasks, n, entries[k].0, true) && entries[k].1.total > 0
    &&& forall|j: int, k: int| 0 <= j < k < entries.len() ==> (#[trigger] entries[j]).0@ != (#[trigger] entries[k]).0@
    &&& forall|project: ThingsId|
        #[trigger] counted(tasks, n, project, false) > 0 ==> exists|k: int|
            0 <= k < entries.len() && (#[trigger] entries[k]).0@ == project@
}

/// a count goes up by at most one a task, and the done ones never outnumber the rest
proof fn lemma_counted_bounds(tasks: Seq<Task>, n: int, project: ThingsId)
    requires
        0 <= n,
    ensures
        counted(tasks, n, project, false) <= n,
        counted(tasks, n, project, true) <= counted(tasks, n, project, false),
    decreases n,
{
    if n > 0 {
        lemma_counted_bounds(tasks, n - 1, project);
    }
}

/// ids with the same bytes count the same tasks
proof fn lemma_counted_by_bytes(tasks: Seq<Task>, n: int, a: ThingsId, b: ThingsId, done: bool)
    requires
        a@ == b@,
    ensures
        counted(tasks, n, a, done) == counted(tasks, n, b, done),
    decreases n,
{
    if n > 0 {
        lemma_counted_by_bytes(tasks, n - 1, a, b, done);
    }
}

impl ThingsStore {
    /// the position of the progress entry of a project
    fn entry_of(entries: &Vec<(ThingsId, ProjectProgress)>, project: &ThingsId) -> (found: Option<usize>)
        ensures
            match found {
                Some(k) => k < entries@.len() && entries@[k as int].0@ == project@,
                None => forall|k: int| 0 <= k < entries@.len() ==> (#[trigger] entries@[k]).0@ != project@,
            },
    {
        let mut k: usize = 0;
        while k < entries.len()
            invariant
                k <= entries@.len(),
                forall|m: int| 0 <= m < k ==> (#[trigger] entries@[m]).0@ != project@,
            decreases entries@.len() - k,
        {
            if entries[k].0 == *project {
                return Some(k);
            }
            k += 1;
        }
        None
    }

    /// the to-dos of each project and how many of them are done
    ///
    /// a template stands for instances still to come, it is no to-do of the project yet
    /// a to-do in the Trash counts for a project in the Trash alone
    #[verifier::rlimit(40)]
    pub fn project_progress_index(&self) -> (entries: Vec<(ThingsId, ProjectProgress)>)
        requires
            self.tasks@.len() <= i32::MAX,
        ensures
            progress_of(self.tasks@, self.tasks@.len() as int, entries@),
    {
        let mut entries: Vec<(ThingsId, ProjectProgress)> = Vec::new();
        let mut i: usize = 0;
        while i < self.tasks.len()
            invariant
                i <= self.tasks@.len(),
                self.tasks@.len() <= i32::MAX,
                progress_of(self.tasks@, i as int, entries@),
            decreases self.tasks@.len() - i,
        {
            let task = &self.tasks[i];
            let ghost before = entries@;
            proof {
                assert forall|project: ThingsId| #[trigger] counted(self.tasks@, i + 1, project, false)
                    == counted(self.tasks@, i as int, project, false) + if counts_for(self.tasks@, self.tasks@[i as int], project) { 1nat } else { 0nat } by {}
            }
            if task.is_todo() && !task.is_recurrence_template() {
                if let Some(project_uuid) = self.effective_project_uuid(task) {
                    let project_trashed = match self.task(&project_uuid) {
                        Some(project) => project.trashed,
                        None => false,
                    };
                    if !(self.in_trash(task) && !project_trashed) {
                        let done = task.is_completed();
                        proof {
                            lemma_counted_bounds(self.tasks@, i as int, project_uuid);
                        }
                        match Self::entry_of(&entries, &project_uuid) {
                            Some(k) => {
                                let (id, progress) = entries[k];
                                proof {
                                    lemma_counted_by_bytes(self.tasks@, i as int, id, project_uuid, false);
                                    lemma_counted_by_bytes(self.tasks@, i as int, id, project_uuid, true);
                                }
                                let updated = ProjectProgress {
                                    total: progress.total + 1,
                                    done: if done { progress.done + 1 } else { progress.done },
                                };
                                entries.set(k, (id, updated));
                                proof {
                                    lemma_counted_by_bytes(self.tasks@, i as int, id, project_uuid, false);
                                    lemma_counted_by_bytes(self.tasks@, i as int, id, project_uuid, true);
                                    lemma_counted_by_bytes(self.tasks@, i + 1, id, project_uuid, false);
                                    lemma_counted_by_bytes(self.tasks@, i + 1, id, project_uuid, true);
                                    assert forall|m: int| 0 <= m < entries@.len() && m != k implies (#[trigger] entries@[m]).0@ != project_uuid@ by {
                                        if m < k {
                                            assert(before[m].0@ != before[k as int].0@);
                                        } else {
                                            assert(before[k as int].0@ != before[m].0@);
                                        }
                                    }
                                    assert forall|project: ThingsId| #[trigger] counted(self.tasks@, i + 1, project, false) > 0 implies exists|m: int|
                                        0 <= m < entries@.len() && (#[trigger] entries@[m]).0@ == project@ by {
                                        if project@ == project_uuid@ {
                                            assert(entries@[k as int].0@ == project@);
                                        } else {
                                            assert(counted(self.tasks@, i as int, project, false) > 0);
                                            let m = choose|m: int| 0 <= m < before.len() && (#[trigger] before[m]).0@ == project@;
                                            assert(entries@[m].0@ == before[m].0@);
                                        }
                                    }
                                }
                            },
                            None => {
                                entries.push((project_uuid, ProjectProgress { total: 1, done: if done { 1 } else { 0 } }));
                                proof {
                                    lemma_counted_by_bytes(self.tasks@, i + 1, entries@[entries@.len() - 1].0, project_uuid, false);
                                    assert(counted(self.tasks@, i as int, project_uuid, false) == 0) by {
                                        if counted(self.tasks@, i as int, project_uuid, false) > 0 {
                                            let m = choose|m: int| 0 <= m < before.len() && (#[trigger] before[m]).0@ == project_uuid@;
                                        }
                                    }
                                    lemma_counted_bounds(self.tasks@, i as int, project_uuid);
                                    assert forall|project: ThingsId| #[trigger] counted(self.tasks@, i + 1, project, false) > 0 implies exists|m: int|
                                        0 <= m < entries@.len() && (#[trigger] entries@[m]).0@ == project@ by {
                                        if project@ == project_uuid@ {
                                            assert(entries@[entries@.len() - 1].0@ == project@);
                                        } else {
                                            assert(counted(self.tasks@, i as int, project, false) > 0);
                                            let m = choose|m: int| 0 <= m < before.len() && (#[trigger] before[m]).0@ == project@;
                                            assert(entries@[m] == before[m]);
                                        }
                                    }
                                }
                            },
                        }
                        i += 1;
                        continue;
                    }
                }
            }
            proof {
                assert forall|project: ThingsId| !counts_for(self.tasks@, self.tasks@[i as int], project) by {}
            }
            i += 1;
        }
        entries
    }
}

/// the value an entry of an index holds for the id with these bytes
pub open spec fn entry_with<X>(entries: Seq<(ThingsId, X)>, bytes: Seq<u8>) -> Option<X>
    decreases entries.len(),
{
    if entries.len() == 0 {
        None
    } else if entries[0].0@ == bytes {
        Some(entries[0].1)
    } else {
        entry_with(entries.drop_first(), bytes)
    }
}

/// the value an entry of an index holds for the id a text names
pub open spec fn entry_named<X>(entries: Seq<(ThingsId, X)>, text: Seq<u8>) -> Option<X> {
    match parse_spec(text) {
        Some(bytes) => entry_with(entries, bytes),
        None => None,
    }
}

/// the first entry of an index with an id is at the first position holding it
proof fn lemma_entry_with<X>(entries: Seq<(ThingsId, X)>, bytes: Seq<u8>, k: int)
    requires
        0 <= k <= entries.len(),
        forall|m: int| 0 <= m < k ==> entries[m].0@ != bytes,
    ensures
        entry_with(entries, bytes) == entry_with(entries.skip(k), bytes),
    decreases k,
{
    if k > 0 {
        lemma_entry_with(entries, bytes, k - 1);
        assert(entries.skip(k - 1).drop_first() =~= entries.skip(k));
        assert(entries.skip(k - 1)[0] == entries[k - 1]);
    } else {
        assert(entries.skip(0) =~= entries);
    }
}

/// the position of the entry of an index for an id
fn entry_index<X>(entries: &Vec<(ThingsId, X)>, id: &ThingsId) -> (found: Option<usize>)
    ensures
        match found {
            Some(k) => k < entries@.len() && entry_with(entries@, id@) == Some(entries@[k as int].1),
            None => entry_with(entries@, id@) is None,
        },
{
    let mut k: usize = 0;
    while k < entries.len()
        invariant
            k <= entries@.len(),
            forall|m: int| 0 <= m < k ==> entries@[m].0@ != id@,
        decreases entries@.len() - k,
    {
        if entries[k].0 == *id {
            proof {
                lemma_entry_with(entries@, id@, k as int);
                assert(entries@.skip(k as int)[0] == entries@[k as int]);
            }
            return Some(k);
        }
        k += 1;
    }
    proof {
        lemma_entry_with(entries@, id@, k as int);
    }
    None
}

/// the title a project id is shown by: the project's own, or the id's first eight characters
pub open spec fn project_title_spec(tasks: Seq<Task>, raw: &str) -> Seq<char> {
    match task_named(tasks, raw.spec_bytes()) {
        Some(task) if !blank(task.title@) => task.title@,
        _ => if raw@.len() == 0 {
            "(project)"@
        } else {
            "(project "@ + raw@.take(if raw@.len() < 8 { raw@.len() as int } else { 8 }) + ")"@
        },
    }
}

impl ThingsStore {
    /// the task a text names by its id
    pub fn get_task(&self, uuid: &str) -> (found: Option<&Task>)
        ensures
            match found {
                Some(t) => task_named(self.tasks@, uuid.spec_bytes()) == Some(*t),
                None => task_named(self.tasks@, uuid.spec_bytes()) is None,
            },
    {
        match ThingsId::parse(uuid) {
            Ok(id) => self.task(&id),
            Err(_) => None,
        }
    }

    /// the area a text names by its id
    pub fn get_area(&self, uuid: &str) -> (found: Option<&Area>)
        ensures
            match found {
                Some(a) => area_named(self.areas@, uuid.spec_bytes()) == Some(*a),
                None => area_named(self.areas@, uuid.spec_bytes()) is None,
            },
    {
        match ThingsId::parse(uuid) {
            Ok(id) => self.area(&id),
            Err(_) => None,
        }
    }

    /// the title of the tag an id names, or the id itself where no tag with a title has it
    pub fn resolve_tag_title(&self, uuid: &str) -> (title: String)
        ensures
            title@ == match tag_named(self.tags@, uuid.spec_bytes()) {
                Some(tag) if !blank(tag.title@) => tag.title@,
                _ => uuid@,
            },
    {
        if let Ok(id) = ThingsId::parse(uuid) {
            if let Some(tag) = self.tag(&id) {
                if !is_blank(tag.title.as_str()) {
                    return tag.title.clone();
                }
            }
        }
        String::from_str(uuid)
    }

    /// the title of the area an id names, or the id itself where no area has it
    pub fn resolve_area_title(&self, uuid: &str) -> (title: String)
        ensures
            title@ == match area_named(self.areas@, uuid.spec_bytes()) {
                Some(area) => area.title@,
                None => uuid@,
            },
    {
        if let Ok(id) = ThingsId::parse(uuid) {
            if let Some(area) = self.area(&id) {
                return area.title.clone();
            }
        }
        String::from_str(uuid)
    }

    /// the title of the project an id names, or the id's first eight characters in its place
    pub fn resolve_project_title(&self, uuid: &str) -> (title: String)
        ensures
            title@ == project_title_spec(self.tasks@, uuid),
    {
        if let Ok(id) = ThingsId::parse(uuid) {
            if let Some(task) = self.task(&id) {
                if !is_blank(task.title.as_str()) {
                    return task.title.clone();
                }
            }
        }
        let chars = chars_of(uuid);
        if chars.len() == 0 {
            return String::from_str("(project)");
        }
        let n = if chars.len() < 8 { chars.len() } else { 8 };
        let mut short: Vec<char> = Vec::new();
        let mut i: usize = 0;
        while i < n
            invariant
                i <= n,
                n <= chars@.len(),
                short@ == chars@.take(i as int),
            decreases n - i,
        {
            short.push(chars[i]);
            assert(chars@.take(i + 1) =~= chars@.take(i as int).push(chars@[i as int]));
            i += 1;
        }
        let mut title = String::from_str("(project ");
        let middle = string_of(&short);
        title.append(middle.as_str());
        title.append(")");
        title
    }

    /// the shortest unique prefix of an id, or the text itself where it names no id the store abbreviates
    pub fn short_id(&self, uuid: &str) -> (short: String)
        ensures
            short@ == match entry_named(self.short_ids@, uuid.spec_bytes()) {
                Some(prefix) => prefix@,
                None => uuid@,
            },
    {
        if let Ok(id) = ThingsId::parse(uuid) {
            if let Some(k) = entry_index(&self.short_ids, &id) {
                return self.short_ids[k].1.clone();
            }
        }
        String::from_str(uuid)
    }

    /// the progress of the project an id names, none counted where it has no to-do that counts
    pub fn project_progress(&self, project_uuid: &str) -> (progress: ProjectProgress)
        ensures
            progress == match entry_named(self.project_progress@, project_uuid.spec_bytes()) {
                Some(progress) => progress,
                None => ProjectProgress { total: 0, done: 0 },
            },
    {
        if let Ok(id) = ThingsId::parse(project_uuid) {
            if let Some(k) = entry_index(&self.project_progress, &id) {
                return self.project_progress[k].1;
            }
        }
        ProjectProgress { total: 0, done: 0 }
    }
}

/// how an identifier resolves among sorted ids: the id it names in full or by a unique prefix, or the message and up to ten candidates when the prefix is ambiguous
pub open spec fn resolution(
    identifier: Seq<char>,
    sorted: Seq<ThingsId>,
    known: spec_fn(Seq<u8>) -> bool,
    label: Seq<char>,
    lower: Seq<char>,
) -> (Option<Seq<u8>>, Seq<char>, Seq<ThingsId>) {
    let ident = trim_spec(identifier);
    let bytes = vstd::utf8::encode_utf8(ident);
    let matches = prefix_matches_spec(sorted, bytes);
    let shown = matches.take(if matches.len() < 10 { matches.len() as int } else { 10 }).filter(
        |id: ThingsId| known(id@),
    );
    if ident.len() == 0 {
        (None, "Missing "@ + lower + " identifier."@, seq![])
    } else if parse_spec(bytes) is Some && known(parse_spec(bytes)->0) {
        (parse_spec(bytes), seq![], seq![])
    } else if matches.len() == 1 && known(matches[0]@) {
        (Some(matches[0]@), seq![], seq![])
    } else if matches.len() > 1 {
        (
            None,
            "Ambiguous "@ + lower + " id prefix."@ + if matches.len() > shown.len() {
                " ("@ + decimal(matches.len()) + " matches, showing first "@ + decimal(shown.len())
                    + ")"@
            } else {
                seq![]
            },
            shown,
        )
    } else {
        (None, label + " not found: "@ + identifier, seq![])
    }
}

/// one id by full id or unique prefix among `sorted_ids`, `known` telling which ids stand for an item, or the message and up to ten candidates when the prefix is ambiguous
fn resolve_prefix<F: Fn(&ThingsId) -> bool>(
    identifier: &str,
    known: F,
    Ghost(known_spec): Ghost<spec_fn(Seq<u8>) -> bool>,
    sorted_ids: &Vec<ThingsId>,
    label: &str,
    lower: &str,
) -> (res: (Option<ThingsId>, String, Vec<ThingsId>))
    requires
        forall|id: &ThingsId| #[trigger] known.requires((id,)),
        forall|id: &ThingsId, r: bool| #[trigger] known.ensures((id,), r) ==> r == known_spec(id@),
    ensures
        ({
            let expected = resolution(identifier@, sorted_ids@, known_spec, label@, lower@);
            &&& match res.0 {
                Some(id) => expected.0 == Some(id@),
                None => expected.0 is None,
            }
            &&& res.1@ == expected.1
            &&& res.2@ == expected.2
        }),
{
    let ghost expected = resolution(identifier@, sorted_ids@, known_spec, label@, lower@);
    let owned = trimmed(identifier);
    let ident = owned.as_str();
    let ghost bytes = vstd::utf8::encode_utf8(trim_spec(identifier@));
    assert(ident.spec_bytes() == bytes);
    if ident.is_empty() {
        let mut message = String::from_str("Missing ");
        message.append(lower);
        message.append(" identifier.");
        return (None, message, Vec::new());
    }
    if let Ok(exact) = ThingsId::parse(ident) {
        if known(&exact) {
            return (Some(exact), String::new(), Vec::new());
        }
    }
    let matches = prefix_matches(sorted_ids.as_slice(), ident);
    assert(matches@ == prefix_matches_spec(sorted_ids@, bytes));
    if matches.len() == 1 && known(&matches[0]) {
        return (Some(matches[0]), String::new(), Vec::new());
    }
    if matches.len() > 1 {
        let limit: usize = if matches.len() < 10 { matches.len() } else { 10 };
        let mut out: Vec<ThingsId> = Vec::new();
        let mut i: usize = 0;
        while i < limit
            invariant
                i <= limit,
                limit <= matches@.len(),
                forall|id: &ThingsId| #[trigger] known.requires((id,)),
                forall|id: &ThingsId, r: bool| #[trigger] known.ensures((id,), r) ==> r == known_spec(id@),
                out@ == matches@.take(i as int).filter(|id: ThingsId| known_spec(id@)),
            decreases limit - i,
        {
            let id = matches[i];
            let keep = known(&id);
            proof {
                reveal_with_fuel(Seq::<_>::filter, 1);
                assert(matches@.take(i + 1).drop_last() =~= matches@.take(i as int));
                assert(matches@.take(i + 1).last() == id);
            }
            if keep {
                out.push(id);
            }
            i += 1;
        }
        proof {
            matches@.take(limit as int).lemma_filter_len(|id: ThingsId| known_spec(id@));
        }
        let mut message = String::from_str("Ambiguous ");
        message.append(lower);
        message.append(" id prefix.");
        if matches.len() > out.len() {
            message.append(" (");
            let total = decimal_text(matches.len() as u64);
            message.append(total.as_str());
            message.append(" matches, showing first ");
            let shown = decimal_text(out.len() as u64);
            message.append(shown.as_str());
            message.append(")");
        }
        return (None, message, out);
    }
    let mut message = String::from_str(label);
    message.append(" not found: ");
    message.append(identifier);
    (None, message, Vec::new())
}

/// some id of the list has these bytes
pub open spec fn holds_bytes(ids: Seq<ThingsId>, bytes: Seq<u8>) -> bool {
    exists|k: int| 0 <= k < ids.len() && #[trigger] ids[k]@ == bytes
}

/// the tasks of the store the ids name
pub open spec fn tasks_named(tasks: Seq<Task>, ids: Seq<ThingsId>) -> Seq<Task> {
    ids.map_values(|id: ThingsId| task_with(tasks, id)->0)
}

/// the areas of the store the ids name
pub open spec fn areas_named(areas: Seq<Area>, ids: Seq<ThingsId>) -> Seq<Area> {
    ids.map_values(|id: ThingsId| area_with(areas, id)->0)
}

/// how a task identifier resolves among the tasks of the store
pub open spec fn task_resolution(tasks: Seq<Task>, sorted: Seq<ThingsId>, identifier: Seq<char>) -> (
    Option<Seq<u8>>,
    Seq<char>,
    Seq<ThingsId>,
) {
    resolution(identifier, sorted, |b: Seq<u8>| task_with_bytes(tasks, b) is Some, "Task"@, "task"@)
}

/// how an item identifier resolves among the items a mark can write
pub open spec fn mark_resolution(
    tasks: Seq<Task>,
    markable: Seq<ThingsId>,
    identifier: Seq<char>,
) -> (Option<Seq<u8>>, Seq<char>, Seq<ThingsId>) {
    resolution(
        identifier,
        markable,
        |b: Seq<u8>| holds_bytes(markable, b) && task_with_bytes(tasks, b) is Some,
        "Item"@,
        "item"@,
    )
}

/// the identifier names, in full or by a unique prefix, a task in the Trash
pub open spec fn names_trashed(tasks: Seq<Task>, sorted: Seq<ThingsId>, identifier: Seq<char>) -> bool {
    task_resolution(tasks, sorted, identifier).0 matches Some(b) && in_trash_spec(
        tasks,
        task_with_bytes(tasks, b)->0,
    )
}

impl ThingsStore {
    /// the tasks of the store the ids name, each known to the store
    fn tasks_of(&self, ids: &Vec<ThingsId>) -> (found: Vec<&Task>)
        requires
            forall|k: int| 0 <= k < ids@.len() ==> task_with(self.tasks@, #[trigger] ids@[k]) is Some,
        ensures
            held(found@) == tasks_named(self.tasks@, ids@),
    {
        let mut found: Vec<&Task> = Vec::new();
        let mut k: usize = 0;
        while k < ids.len()
            invariant
                k <= ids@.len(),
                forall|k: int| 0 <= k < ids@.len() ==> task_with(self.tasks@, #[trigger] ids@[k]) is Some,
                found@.len() == k,
                forall|i: int| 0 <= i < k ==> Some(*#[trigger] found@[i]) == task_with(self.tasks@, ids@[i]),
            decreases ids@.len() - k,
        {
            assert(task_with(self.tasks@, ids@[k as int]) is Some);
            match self.task(&ids[k]) {
                Some(item) => {
                    found.push(item);
                },
                None => {},
            }
            k += 1;
        }
        assert forall|i: int| 0 <= i < found@.len() implies held(found@)[i] == tasks_named(self.tasks@, ids@)[i] by {
            assert(Some(*found@[i]) == task_with(self.tasks@, ids@[i]));
        }
        assert(held(found@) =~= tasks_named(self.tasks@, ids@));
        found
    }

    /// the areas of the store the ids name, each known to the store
    fn areas_of(&self, ids: &Vec<ThingsId>) -> (found: Vec<&Area>)
        requires
            forall|k: int| 0 <= k < ids@.len() ==> area_with(self.areas@, #[trigger] ids@[k]) is Some,
        ensures
            held(found@) == areas_named(self.areas@, ids@),
    {
        let mut found: Vec<&Area> = Vec::new();
        let mut k: usize = 0;
        while k < ids.len()
            invariant
                k <= ids@.len(),
                forall|k: int| 0 <= k < ids@.len() ==> area_with(self.areas@, #[trigger] ids@[k]) is Some,
                found@.len() == k,
                forall|i: int| 0 <= i < k ==> Some(*#[trigger] found@[i]) == area_with(self.areas@, ids@[i]),
            decreases ids@.len() - k,
        {
            assert(area_with(self.areas@, ids@[k as int]) is Some);
            match self.area(&ids[k]) {
                Some(item) => {
                    found.push(item);
                },
                None => {},
            }
            k += 1;
        }
        assert forall|i: int| 0 <= i < found@.len() implies held(found@)[i] == areas_named(self.areas@, ids@)[i] by {
            assert(Some(*found@[i]) == area_with(self.areas@, ids@[i]));
        }
        assert(held(found@) =~= areas_named(self.areas@, ids@));
        found
    }

    /// one task by full id or unique prefix, or the message and up to ten candidates when the prefix is ambiguous
    pub fn resolve_task_identifier(&self, identifier: &str) -> (res: (Option<&Task>, String, Vec<&Task>))
        ensures
            ({
                let expected = task_resolution(self.tasks@, self.task_ids_sorted@, identifier@);
                &&& match expected.0 {
                    Some(b) => res.0 matches Some(t) && task_with_bytes(self.tasks@, b) == Some(*t),
                    None => res.0 is None,
                }
                &&& res.1@ == expected.1
                &&& held(res.2@) == tasks_named(self.tasks@, expected.2)
            }),
    {
        let ghost known_spec = |b: Seq<u8>| task_with_bytes(self.tasks@, b) is Some;
        let known = |id: &ThingsId| -> (r: bool)
            ensures
                r == (task_with_bytes(self.tasks@, id@) is Some),
            { self.task(id).is_some() };
        let (id, message, candidates) = resolve_prefix(
            identifier,
            known,
            Ghost(known_spec),
            &self.task_ids_sorted,
            "Task",
            "task",
        );
        let item = match id {
            Some(id) => self.task(&id),
            None => None,
        };
        proof {
            let expected = task_resolution(self.tasks@, self.task_ids_sorted@, identifier@);
            assert forall|k: int| 0 <= k < candidates@.len() implies task_with(
                self.tasks@,
                #[trigger] candidates@[k],
            ) is Some by {
                let matches = prefix_matches_spec(self.task_ids_sorted@, vstd::utf8::encode_utf8(trim_spec(identifier@)));
                let taken = matches.take(if matches.len() < 10 { matches.len() as int } else { 10 });
                taken.filter_lemma(|id: ThingsId| known_spec(id@));
                assert(known_spec(candidates@[k]@));
            }
        }
        let found = self.tasks_of(&candidates);
        (item, message, found)
    }
}

/// how an area identifier resolves among the areas of the store
pub open spec fn area_resolution(areas: Seq<Area>, sorted: Seq<ThingsId>, identifier: Seq<char>) -> (
    Option<Seq<u8>>,
    Seq<char>,
    Seq<ThingsId>,
) {
    resolution(identifier, sorted, |b: Seq<u8>| area_with_bytes(areas, b) is Some, "Area"@, "area"@)
}

impl ThingsStore {
    /// one area by full id or unique prefix, or the message and up to ten candidates when the prefix is ambiguous
    pub fn resolve_area_identifier(&self, identifier: &str) -> (res: (Option<&Area>, String, Vec<&Area>))
        ensures
            ({
                let expected = area_resolution(self.areas@, self.area_ids_sorted@, identifier@);
                &&& match expected.0 {
                    Some(b) => res.0 matches Some(a) && area_with_bytes(self.areas@, b) == Some(*a),
                    None => res.0 is None,
                }
                &&& res.1@ == expected.1
                &&& held(res.2@) == areas_named(self.areas@, expected.2)
            }),
    {
        let ghost known_spec = |b: Seq<u8>| area_with_bytes(self.areas@, b) is Some;
        let known = |id: &ThingsId| -> (r: bool)
            ensures
                r == (area_with_bytes(self.areas@, id@) is Some),
            { self.area(id).is_some() };
        let (id, message, candidates) = resolve_prefix(
            identifier,
            known,
            Ghost(known_spec),
            &self.area_ids_sorted,
            "Area",
            "area",
        );
        let item = match id {
            Some(id) => self.area(&id),
            None => None,
        };
        proof {
            assert forall|k: int| 0 <= k < candidates@.len() implies area_with(
                self.areas@,
                #[trigger] candidates@[k],
            ) is Some by {
                let matches = prefix_matches_spec(self.area_ids_sorted@, vstd::utf8::encode_utf8(trim_spec(identifier@)));
                let taken = matches.take(if matches.len() < 10 { matches.len() as int } else { 10 });
                taken.filter_lemma(|id: ThingsId| known_spec(id@));
                assert(known_spec(candidates@[k]@));
            }
        }
        let found = self.areas_of(&candidates);
        (item, message, found)
    }

    /// one item a mark can write by full id or unique prefix, or the message and up to ten candidates when the prefix is ambiguous
    ///
    /// an item in the Trash takes no writes and is named as such rather than as missing
    pub fn resolve_mark_identifier(&self, identifier: &str) -> (res: (Option<&Task>, String, Vec<&Task>))
        ensures
            ({
                let expected = mark_resolution(self.tasks@, self.markable_ids_sorted@, identifier@);
                if expected.0 is None && expected.2.len() == 0 && names_trashed(
                    self.tasks@,
                    self.task_ids_sorted@,
                    identifier@,
                ) {
                    let trashed = task_with_bytes(
                        self.tasks@,
                        task_resolution(self.tasks@, self.task_ids_sorted@, identifier@).0->0,
                    )->0;
                    &&& res.0 is None
                    &&& res.1@ == "Item is in the Trash: "@ + sanitize(trashed.title@, Shown::Field)
                    &&& res.2@.len() == 0
                } else {
                    &&& match expected.0 {
                        Some(b) => res.0 matches Some(t) && task_with_bytes(self.tasks@, b) == Some(*t),
                        None => res.0 is None,
                    }
                    &&& res.1@ == expected.1
                    &&& held(res.2@) == tasks_named(self.tasks@, expected.2)
                }
            }),
    {
        let ghost known_spec = |b: Seq<u8>| holds_bytes(self.markable_ids_sorted@, b) && task_with_bytes(self.tasks@, b) is Some;
        let known = |id: &ThingsId| -> (r: bool)
            ensures
                r == (holds_bytes(self.markable_ids_sorted@, id@) && task_with_bytes(self.tasks@, id@) is Some),
            {
                proof {
                    if holds_bytes(self.markable_ids_sorted@, id@) {
                        let k = choose|k: int| 0 <= k < self.markable_ids_sorted@.len() && #[trigger] self.markable_ids_sorted@[k]@ == id@;
                        assert(holds_id(self.markable_ids_sorted@, *id));
                    }
                }
                holds_id_exec(&self.markable_ids_sorted, id) && self.task(id).is_some()
            };
        let (id, message, candidates) = resolve_prefix(
            identifier,
            known,
            Ghost(known_spec),
            &self.markable_ids_sorted,
            "Item",
            "item",
        );
        if id.is_none() && candidates.len() == 0 {
            let (task, _, _) = self.resolve_task_identifier(identifier);
            if let Some(task) = task {
                if self.in_trash(task) {
                    let mut message = String::from_str("Item is in the Trash: ");
                    let title = one_line(task.title.as_str());
                    message.append(title.as_str());
                    return (None, message, Vec::new());
                }
            }
        }
        let item = match id {
            Some(id) => self.task(&id),
            None => None,
        };
        proof {
            assert forall|k: int| 0 <= k < candidates@.len() implies task_with(
                self.tasks@,
                #[trigger] candidates@[k],
            ) is Some by {
                let matches = prefix_matches_spec(self.markable_ids_sorted@, vstd::utf8::encode_utf8(trim_spec(identifier@)));
                let taken = matches.take(if matches.len() < 10 { matches.len() as int } else { 10 });
                taken.filter_lemma(|id: ThingsId| known_spec(id@));
                assert(known_spec(candidates@[k]@));
            }
        }
        let found = self.tasks_of(&candidates);
        (item, message, found)
    }
}

/// how recently a task changed, the most recent first and the never changed last
pub open spec fn recency(modified: Option<Instant>) -> int {
    match modified {
        Some(m) => -instant_key(m),
        None => 0x1_0000_0000_0000_0000_0000_0000int,
    }
}

/// the order of the Trash: the most recently changed first, then by index, then by id
pub open spec fn recent_key(task: Task) -> int {
    recency(task.modification_date) * 0x1_0000_0000_0000_0000_0000_0000_0000_0000_0000_0000int + (
    task_position(task) + 0x8000_0000_0000_0000_0000_0000_0000_0000_0000_0000int)
}

/// in a trashed project
pub open spec fn in_trashed_project(tasks: Seq<Task>, task: Task) -> bool {
    match effective_project(tasks, task) {
        Some(project) => match task_with(tasks, project) {
            Some(project) => project.trashed && is_project_spec(project),
            None => false,
        },
        None => false,
    }
}

/// an entry of the Trash: in the Trash, but not along with a trashed project
pub open spec fn in_trash_list(tasks: Seq<Task>, task: Task) -> bool {
    &&& task.item_type != TaskType::Heading
    &&& in_trash_spec(tasks, task)
    &&& !in_trashed_project(tasks, task)
}

/// a to-do or project a trashed project takes along into the Trash
pub open spec fn taken_along(tasks: Seq<Task>, entry: Task, task: Task) -> bool {
    &&& is_project_spec(entry)
    &&& task.item_type != TaskType::Heading
    &&& effective_project(tasks, task) matches Some(project) && project@ == entry.uuid@
}

/// an instant's order key fits in 96 bits with its sign
proof fn lemma_instant_key_bound(t: Instant)
    ensures
        -0x8000_0000_0000_0000_0000_0000int <= instant_key(t) < 0x8000_0000_0000_0000_0000_0000int,
{
    assert(t.seconds * 0x1_0000_0000int <= 0x7fff_ffff_ffff_ffff * 0x1_0000_0000int) by (nonlinear_arith)
        requires
            t.seconds <= 0x7fff_ffff_ffff_ffff,
    ;
    assert(t.seconds * 0x1_0000_0000int >= -0x8000_0000_0000_0000 * 0x1_0000_0000int) by (nonlinear_arith)
        requires
            t.seconds >= -0x8000_0000_0000_0000,
    ;
}

/// the Trash order: the more recent change first, then the list order
proof fn lemma_recent_key(a: Task, b: Task)
    ensures
        (recent_key(a) < recent_key(b)) == (recency(a.modification_date) < recency(
            b.modification_date,
        ) || (recency(a.modification_date) == recency(b.modification_date) && task_position(a)
            < task_position(b))),
        a.uuid@ != b.uuid@ ==> recent_key(a) != recent_key(b),
{
    lemma_id_value_bound(a.uuid);
    lemma_id_value_bound(b.uuid);
    lemma_position_key(a.index, a.uuid, b.index, b.uuid);
    assert(-0x8000_0000_0000_0000_0000_0000_0000_0000_0000_0000int <= task_position(a)
        < 0x8000_0000_0000_0000_0000_0000_0000_0000_0000_0000int) by (nonlinear_arith)
        requires
            -0x8000_0000 <= a.index < 0x8000_0000,
            0 <= id_value(a.uuid) < 0x1_0000_0000_0000_0000_0000_0000_0000_0000int,
            task_position(a) == a.index * 0x1_0000_0000_0000_0000_0000_0000_0000_0000int
                + id_value(a.uuid),
    ;
    assert(-0x8000_0000_0000_0000_0000_0000_0000_0000_0000_0000int <= task_position(b)
        < 0x8000_0000_0000_0000_0000_0000_0000_0000_0000_0000int) by (nonlinear_arith)
        requires
            -0x8000_0000 <= b.index < 0x8000_0000,
            0 <= id_value(b.uuid) < 0x1_0000_0000_0000_0000_0000_0000_0000_0000int,
            task_position(b) == b.index * 0x1_0000_0000_0000_0000_0000_0000_0000_0000int
                + id_value(b.uuid),
    ;
    lemma_stacked_order(
        recency(a.modification_date),
        task_position(a) + 0x8000_0000_0000_0000_0000_0000_0000_0000_0000_0000int,
        recency(b.modification_date),
        task_position(b) + 0x8000_0000_0000_0000_0000_0000_0000_0000_0000_0000int,
        0x1_0000_0000_0000_0000_0000_0000_0000_0000_0000_0000int,
    );
}

/// the task comes first in the Trash
fn recent_before(a: &Task, b: &Task) -> (before: bool)
    ensures
        before == (recent_key(*a) < recent_key(*b)),
{
    proof {
        lemma_recent_key(*a, *b);
        if let Some(m) = a.modification_date {
            lemma_instant_key_bound(m);
        }
        if let Some(m) = b.modification_date {
            lemma_instant_key_bound(m);
        }
    }
    let position = task_before(a, b);
    match (a.modification_date, b.modification_date) {
        (Some(x), Some(y)) => {
            if x.seconds == y.seconds && x.nanos == y.nanos {
                position
            } else {
                !instant_le(x, y)
            }
        },
        (Some(_), None) => true,
        (None, Some(_)) => false,
        (None, None) => position,
    }
}

/// distinct tasks take distinct places in the Trash
proof fn lemma_distinct_recent_keys(tasks: Seq<Task>, picked: Seq<usize>)
    requires
        unique_task_ids(tasks),
        forall|m: int| 0 <= m < picked.len() ==> #[trigger] picked[m] < tasks.len(),
        forall|m: int, k: int| 0 <= m < k < picked.len() ==> #[trigger] picked[m] < #[trigger] picked[k],
    ensures
        forall|m: int, k: int|
            0 <= m < k < picked.len() ==> recent_key(tasks[#[trigger] picked[m] as int]) != recent_key(
                tasks[#[trigger] picked[k] as int],
            ),
{
    assert forall|m: int, k: int| 0 <= m < k < picked.len() implies recent_key(
        tasks[#[trigger] picked[m] as int],
    ) != recent_key(tasks[#[trigger] picked[k] as int]) by {
        let a = tasks[picked[m] as int];
        let b = tasks[picked[k] as int];
        assert(a.uuid@ != b.uuid@);
        lemma_recent_key(a, b);
    }
}

/// the entries of a list of pairs, first parts alone
pub open spec fn firsts<A, B>(pairs: Seq<(&A, B)>) -> Seq<A> {
    pairs.map_values(|pair: (&A, B)| *pair.0)
}

impl ThingsStore {
    /// in a trashed project
    fn in_trashed_project(&self, task: &Task) -> (trashed: bool)
        ensures
            trashed == in_trashed_project(self.tasks@, *task),
    {
        match self.effective_project_uuid(task) {
            Some(id) => match self.task(&id) {
                Some(project) => project.trashed && project.is_project(),
                None => false,
            },
            None => false,
        }
    }

    /// the to-dos a trashed project takes along, in the order of the lists
    fn taken_along(&self, entry: &Task) -> (list: Vec<&Task>)
        requires
            self.well_formed(),
        ensures
            lists_in_order(held(list@), self.tasks@, |t: Task| taken_along(self.tasks@, *entry, t), |t: Task| task_position(t)),
    {
        let ghost keep = |t: Task| taken_along(self.tasks@, *entry, t);
        let keeps = |j: usize| -> (r: bool)
            requires
                j < self.tasks@.len(),
            ensures
                r == taken_along(self.tasks@, *entry, self.tasks@[j as int]),
            {
                let t = &self.tasks[j];
                entry.is_project() && !t.is_heading() && match self.effective_project_uuid(t) {
                    Some(project) => project == entry.uuid,
                    None => false,
                }
            };
        let picked = pick(self.tasks.len(), keeps, Ghost(|j: int| keep(self.tasks@[j])));
        proof {
            lemma_distinct_task_positions(self.tasks@, picked@);
        }
        let list = listed(&self.tasks, &picked, task_before, Ghost(keep), Ghost(|t: Task| task_position(t)));
        proof {
            lemma_listed_in_order(held(list@), self.tasks@, picked@, keep, |t: Task| task_position(t));
        }
        list
    }

    /// the Trash as the app lists it, most recently changed first, each trashed project with the to-dos it took along
    pub fn trash(&self) -> (entries: Vec<(&Task, Vec<&Task>)>)
        requires
            self.well_formed(),
        ensures
            lists_in_order(firsts(entries@), self.tasks@, |t: Task| in_trash_list(self.tasks@, t), |t: Task| recent_key(t)),
            forall|k: int|
                0 <= k < entries@.len() ==> lists_in_order(
                    held(#[trigger] entries@[k].1@),
                    self.tasks@,
                    |t: Task| taken_along(self.tasks@, *entries@[k].0, t),
                    |t: Task| task_position(t),
                ),
    {
        let ghost keep = |t: Task| in_trash_list(self.tasks@, t);
        let keeps = |j: usize| -> (r: bool)
            requires
                j < self.tasks@.len(),
            ensures
                r == in_trash_list(self.tasks@, self.tasks@[j as int]),
            {
                let t = &self.tasks[j];
                !t.is_heading() && self.in_trash(t) && !self.in_trashed_project(t)
            };
        let picked = pick(self.tasks.len(), keeps, Ghost(|j: int| keep(self.tasks@[j])));
        proof {
            lemma_distinct_recent_keys(self.tasks@, picked@);
        }
        let list = listed(&self.tasks, &picked, recent_before, Ghost(keep), Ghost(|t: Task| recent_key(t)));
        proof {
            lemma_listed_in_order(held(list@), self.tasks@, picked@, keep, |t: Task| recent_key(t));
        }
        let mut entries: Vec<(&Task, Vec<&Task>)> = Vec::new();
        let mut i: usize = 0;
        while i < list.len()
            invariant
                i <= list@.len(),
                self.well_formed(),
                entries@.len() == i,
                forall|k: int| 0 <= k < i ==> *#[trigger] entries@[k].0 == *list@[k],
                forall|k: int|
                    0 <= k < i ==> lists_in_order(
                        held(#[trigger] entries@[k].1@),
                        self.tasks@,
                        |t: Task| taken_along(self.tasks@, *entries@[k].0, t),
                        |t: Task| task_position(t),
                    ),
            decreases list@.len() - i,
        {
            let entry = list[i];
            let along = self.taken_along(entry);
            entries.push((entry, along));
            i += 1;
        }
        assert(firsts(entries@) =~= held(list@));
        entries
    }
}

/// the bytes of the shortest unique prefix the store keeps for the id a text names, six where it keeps none
pub open spec fn prefix_need(short_ids: Seq<(ThingsId, String)>, text: &str) -> int {
    match entry_named(short_ids, text.spec_bytes()) {
        Some(prefix) => (vstd::utf8::encode_utf8(prefix@).len() as usize) as int,
        None => 6,
    }
}

/// the widest prefix the ids need, at least one
pub open spec fn widest_need(short_ids: Seq<(ThingsId, String)>, ids: Seq<&str>) -> int
    decreases ids.len(),
{
    if ids.len() == 0 {
        1
    } else {
        let rest = widest_need(short_ids, ids.drop_last());
        let need = prefix_need(short_ids, ids.last());
        if need > rest {
            need
        } else {
            rest
        }
    }
}

/// the ids of the items a list holds, in its order
pub open spec fn ids_of_tasks(list: Seq<Task>) -> Seq<ThingsId> {
    list.map_values(|t: Task| t.uuid)
}

/// the ids of the areas a list holds, in its order
pub open spec fn ids_of_areas(list: Seq<Area>) -> Seq<ThingsId> {
    list.map_values(|a: Area| a.uuid)
}

/// a task a mark can write: outside the Trash, no heading, of a kind the writes can upgrade
pub open spec fn markable(tasks: Seq<Task>, upgradable: Seq<ThingsId>, task: Task) -> bool {
    &&& !in_trash_spec(tasks, task)
    &&& task.item_type != TaskType::Heading
    &&& holds_id(upgradable, task.uuid)
}

/// the id comes first in the order of bytes
fn task_id_before(a: &Task, b: &Task) -> (before: bool)
    ensures
        before == (id_value(a.uuid) < id_value(b.uuid)),
{
    a.uuid.sorts_before(&b.uuid)
}

/// the id comes first in the order of bytes
fn area_id_before(a: &Area, b: &Area) -> (before: bool)
    ensures
        before == (id_value(a.uuid) < id_value(b.uuid)),
{
    a.uuid.sorts_before(&b.uuid)
}

/// the ids of the tasks a list holds
fn task_ids(list: &Vec<&Task>) -> (ids: Vec<ThingsId>)
    ensures
        ids@ == ids_of_tasks(held(list@)),
{
    let mut ids: Vec<ThingsId> = Vec::new();
    let mut i: usize = 0;
    while i < list.len()
        invariant
            i <= list@.len(),
            ids@ == ids_of_tasks(held(list@).take(i as int)),
        decreases list@.len() - i,
    {
        ids.push(list[i].uuid);
        assert(ids_of_tasks(held(list@).take(i + 1)) =~= ids_of_tasks(held(list@).take(i as int)).push(list@[i as int].uuid));
        i += 1;
    }
    assert(held(list@).take(list@.len() as int) =~= held(list@));
    ids
}

/// the ids of the areas a list holds
fn area_ids(list: &Vec<&Area>) -> (ids: Vec<ThingsId>)
    ensures
        ids@ == ids_of_areas(held(list@)),
{
    let mut ids: Vec<ThingsId> = Vec::new();
    let mut i: usize = 0;
    while i < list.len()
        invariant
            i <= list@.len(),
            ids@ == ids_of_areas(held(list@).take(i as int)),
        decreases list@.len() - i,
    {
        ids.push(list[i].uuid);
        assert(ids_of_areas(held(list@).take(i + 1)) =~= ids_of_areas(held(list@).take(i as int)).push(list@[i as int].uuid));
        i += 1;
    }
    assert(held(list@).take(list@.len() as int) =~= held(list@));
    ids
}

/// distinct ids come apart in the order of bytes
proof fn lemma_distinct_task_ids(tasks: Seq<Task>, picked: Seq<usize>)
    requires
        unique_task_ids(tasks),
        forall|m: int| 0 <= m < picked.len() ==> #[trigger] picked[m] < tasks.len(),
        forall|m: int, k: int| 0 <= m < k < picked.len() ==> #[trigger] picked[m] < #[trigger] picked[k],
    ensures
        forall|m: int, k: int|
            0 <= m < k < picked.len() ==> id_value(tasks[#[trigger] picked[m] as int].uuid) != id_value(
                tasks[#[trigger] picked[k] as int].uuid,
            ),
{
    assert forall|m: int, k: int| 0 <= m < k < picked.len() implies id_value(
        tasks[#[trigger] picked[m] as int].uuid,
    ) != id_value(tasks[#[trigger] picked[k] as int].uuid) by {
        lemma_id_value_injective(tasks[picked[m] as int].uuid, tasks[picked[k] as int].uuid);
    }
}

/// distinct ids come apart in the order of bytes
proof fn lemma_distinct_area_ids(areas: Seq<Area>, picked: Seq<usize>)
    requires
        unique_area_ids(areas),
        forall|m: int| 0 <= m < picked.len() ==> #[trigger] picked[m] < areas.len(),
        forall|m: int, k: int| 0 <= m < k < picked.len() ==> #[trigger] picked[m] < #[trigger] picked[k],
    ensures
        forall|m: int, k: int|
            0 <= m < k < picked.len() ==> id_value(areas[#[trigger] picked[m] as int].uuid) != id_value(
                areas[#[trigger] picked[k] as int].uuid,
            ),
{
    assert forall|m: int, k: int| 0 <= m < k < picked.len() implies id_value(
        areas[#[trigger] picked[m] as int].uuid,
    ) != id_value(areas[#[trigger] picked[k] as int].uuid) by {
        lemma_id_value_injective(areas[picked[m] as int].uuid, areas[picked[k] as int].uuid);
    }
}

impl ThingsStore {
    /// the widest prefix any of the ids needs to stand apart, six for an id the store does not abbreviate, nothing for no ids
    pub fn unique_prefix_length(&self, ids: &[&str]) -> (width: usize)
        ensures
            width == if ids@.len() == 0 {
                0
            } else {
                widest_need(self.short_ids@, ids@)
            },
    {
        if ids.len() == 0 {
            return 0;
        }
        let mut max_need: usize = 1;
        let mut i: usize = 0;
        while i < ids.len()
            invariant
                i <= ids@.len(),
                max_need == widest_need(self.short_ids@, ids@.take(i as int)),
            decreases ids@.len() - i,
        {
            let text: &str = ids[i];
            let mut need: usize = 6;
            match ThingsId::parse(text) {
                Ok(parsed) => {
                    match entry_index(&self.short_ids, &parsed) {
                        Some(k) => {
                            let prefix = self.short_ids[k].1.as_str();
                            need = prefix.len();
                            assert(entry_named(self.short_ids@, text.spec_bytes()) == Some(self.short_ids@[k as int].1));

                        },
                        None => {},
                    }
                },
                Err(_) => {},
            }
            assert(ids@.take(i + 1).drop_last() =~= ids@.take(i as int));
            assert(ids@.take(i + 1).last() == ids@[i as int]);
            assert(need == prefix_need(self.short_ids@, ids@[i as int]));
            if need > max_need {
                max_need = need;
            }
            i += 1;
        }
        assert(ids@.take(ids@.len() as int) =~= ids@);
        max_need
    }

    /// the store over replayed items, with its indexes: the progress of each project, the shortest unique prefixes of `short_id_domain`, the ids a mark can write, of those of `upgradable` outside the Trash and no headings, and the ids of the areas and the tasks in the order of their bytes
    pub fn from_parts(
        tasks: Vec<Task>,
        areas: Vec<Area>,
        tags: Vec<Tag>,
        short_id_domain: Vec<ThingsId>,
        upgradable: Vec<ThingsId>,
    ) -> (store: ThingsStore)
        requires
            unique_task_ids(tasks@),
            unique_area_ids(areas@),
            unique_tag_ids(tags@),
            tasks@.len() <= i32::MAX,
        ensures
            store.tasks@ == tasks@,
            store.areas@ == areas@,
            store.tags@ == tags@,
            store.well_formed(),
            store.upgradable_ids@ == upgradable@,
            progress_of(tasks@, tasks@.len() as int, store.project_progress@),
            store.short_ids@.len() == prefix_entries(short_id_domain@, short_id_domain@.len() as int).len(),
            forall|k: int|
                0 <= k < store.short_ids@.len() ==> (#[trigger] store.short_ids@[k]).0 == prefix_entries(
                    short_id_domain@,
                    short_id_domain@.len() as int,
                )[k].0 && store.short_ids@[k].1@ == prefix_entries(
                    short_id_domain@,
                    short_id_domain@.len() as int,
                )[k].1,
            exists|list: Seq<Task>|
                lists_in_order(list, tasks@, |t: Task| markable(tasks@, upgradable@, t), |t: Task| id_value(t.uuid))
                    && store.markable_ids_sorted@ == ids_of_tasks(list),
            exists|list: Seq<Task>|
                lists_in_order(list, tasks@, |t: Task| true, |t: Task| id_value(t.uuid))
                    && store.task_ids_sorted@ == ids_of_tasks(list),
            exists|list: Seq<Area>|
                lists_in_order(list, areas@, |a: Area| true, |a: Area| id_value(a.uuid))
                    && store.area_ids_sorted@ == ids_of_areas(list),
    {
        let mut store = ThingsStore {
            tasks,
            areas,
            tags,
            project_progress: Vec::new(),
            short_ids: Vec::new(),
            markable_ids_sorted: Vec::new(),
            upgradable_ids: Vec::new(),
            area_ids_sorted: Vec::new(),
            task_ids_sorted: Vec::new(),
        };
        let progress = store.project_progress_index();
        let short_ids = shortest_unique_prefixes(short_id_domain.as_slice());

        let ghost all_tasks = store.tasks@;
        let ghost keep_markable = |t: Task| markable(all_tasks, upgradable@, t);
        let keeps = |j: usize| -> (r: bool)
            requires
                j < store.tasks@.len(),
            ensures
                r == markable(store.tasks@, upgradable@, store.tasks@[j as int]),
            {
                let t = &store.tasks[j];
                !store.in_trash(t) && !t.is_heading() && holds_id_exec(&upgradable, &t.uuid)
            };
        let picked = pick(store.tasks.len(), keeps, Ghost(|j: int| keep_markable(all_tasks[j])));
        proof {
            lemma_distinct_task_ids(store.tasks@, picked@);
        }
        let list = listed(&store.tasks, &picked, task_id_before, Ghost(keep_markable), Ghost(|t: Task| id_value(t.uuid)));
        proof {
            lemma_listed_in_order(held(list@), store.tasks@, picked@, keep_markable, |t: Task| id_value(t.uuid));
        }
        let markable_ids = task_ids(&list);

        let every_task = |j: usize| -> (r: bool)
            requires
                j < store.tasks@.len(),
            ensures
                r == true,
            { true };
        let picked = pick(store.tasks.len(), every_task, Ghost(|j: int| true));
        proof {
            lemma_distinct_task_ids(store.tasks@, picked@);
        }
        let list = listed(&store.tasks, &picked, task_id_before, Ghost(|t: Task| true), Ghost(|t: Task| id_value(t.uuid)));
        proof {
            lemma_listed_in_order(held(list@), store.tasks@, picked@, |t: Task| true, |t: Task| id_value(t.uuid));
        }
        let sorted_task_ids = task_ids(&list);

        let every_area = |j: usize| -> (r: bool)
            requires
                j < store.areas@.len(),
            ensures
                r == true,
            { true };
        let picked = pick(store.areas.len(), every_area, Ghost(|j: int| true));
        proof {
            lemma_distinct_area_ids(store.areas@, picked@);
        }
        let list = listed(&store.areas, &picked, area_id_before, Ghost(|a: Area| true), Ghost(|a: Area| id_value(a.uuid)));
        proof {
            lemma_listed_in_order(held(list@), store.areas@, picked@, |a: Area| true, |a: Area| id_value(a.uuid));
        }
        let sorted_area_ids = area_ids(&list);

        store.project_progress = progress;
        store.short_ids = short_ids;
        store.markable_ids_sorted = markable_ids;
        store.upgradable_ids = upgradable;
        store.task_ids_sorted = sorted_task_ids;
        store.area_ids_sorted = sorted_area_ids;
        store
    }
}

/// two lists in strictly increasing order of a key with the same members are the same list
proof fn lemma_sorted_same_members<T>(a: Seq<T>, b: Seq<T>, key: spec_fn(T) -> int)
    requires
        forall|x: T| a.contains(x) <==> b.contains(x),
        forall|p: int, q: int| 0 <= p < q < a.len() ==> key(#[trigger] a[p]) < key(#[trigger] a[q]),
        forall|p: int, q: int| 0 <= p < q < b.len() ==> key(#[trigger] b[p]) < key(#[trigger] b[q]),
    ensures
        a =~= b,
    decreases a.len(),
{
    if a.len() == 0 {
        if b.len() > 0 {
            assert(b.contains(b[0]));
        }
    } else if b.len() == 0 {
        assert(a.contains(a[0]));
    } else {
        assert(a.contains(a[0]));
        assert(b.contains(b[0]));
        let j = choose|j: int| 0 <= j < b.len() && b[j] == a[0];
        let i = choose|i: int| 0 <= i < a.len() && a[i] == b[0];
        if i > 0 {
            assert(key(a[0]) < key(a[i]));
            if j > 0 {
                assert(key(b[0]) < key(b[j]));
            }
        }
        assert(i == 0);
        let ta = a.drop_first();
        let tb = b.drop_first();
        assert forall|x: T| ta.contains(x) <==> tb.contains(x) by {
            if ta.contains(x) {
                let p = choose|p: int| 0 <= p < ta.len() && ta[p] == x;
                assert(a[p + 1] == x);
                assert(key(a[0]) < key(a[p + 1]));
                assert(a.contains(x));
                let q = choose|q: int| 0 <= q < b.len() && b[q] == x;
                if q == 0 {
                    assert(false);
                }
                assert(tb[q - 1] == x);
            }
            if tb.contains(x) {
                let q = choose|q: int| 0 <= q < tb.len() && tb[q] == x;
                assert(b[q + 1] == x);
                assert(key(b[0]) < key(b[q + 1]));
                assert(b.contains(x));
                let p = choose|p: int| 0 <= p < a.len() && a[p] == x;
                if p == 0 {
                    assert(false);
                }
                assert(ta[p - 1] == x);
            }
        }
        assert forall|p: int, q: int| 0 <= p < q < ta.len() implies key(#[trigger] ta[p]) < key(
            #[trigger] ta[q],
        ) by {
            assert(ta[p] == a[p + 1] && ta[q] == a[q + 1]);
        }
        assert forall|p: int, q: int| 0 <= p < q < tb.len() implies key(#[trigger] tb[p]) < key(
            #[trigger] tb[q],
        ) by {
            assert(tb[p] == b[p + 1] && tb[q] == b[q + 1]);
        }
        lemma_sorted_same_members(ta, tb, key);
        assert(a =~= seq![a[0]] + ta);
        assert(b =~= seq![b[0]] + tb);
    }
}

/// where `key` tells strictly sorted items apart from `x`, the place where `x` goes keeps them sorted
proof fn lemma_sorted_place<T>(l: Seq<T>, x: T, key: spec_fn(T) -> int) -> (p: int)
    requires
        forall|a: int, b: int| 0 <= a < b < l.len() ==> key(#[trigger] l[a]) < key(#[trigger] l[b]),
        forall|a: int| 0 <= a < l.len() ==> key(#[trigger] l[a]) != key(x),
    ensures
        0 <= p <= l.len(),
        forall|a: int| 0 <= a < p ==> key(#[trigger] l[a]) < key(x),
        forall|a: int| p <= a < l.len() ==> key(x) < key(#[trigger] l[a]),
    decreases l.len(),
{
    if l.len() == 0 || key(x) < key(l[0]) {
        0
    } else {
        let rest = l.drop_first();
        assert forall|a: int, b: int| 0 <= a < b < rest.len() implies key(#[trigger] rest[a]) < key(#[trigger] rest[b]) by {
            assert(rest[a] == l[a + 1] && rest[b] == l[b + 1]);
        }
        assert forall|a: int| 0 <= a < rest.len() implies key(#[trigger] rest[a]) != key(x) by {
            assert(rest[a] == l[a + 1]);
        }
        let p = lemma_sorted_place(rest, x, key);
        assert forall|a: int| 0 <= a < p + 1 implies key(#[trigger] l[a]) < key(x) by {
            if a > 0 {
                assert(l[a] == rest[a - 1]);
            }
        }
        assert forall|a: int| p + 1 <= a < l.len() implies key(x) < key(#[trigger] l[a]) by {
            assert(l[a] == rest[a - 1]);
        }
        p + 1
    }
}

/// a member of an ordered list is kept and among the items
proof fn lemma_in_order_member<T>(l: Seq<T>, items: Seq<T>, keep: spec_fn(T) -> bool, key: spec_fn(T) -> int, i: int)
    requires
        lists_in_order(l, items, keep, key),
        0 <= i < l.len(),
    ensures
        keep(l[i]),
        items.contains(l[i]),
{
    assert(keep(l[i]));
    assert(items.contains(l[i]));
}

/// Some list holds exactly the items `keep` takes, in the order of `key`, where `key` tells every
/// two kept items apart.
pub proof fn lemma_lists_in_order_exists<T>(items: Seq<T>, keep: spec_fn(T) -> bool, key: spec_fn(T) -> int)
    requires
        forall|i: int, j: int|
            0 <= i < items.len() && 0 <= j < items.len() && keep(items[i]) && keep(items[j]) && key(#[trigger] items[i])
                == key(#[trigger] items[j]) ==> items[i] == items[j],
    ensures
        exists|list: Seq<T>| lists_in_order(list, items, keep, key),
    decreases items.len(),
{
    if items.len() == 0 {
        assert(lists_in_order(Seq::<T>::empty(), items, keep, key));
    } else {
        let init = items.drop_last();
        assert forall|i: int, j: int|
            0 <= i < init.len() && 0 <= j < init.len() && keep(init[i]) && keep(init[j]) && key(#[trigger] init[i])
                == key(#[trigger] init[j]) implies init[i] == init[j] by {
            assert(init[i] == items[i] && init[j] == items[j]);
        }
        lemma_lists_in_order_exists(init, keep, key);
        let l = choose|l: Seq<T>| lists_in_order(l, init, keep, key);
        let x = items.last();
        assert forall|i: int| 0 <= i < l.len() implies keep(#[trigger] l[i]) && items.contains(l[i]) by {
            lemma_in_order_member(l, init, keep, key, i);
            let w = choose|w: int| 0 <= w < init.len() && init[w] == l[i];
            assert(items[w] == l[i]);
        }
        if !keep(x) || l.contains(x) {
            assert forall|j: int| 0 <= j < items.len() && #[trigger] keep(items[j]) implies l.contains(items[j]) by {
                if j < init.len() {
                    assert(init[j] == items[j]);
                }
            }
            assert(lists_in_order(l, items, keep, key));
        } else {
            assert forall|a: int| 0 <= a < l.len() implies key(#[trigger] l[a]) != key(x) by {
                let w = choose|w: int| 0 <= w < items.len() && items[w] == l[a];
                assert(keep(l[a]));
                if key(l[a]) == key(x) {
                    assert(items[items.len() - 1] == x);
                    assert(items[w] == items[items.len() - 1]);
                    assert(l.contains(x));
                }
            }
            let p = lemma_sorted_place(l, x, key);
            let l2 = l.insert(p, x);
            assert forall|a: int| 0 <= a < l2.len() implies (a < p ==> l2[a] == l[a]) && (a == p ==> l2[a] == x) && (
            a > p ==> l2[a] == l[a - 1]) by {}
            assert forall|i: int| 0 <= i < l2.len() implies #[trigger] keep(l2[i]) && items.contains(l2[i]) by {
                if i == p {
                    assert(items[items.len() - 1] == x);
                } else if i < p {
                    assert(l2[i] == l[i]);
                } else {
                    assert(l2[i] == l[i - 1]);
                }
            }
            assert forall|j: int| 0 <= j < items.len() && #[trigger] keep(items[j]) implies l2.contains(items[j]) by {
                if j < init.len() {
                    assert(init[j] == items[j]);
                    let w = choose|w: int| 0 <= w < l.len() && l[w] == items[j];
                    if w < p {
                        assert(l2[w] == items[j]);
                    } else {
                        assert(l2[w + 1] == items[j]);
                    }
                } else {
                    assert(l2[p] == items[j]);
                }
            }
            assert forall|a: int, b: int| 0 <= a < b < l2.len() implies key(#[trigger] l2[a]) < key(#[trigger] l2[b]) by {
                if b < p {
                    assert(l2[a] == l[a] && l2[b] == l[b]);
                } else if b == p {
                    assert(l2[a] == l[a]);
                } else if a < p {
                    assert(l2[a] == l[a] && l2[b] == l[b - 1]);
                } else if a == p {
                    assert(l2[b] == l[b - 1]);
                } else {
                    assert(l2[a] == l[a - 1] && l2[b] == l[b - 1]);
                }
            }
            assert(lists_in_order(l2, items, keep, key));
        }
    }
}

/// a list in order is the one list in order with its members: two lists of the same items, taken by the same test and put in the order of the same key, are the same list
pub proof fn lemma_lists_in_order_unique<T>(
    a: Seq<T>,
    b: Seq<T>,
    items: Seq<T>,
    keep: spec_fn(T) -> bool,
    key: spec_fn(T) -> int,
)
    requires
        lists_in_order(a, items, keep, key),
        lists_in_order(b, items, keep, key),
    ensures
        a == b,
{
    assert forall|x: T| a.contains(x) <==> b.contains(x) by {
        if a.contains(x) {
            let i = choose|i: int| 0 <= i < a.len() && a[i] == x;
            assert(keep(a[i]) && items.contains(a[i]));
            let j = choose|j: int| 0 <= j < items.len() && items[j] == x;
            assert(keep(items[j]));
        }
        if b.contains(x) {
            let i = choose|i: int| 0 <= i < b.len() && b[i] == x;
            assert(keep(b[i]));
            assert(items.contains(b[i]));
            let j = choose|j: int| 0 <= j < items.len() && items[j] == x;
            assert(keep(items[j]));
            assert(a.contains(items[j]));
        }
    }
    lemma_sorted_same_members(a, b, key);
}

/// the item a mark names and the message when it names none
pub open spec fn mark_lookup(
    tasks: Seq<Task>,
    markable: Seq<ThingsId>,
    sorted: Seq<ThingsId>,
    identifier: Seq<char>,
) -> (Option<Task>, Seq<char>) {
    let expected = mark_resolution(tasks, markable, identifier);
    if expected.0 is None && expected.2.len() == 0 && names_trashed(tasks, sorted, identifier) {
        let trashed = task_with_bytes(tasks, task_resolution(tasks, sorted, identifier).0->0)->0;
        (None, "Item is in the Trash: "@ + sanitize(trashed.title@, Shown::Field))
    } else {
        (
            match expected.0 {
                Some(b) => task_with_bytes(tasks, b),
                None => None,
            },
            expected.1,
        )
    }
}

} // verus!
