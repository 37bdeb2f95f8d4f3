//! the list of open projects, grouped by the area each is in, and the plan of a new project

use crate::calendar::{day_timestamp, day_timestamp_spec, invalid_day_message, parse_day, parsed_day};
use crate::common::{crc32_of, task6_note, trim_spec, trimmed, StructuredNote};
use crate::edit_task::{named, named_of};
use crate::find::{lowercased, same_text, to_lowercase};
use crate::store::entities::{Area, Instant, Task};
use crate::store::{area_resolution};
use crate::wire::{EntityType, TaskStart};
use vstd::string::StringSliceAdditionalSpecFns;
use crate::store::order::order_by;
use crate::store::{area_with, held, in_projects_list, lemma_position_key, lists_in_order, position_key, task_position, ThingsStore};
use crate::ids::things_id::ThingsId;
use crate::wire::TaskStatus;
use vstd::prelude::*;

verus! {

/// where an area's group stands in the list: by the area's index, an area the store does not
/// have after every index, and areas of one index in the order of their ids
pub open spec fn area_rank(areas: Seq<Area>, id: ThingsId) -> int {
    position_key(
        match area_with(areas, id) {
            Some(a) => a.index,
            None => i32::MAX,
        },
        id,
    )
}

/// the projects of the list that are in no area, in the order of the list
pub open spec fn without_area(projects: Seq<Task>) -> Seq<Task> {
    projects.filter(|t: Task| t.area is None)
}

/// the projects of the list in the area, in the order of the list
pub open spec fn in_area(projects: Seq<Task>, id: ThingsId) -> Seq<Task> {
    projects.filter(|t: Task| t.area matches Some(a) && a@ == id@)
}

/// the open projects, grouped: the list itself, those in no area, and one group per area, each
/// with its projects
pub struct ProjectGroups<'a> {
    pub projects: Vec<&'a Task>,
    pub no_area: Vec<&'a Task>,
    pub areas: Vec<(ThingsId, Vec<&'a Task>)>,
}

/// the list holds the id
pub open spec fn holds_area(ids: Seq<ThingsId>, id: ThingsId) -> bool {
    exists|k: int| 0 <= k < ids.len() && (#[trigger] ids[k])@ == id@
}

/// the id is in the list
fn holds(ids: &Vec<ThingsId>, id: &ThingsId) -> (found: bool)
    ensures
        found == holds_area(ids@, *id),
{
    let mut k: usize = 0;
    while k < ids.len()
        invariant
            k <= ids@.len(),
            forall|m: int| 0 <= m < k ==> (#[trigger] ids@[m])@ != id@,
        decreases ids@.len() - k,
    {
        if ids[k] == *id {
            assert(ids@[k as int]@ == id@);
            return true;
        }
        k += 1;
    }
    false
}

/// the projects of the list in the area, in its order
fn gather<'a>(projects: &Vec<&'a Task>, id: ThingsId) -> (group: Vec<&'a Task>)
    ensures
        held(group@) == in_area(held(projects@), id),
{
    let mut group: Vec<&'a Task> = Vec::new();
    let mut j: usize = 0;
    while j < projects.len()
        invariant
            j <= projects@.len(),
            held(group@) == in_area(held(projects@).take(j as int), id),
        decreases projects@.len() - j,
    {
        let p = projects[j];
        proof {
            reveal_with_fuel(Seq::<_>::filter, 1);
            assert(held(projects@).take(j + 1).drop_last() =~= held(projects@).take(j as int));
            assert(held(projects@).take(j + 1).last() == *p);
        }
        let inside = match p.area {
            Some(a) => a == id,
            None => false,
        };
        if inside {
            group.push(p);
            assert(held(group@) =~= held(group@).drop_last().push(*p));
        }
        j += 1;
    }
    assert(held(projects@).take(projects@.len() as int) =~= held(projects@));
    group
}

impl ThingsStore {
    /// the index an area's group is ranked by, past every index where the store has no such area
    fn area_rank_index(&self, id: &ThingsId) -> (index: i32)
        ensures
            index == match area_with(self.areas@, *id) {
                Some(a) => a.index,
                None => i32::MAX,
            },
    {
        match self.area(id) {
            Some(a) => a.index,
            None => i32::MAX,
        }
    }

    /// the open projects as the list of projects shows them: the list in its order, those in no
    /// area, and one group for each area a project is in, the groups in the order of the areas
    pub fn project_groups<'a>(&'a self) -> (groups: ProjectGroups<'a>)
        requires
            self.well_formed(),
        ensures
            lists_in_order(
                held(groups.projects@),
                self.tasks@,
                |t: Task| in_projects_list(t, Some(TaskStatus::Incomplete)),
                |t: Task| task_position(t),
            ),
            held(groups.no_area@) == without_area(held(groups.projects@)),
            forall|k1: int, k2: int|
                0 <= k1 < k2 < groups.areas@.len() ==> (#[trigger] groups.areas@[k1]).0@ != (
                #[trigger] groups.areas@[k2]).0@,
            forall|k: int|
                0 <= k < groups.areas@.len() ==> held((#[trigger] groups.areas@[k]).1@) == in_area(
                    held(groups.projects@),
                    groups.areas@[k].0,
                ) && groups.areas@[k].1@.len() > 0,
            forall|j: int|
                0 <= j < groups.projects@.len() && (#[trigger] groups.projects@[j]).area is Some ==> holds_area(
                    groups.areas@.map_values(|g: (ThingsId, Vec<&Task>)| g.0),
                    groups.projects@[j].area->0,
                ),
            forall|k1: int, k2: int|
                0 <= k1 < k2 < groups.areas@.len() ==> area_rank(self.areas@, (#[trigger] groups.areas@[k1]).0)
                    < area_rank(self.areas@, (#[trigger] groups.areas@[k2]).0),
    {
        let projects = self.projects(Some(TaskStatus::Incomplete));
        let ghost list = held(projects@);
        let mut no_area: Vec<&'a Task> = Vec::new();
        let mut ids: Vec<ThingsId> = Vec::new();
        let mut j: usize = 0;
        while j < projects.len()
            invariant
                j <= projects@.len(),
                list == held(projects@),
                held(no_area@) == without_area(list.take(j as int)),
                forall|a: int, b: int| 0 <= a < b < ids@.len() ==> (#[trigger] ids@[a])@ != (#[trigger] ids@[b])@,
                forall|m: int| 0 <= m < j && list[m].area is Some ==> holds_area(ids@, (#[trigger] list[m]).area->0),
                forall|k: int| 0 <= k < ids@.len() ==> in_area(list, #[trigger] ids@[k]).len() > 0,
            decreases projects@.len() - j,
        {
            let p = projects[j];
            proof {
                reveal_with_fuel(Seq::<_>::filter, 1);
                assert(list.take(j + 1).drop_last() =~= list.take(j as int));
                assert(list.take(j + 1).last() == *p);
            }
            match p.area {
                None => {
                    no_area.push(p);
                    assert(held(no_area@) =~= held(no_area@).drop_last().push(*p));
                },
                Some(a) => {
                    if !holds(&ids, &a) {
                        proof {
                            assert(list[j as int] == *p);
                            assert(in_area(list, a).contains(*p)) by {
                                list.lemma_filter_contains(|t: Task| t.area matches Some(b) && b@ == a@, j as int);
                            }
                        }
                        let ghost before = ids@;
                        ids.push(a);
                        proof {
                            assert(ids@[before.len() as int]@ == a@);
                            assert forall|m: int| 0 <= m < j && list[m].area is Some implies holds_area(
                                ids@,
                                (#[trigger] list[m]).area->0,
                            ) by {
                                let w = choose|w: int| 0 <= w < before.len() && (#[trigger] before[w])@ == list[m].area->0@;
                                assert(ids@[w] == before[w]);
                            }
                            assert(list[j as int].area->0 == a);
                        }
                    }
                },
            }
            j += 1;
        }
        assert(list.take(projects@.len() as int) =~= list);
        let n = ids.len();
        let mut ranks: Vec<i32> = Vec::new();
        let mut k: usize = 0;
        while k < n
            invariant
                k <= n,
                n == ids@.len(),
                ranks@.len() == k,
                forall|m: int|
                    0 <= m < k ==> #[trigger] ranks@[m] == match area_with(self.areas@, ids@[m]) {
                        Some(a) => a.index,
                        None => i32::MAX,
                    },
            decreases n - k,
        {
            ranks.push(self.area_rank_index(&ids[k]));
            k += 1;
        }
        let ghost key = |i: int| area_rank(self.areas@, ids@[i]);
        let compare = |a: usize, b: usize| -> (r: bool)
            requires
                a < n,
                b < n,
            ensures
                r == (area_rank(self.areas@, ids@[a as int]) < area_rank(self.areas@, ids@[b as int])),
            {
                proof {
                    lemma_position_key(ranks@[a as int], ids@[a as int], ranks@[b as int], ids@[b as int]);
                }
                ranks[a] < ranks[b] || (ranks[a] == ranks[b] && ids[a].sorts_before(&ids[b]))
            };
        proof {
            assert forall|i: int, j: int| 0 <= i < n && 0 <= j < n && i != j implies #[trigger] key(i) != #[trigger] key(j) by {
                if i < j {
                    assert(ids@[i]@ != ids@[j]@);
                } else {
                    assert(ids@[j]@ != ids@[i]@);
                }
                lemma_position_key(ranks@[i], ids@[i], ranks@[j], ids@[j]);
            }
        }
        let order = order_by(n, compare, Ghost(key));
        let mut groups: Vec<(ThingsId, Vec<&'a Task>)> = Vec::new();
        let mut q: usize = 0;
        while q < n
            invariant
                q <= n,
                n == ids@.len(),
                order@.len() == n,
                list == held(projects@),
                forall|p: int| 0 <= p < n ==> #[trigger] order@[p] < n,
                groups@.len() == q,
                forall|i: int|
                    0 <= i < q ==> (#[trigger] groups@[i]).0 == ids@[order@[i] as int] && held(groups@[i].1@)
                        == in_area(list, groups@[i].0),
            decreases n - q,
        {
            let id = ids[order[q]];
            let group = gather(&projects, id);
            groups.push((id, group));
            q += 1;
        }
        proof {
            assert forall|i: int| 0 <= i < groups@.len() implies held((#[trigger] groups@[i]).1@) == in_area(
                list,
                groups@[i].0,
            ) && groups@[i].1@.len() > 0 by {
                assert(in_area(list, ids@[order@[i] as int]).len() > 0);
            }
            assert forall|m: int| 0 <= m < projects@.len() && (#[trigger] projects@[m]).area is Some implies holds_area(
                groups@.map_values(|g: (ThingsId, Vec<&Task>)| g.0),
                projects@[m].area->0,
            ) by {
                assert(list[m] == *projects@[m]);
                let a = list[m].area->0;
                assert(holds_area(ids@, a));
                let w = choose|w: int| 0 <= w < ids@.len() && (#[trigger] ids@[w])@ == a@;
                assert(order@.contains(w as usize));
                let k = choose|k: int| 0 <= k < order@.len() && order@[k] == w as usize;
                assert(groups@[k].0@ == a@);
                assert(groups@.map_values(|g: (ThingsId, Vec<&Task>)| g.0)[k] == groups@[k].0);
            }
            assert forall|k1: int, k2: int| 0 <= k1 < k2 < groups@.len() implies (#[trigger] groups@[k1]).0@
                != (#[trigger] groups@[k2]).0@ by {
                assert(key(order@[k1] as int) < key(order@[k2] as int));
            }
            assert forall|k1: int, k2: int| 0 <= k1 < k2 < groups@.len() implies area_rank(
                self.areas@,
                (#[trigger] groups@[k1]).0,
            ) < area_rank(self.areas@, (#[trigger] groups@[k2]).0) by {
                assert(key(order@[k1] as int) < key(order@[k2] as int));
            }
        }
        ProjectGroups { projects, no_area, areas: groups }
    }
}

/// the flags of a new project
pub struct ProjectsNewArgs {
    pub title: String,
    /// the area, by title or id prefix
    pub area: Option<String>,
    /// anytime, someday, today or a YYYY-MM-DD day
    pub when: Option<String>,
    pub notes: String,
    /// comma-separated tags, by title or id prefix
    pub tags: Option<String>,
    /// a YYYY-MM-DD day
    pub deadline_date: Option<String>,
}

/// a project the app makes: open, with its title, notes, area, start, day, tags and deadline,
/// written as `entity`, made and stamped at `creation_date`
pub struct NewProject {
    pub title: String,
    pub notes: StructuredNote,
    pub area: Option<ThingsId>,
    pub start: TaskStart,
    pub scheduled_date: Option<i64>,
    pub today_index_reference: Option<i64>,
    pub tag_ids: Vec<ThingsId>,
    pub deadline: Option<i64>,
    pub entity: EntityType,
    pub creation_date: Instant,
}

/// the project's start and day from `--when`, its text trimmed and lowercased, or the message refusing the day
pub open spec fn project_when(when: Option<String>, today_ts: i64) -> Result<(TaskStart, Option<i64>), Seq<char>> {
    match when {
        None => Ok((TaskStart::Anytime, None)),
        Some(raw) => {
            let word = lowercased(trim_spec(raw@));
            if word == "anytime"@ {
                Ok((TaskStart::Anytime, None))
            } else if word == "someday"@ {
                Ok((TaskStart::Someday, None))
            } else if word == "today"@ {
                Ok((TaskStart::Anytime, Some(today_ts)))
            } else {
                match parsed_day(raw@) {
                    None => Err(invalid_day_message(raw@, "--when"@)),
                    Some(n) => Ok((TaskStart::Someday, Some(day_timestamp_spec(n as int) as i64))),
                }
            }
        },
    }
}

/// the project's deadline from `--deadline`, or the message refusing the day
pub open spec fn project_deadline(deadline: Option<String>) -> Result<Option<i64>, Seq<char>> {
    match deadline {
        None => Ok(None),
        Some(raw) => match parsed_day(raw@) {
            None => Err(invalid_day_message(raw@, "--deadline"@)),
            Some(n) => Ok(Some(day_timestamp_spec(n as int) as i64)),
        },
    }
}

/// what a new project comes to: its title, area, start and day, tags and deadline, or the message
/// refusing it, the flags read in the order title, area, `--when`, tags, deadline
pub open spec fn project_new_outcome(store: ThingsStore, args: ProjectsNewArgs, today_ts: i64) -> Result<
    (Seq<char>, Option<Seq<u8>>, (TaskStart, Option<i64>), Seq<Seq<u8>>, Option<i64>),
    Seq<char>,
> {
    let title = trim_spec(args.title@);
    if title.len() == 0 {
        Err("Project title cannot be empty."@)
    } else {
        let area = match args.area {
            None => Ok(None),
            Some(raw) => {
                let found = area_resolution(store.areas@, store.area_ids_sorted@, raw@);
                match found.0 {
                    None => Err(found.1),
                    Some(bytes) => Ok(Some(bytes)),
                }
            },
        };
        match area {
            Err(message) => Err(message),
            Ok(area) => match project_when(args.when, today_ts) {
                Err(message) => Err(message),
                Ok(when) => {
                    let tags = match args.tags {
                        None => Ok(seq![]),
                        Some(raw) => named(store, raw@),
                    };
                    match tags {
                        Err(message) => Err(message),
                        Ok(tags) => match project_deadline(args.deadline_date) {
                            Err(message) => Err(message),
                            Ok(deadline) => Ok((title, area, when, tags, deadline)),
                        },
                    }
                },
            },
        }
    }
}

/// `--when` read for a project
fn when_of_project(when: &Option<String>, today_ts: i64) -> (res: Result<(TaskStart, Option<i64>), String>)
    ensures
        match project_when(*when, today_ts) {
            Ok(w) => res matches Ok(r) && r == w,
            Err(message) => res matches Err(m) && m@ == message,
        },
{
    let raw = match when {
        None => return Ok((TaskStart::Anytime, None)),
        Some(raw) => raw,
    };
    let cut = trimmed(raw.as_str());
    let word = to_lowercase(cut.as_str());
    if same_text(word.as_str(), "anytime") {
        return Ok((TaskStart::Anytime, None));
    }
    if same_text(word.as_str(), "someday") {
        return Ok((TaskStart::Someday, None));
    }
    if same_text(word.as_str(), "today") {
        return Ok((TaskStart::Anytime, Some(today_ts)));
    }
    match parse_day(raw.as_str(), "--when") {
        Ok(n) => Ok((TaskStart::Someday, Some(day_timestamp(n)))),
        Err(message) => Err(message),
    }
}

/// `--deadline` read for a project
fn deadline_of_project(deadline: &Option<String>) -> (res: Result<Option<i64>, String>)
    ensures
        match project_deadline(*deadline) {
            Ok(d) => res matches Ok(r) && r == d,
            Err(message) => res matches Err(m) && m@ == message,
        },
{
    match deadline {
        None => Ok(None),
        Some(raw) => match parse_day(raw.as_str(), "--deadline") {
            Ok(n) => Ok(Some(day_timestamp(n))),
            Err(message) => Err(message),
        },
    }
}

/// the plan of a new project: open, in the area named, started and dated as `--when` says, with
/// the tags and deadline named and its notes in the structured form, made at `now`; or the
/// message refusing it
///
/// `today_ts` is the timestamp of today's UTC midnight
pub fn project_new_plan(args: &ProjectsNewArgs, store: &ThingsStore, now: Instant, today_ts: i64) -> (plan: Result<
    NewProject,
    String,
>)
    requires
        store.well_formed(),
    ensures
        match project_new_outcome(*store, *args, today_ts) {
            Err(message) => plan matches Err(m) && m@ == message,
            Ok((title, area, when, tags, deadline)) => plan matches Ok(p) && p.title@ == title && (match area {
                None => p.area is None,
                Some(bytes) => p.area matches Some(id) && id@ == bytes,
            }) && p.start == when.0 && p.scheduled_date == when.1 && p.today_index_reference == when.1
                && crate::tag_names::id_bytes_of(p.tag_ids@) == tags && p.deadline == deadline,
        },
        plan matches Ok(p) ==> p.notes.value@ == args.notes@ && p.notes.checksum == crc32_of(
            vstd::utf8::encode_utf8(args.notes@),
        ) && p.notes.object_type@ == "tx"@ && p.notes.format_type == 1 && p.entity == EntityType::Task7
            && p.creation_date == now,
{
    let title = trimmed(args.title.as_str());
    if title.as_str().unicode_len() == 0 {
        return Err(String::from_str("Project title cannot be empty."));
    }
    let area = match &args.area {
        None => None,
        Some(raw) => {
            let (found, message, _) = store.resolve_area_identifier(raw.as_str());
            match found {
                Some(a) => Some(a.uuid),
                None => return Err(message),
            }
        },
    };
    proof {
        if args.area is Some {
            let found = area_resolution(store.areas@, store.area_ids_sorted@, args.area->0@);
            if found.0 is Some {
                crate::store::lemma_area_with_bytes_id(store.areas@, found.0->0);
            }
        }
    }
    let (start, day) = match when_of_project(&args.when, today_ts) {
        Ok(w) => w,
        Err(message) => return Err(message),
    };
    let tag_ids = match &args.tags {
        None => Vec::new(),
        Some(raw) => match named_of(store, raw.as_str()) {
            Ok(ids) => ids,
            Err(message) => return Err(message),
        },
    };
    let deadline = match deadline_of_project(&args.deadline_date) {
        Ok(d) => d,
        Err(message) => return Err(message),
    };
    let notes = task6_note(args.notes.as_str());
    Ok(
        NewProject {
            title,
            notes,
            area,
            start,
            scheduled_date: day,
            today_index_reference: day,
            tag_ids,
            deadline,
            entity: EntityType::Task7,
            creation_date: now,
        },
    )
}

} // verus!
