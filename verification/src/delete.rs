//! moving to-dos, projects and headings to the Trash, and deleting areas, with what each takes along
//!
//! every identifier is checked before anything is trashed, a batch lands whole or not at all

use crate::common::{one_line, sanitize, Shown};
use crate::ids::things_id::ThingsId;
use crate::store::entities::{is_project_spec, Instant, Task};
use crate::store::{
    held, area_resolution, area_with_bytes, effective_area, effective_project, holds_id, in_trash_spec,
    task_resolution, task_with, task_with_bytes, ThingsStore,
};
use crate::wire::{EntityType, TaskType};
use vstd::prelude::*;

verus! {

/// an item a delete names: its id, whether it is an area, its title and how many items it takes along
pub struct DeleteTarget {
    pub uuid: ThingsId,
    pub is_area: bool,
    pub title: String,
    pub taken: usize,
}

/// one write of a delete: the trash flag on a task, or the deletion of an area
#[derive(Debug, Clone, Copy, PartialEq)]
pub struct DeleteChange {
    pub uuid: ThingsId,
    pub deletes_area: bool,
}

/// a delete ready to write: the items named, in order, and every write, one per id
pub struct DeletePlan {
    pub targets: Vec<DeleteTarget>,
    pub changes: Vec<DeleteChange>,
    /// the entity a to-do, project or heading is trashed as; an area is deleted as `Area3`
    pub task_entity: EntityType,
    /// the instant every trashing is stamped with
    pub modification_date: Instant,
}

/// an item named so far: its id, whether it is an area, and its title
pub type Named = (ThingsId, bool, Seq<char>);

/// why a repeater blocks a delete
pub open spec fn repeater_block(task: Task) -> Seq<char> {
    "Task7 repeater tasks are blocked from deletion until repeater bookkeeping is supported: "@ + sanitize(
        task.title@,
        Shown::Field,
    )
}

/// the id is among the items named so far
pub open spec fn named_id(named: Seq<Named>, id: ThingsId) -> bool {
    exists|k: int| 0 <= k < named.len() && #[trigger] named[k].0@ == id@
}

/// the items named after one more identifier, or the message that refuses the whole delete
///
/// several candidates of one kind count as a match, the other kind cannot take the identifier then
pub open spec fn name_step(
    tasks: Seq<Task>,
    areas: Seq<crate::store::entities::Area>,
    sorted_tasks: Seq<ThingsId>,
    sorted_areas: Seq<ThingsId>,
    upgradable: Seq<ThingsId>,
    identifier: Seq<char>,
    named: Seq<Named>,
) -> Result<Seq<Named>, Seq<char>> {
    let found = task_resolution(tasks, sorted_tasks, identifier);
    let found_area = area_resolution(areas, sorted_areas, identifier);
    let task_match = found.0 is Some || found.2.len() > 0;
    let area_match = found_area.0 is Some || found_area.2.len() > 0;
    if task_match && area_match {
        Err("Ambiguous identifier '"@ + identifier + "' (matches tasks and areas)."@)
    } else if found.0 is None && found_area.0 is None {
        Err(
            if found.2.len() > 0 {
                found.1
            } else if found_area.2.len() > 0 {
                found_area.1
            } else {
                "Item not found: "@ + identifier
            },
        )
    } else if found.0 is Some {
        let task = task_with_bytes(tasks, found.0->0)->0;
        if !holds_id(upgradable, task.uuid) {
            Err("Unsupported task entity for deletion: "@ + task.entity@)
        } else if in_trash_spec(tasks, task) {
            Err("Item already deleted: "@ + sanitize(task.title@, Shown::Field))
        } else if task.repeater is Some {
            Err(repeater_block(task))
        } else if named_id(named, task.uuid) {
            Ok(named)
        } else {
            Ok(named.push((task.uuid, false, task.title@)))
        }
    } else {
        let area = area_with_bytes(areas, found_area.0->0)->0;
        if named_id(named, area.uuid) {
            Ok(named)
        } else {
            Ok(named.push((area.uuid, true, area.title@)))
        }
    }
}

/// the items the first `n` identifiers name, each once in the order first named, or the message of the first identifier refused
pub open spec fn named_items(
    tasks: Seq<Task>,
    areas: Seq<crate::store::entities::Area>,
    sorted_tasks: Seq<ThingsId>,
    sorted_areas: Seq<ThingsId>,
    upgradable: Seq<ThingsId>,
    identifiers: Seq<&str>,
    n: int,
) -> Result<Seq<Named>, Seq<char>>
    decreases n,
{
    if n <= 0 {
        Ok(seq![])
    } else {
        match named_items(tasks, areas, sorted_tasks, sorted_areas, upgradable, identifiers, n - 1) {
            Err(message) => Err(message),
            Ok(named) => name_step(
                tasks,
                areas,
                sorted_tasks,
                sorted_areas,
                upgradable,
                identifiers[n - 1]@,
                named,
            ),
        }
    }
}

/// the writes as pairs of the id and whether the write deletes an area
pub open spec fn change_pairs(changes: Seq<DeleteChange>) -> Seq<(ThingsId, bool)> {
    changes.map_values(|c: DeleteChange| (c.uuid, c.deletes_area))
}

/// the position of the write for an id among the first `n`
pub open spec fn change_at(changes: Seq<(ThingsId, bool)>, id: ThingsId, n: int) -> Option<int>
    decreases n,
{
    if n <= 0 {
        None
    } else {
        match change_at(changes, id, n - 1) {
            Some(p) => Some(p),
            None => if changes[n - 1].0@ == id@ {
                Some(n - 1)
            } else {
                None
            },
        }
    }
}

/// the writes with one more: a write for an id already written replaces it in place, another comes last
pub open spec fn with_change(changes: Seq<(ThingsId, bool)>, id: ThingsId, deletes_area: bool) -> Seq<(ThingsId, bool)> {
    match change_at(changes, id, changes.len() as int) {
        Some(p) => changes.update(p, (changes[p].0, deletes_area)),
        None => changes.push((id, deletes_area)),
    }
}

/// what a target takes along: a project everything whose effective project it is, a heading the to-dos under it, an area everything whose effective area it is, each outside the Trash
pub open spec fn is_content(tasks: Seq<Task>, parent: ThingsId, in_area: bool, heading: bool, task: Task) -> bool {
    &&& !in_trash_spec(tasks, task)
    &&& task.uuid@ != parent@
    &&& if in_area {
        effective_area(tasks, task) matches Some(a) && a@ == parent@
    } else if heading {
        task.action_group matches Some(g) && g@ == parent@
    } else {
        effective_project(tasks, task) matches Some(p) && p@ == parent@
    }
}

/// the writes and the count taken along after the tasks of the first `j` sorted ids, or the message of the first content a repeater blocks
pub open spec fn take_contents(
    tasks: Seq<Task>,
    sorted: Seq<ThingsId>,
    parent: ThingsId,
    in_area: bool,
    heading: bool,
    j: int,
    start: (Seq<(ThingsId, bool)>, nat),
) -> Result<(Seq<(ThingsId, bool)>, nat), Seq<char>>
    decreases j,
{
    if j <= 0 {
        Ok(start)
    } else {
        match take_contents(tasks, sorted, parent, in_area, heading, j - 1, start) {
            Err(message) => Err(message),
            Ok((changes, taken)) => match task_with(tasks, sorted[j - 1]) {
                None => Ok((changes, taken)),
                Some(task) => if !is_content(tasks, parent, in_area, heading, task) {
                    Ok((changes, taken))
                } else if task.repeater is Some {
                    Err(repeater_block(task))
                } else {
                    Ok(
                        (
                            with_change(changes, task.uuid, false),
                            if change_at(changes, task.uuid, changes.len() as int) is None {
                                taken + 1
                            } else {
                                taken
                            },
                        ),
                    )
                },
            },
        }
    }
}

/// the writes and the counts taken along after the first `k` targets, or the message of the first content a repeater blocks
pub open spec fn plan_writes(tasks: Seq<Task>, sorted: Seq<ThingsId>, named: Seq<Named>, k: int) -> Result<
    (Seq<(ThingsId, bool)>, Seq<nat>),
    Seq<char>,
>
    decreases k,
{
    if k <= 0 {
        Ok((seq![], seq![]))
    } else {
        match plan_writes(tasks, sorted, named, k - 1) {
            Err(message) => Err(message),
            Ok((changes, counts)) => {
                let (id, in_area, _) = named[k - 1];
                let own = with_change(changes, id, in_area);
                let heading = task_with(tasks, id) matches Some(t) && t.item_type == TaskType::Heading;
                let project = task_with(tasks, id) matches Some(t) && is_project_spec(t);
                if in_area || heading || project {
                    match take_contents(tasks, sorted, id, in_area, heading, sorted.len() as int, (own, 0)) {
                        Err(message) => Err(message),
                        Ok((after, taken)) => Ok((after, counts.push(taken))),
                    }
                } else {
                    Ok((own, counts.push(0)))
                }
            },
        }
    }
}

/// what a delete does: every identifier resolved, then the writes of each target and what it takes along, or the first message
pub open spec fn delete_outcome(
    tasks: Seq<Task>,
    areas: Seq<crate::store::entities::Area>,
    sorted_tasks: Seq<ThingsId>,
    sorted_areas: Seq<ThingsId>,
    upgradable: Seq<ThingsId>,
    identifiers: Seq<&str>,
) -> Result<(Seq<Named>, Seq<nat>, Seq<(ThingsId, bool)>), Seq<char>> {
    match named_items(tasks, areas, sorted_tasks, sorted_areas, upgradable, identifiers, identifiers.len() as int) {
        Err(message) => Err(message),
        Ok(named) => match plan_writes(tasks, sorted_tasks, named, named.len() as int) {
            Err(message) => Err(message),
            Ok((changes, counts)) => Ok((named, counts, changes)),
        },
    }
}

/// the targets as named items
pub open spec fn named_of(targets: Seq<DeleteTarget>) -> Seq<Named> {
    targets.map_values(|t: DeleteTarget| (t.uuid, t.is_area, t.title@))
}

/// the counts the targets take along
pub open spec fn counts_of(targets: Seq<DeleteTarget>) -> Seq<nat> {
    targets.map_values(|t: DeleteTarget| t.taken as nat)
}

/// a failure among the first items stays the failure as more come
proof fn lemma_named_stays_failed(
    tasks: Seq<Task>,
    areas: Seq<crate::store::entities::Area>,
    sorted_tasks: Seq<ThingsId>,
    sorted_areas: Seq<ThingsId>,
    upgradable: Seq<ThingsId>,
    identifiers: Seq<&str>,
    from: int,
    to: int,
)
    requires
        1 <= from <= to,
        named_items(tasks, areas, sorted_tasks, sorted_areas, upgradable, identifiers, from) is Err,
    ensures
        named_items(tasks, areas, sorted_tasks, sorted_areas, upgradable, identifiers, to) == named_items(
            tasks,
            areas,
            sorted_tasks,
            sorted_areas,
            upgradable,
            identifiers,
            from,
        ),
    decreases to - from,
{
    if from < to {
        lemma_named_stays_failed(tasks, areas, sorted_tasks, sorted_areas, upgradable, identifiers, from, to - 1);
    }
}

/// a failure among the first contents stays the failure as more come
proof fn lemma_contents_stay_failed(
    tasks: Seq<Task>,
    sorted: Seq<ThingsId>,
    parent: ThingsId,
    in_area: bool,
    heading: bool,
    from: int,
    to: int,
    start: (Seq<(ThingsId, bool)>, nat),
)
    requires
        1 <= from <= to,
        take_contents(tasks, sorted, parent, in_area, heading, from, start) is Err,
    ensures
        take_contents(tasks, sorted, parent, in_area, heading, to, start) == take_contents(
            tasks,
            sorted,
            parent,
            in_area,
            heading,
            from,
            start,
        ),
    decreases to - from,
{
    if from < to {
        lemma_contents_stay_failed(tasks, sorted, parent, in_area, heading, from, to - 1, start);
    }
}

/// a failure among the first targets stays the failure as more come
proof fn lemma_writes_stay_failed(tasks: Seq<Task>, sorted: Seq<ThingsId>, named: Seq<Named>, from: int, to: int)
    requires
        1 <= from <= to,
        plan_writes(tasks, sorted, named, from) is Err,
    ensures
        plan_writes(tasks, sorted, named, to) == plan_writes(tasks, sorted, named, from),
    decreases to - from,
{
    if from < to {
        lemma_writes_stay_failed(tasks, sorted, named, from, to - 1);
    }
}

/// the id is among the items named so far
fn holds_named(targets: &Vec<DeleteTarget>, id: &ThingsId) -> (found: bool)
    ensures
        found == named_id(named_of(targets@), *id),
{
    let mut k: usize = 0;
    while k < targets.len()
        invariant
            k <= targets@.len(),
            forall|m: int| 0 <= m < k ==> named_of(targets@)[m].0@ != id@,
        decreases targets@.len() - k,
    {
        if targets[k].uuid == *id {
            assert(named_of(targets@)[k as int].0@ == id@);
            return true;
        }
        k += 1;
    }
    false
}

/// the position of the write for an id
fn position_of_change(changes: &Vec<DeleteChange>, id: &ThingsId) -> (found: Option<usize>)
    ensures
        match change_at(change_pairs(changes@), *id, changes@.len() as int) {
            Some(q) => found matches Some(f) && f as int == q,
            None => found is None,
        },
        found matches Some(p) ==> p < changes@.len(),
        change_at(change_pairs(changes@), *id, changes@.len() as int) matches Some(p) ==> 0 <= p < changes@.len(),
{
    proof {
        lemma_change_at_bound(change_pairs(changes@), *id, changes@.len() as int);
    }
    let mut k: usize = 0;
    while k < changes.len()
        invariant
            k <= changes@.len(),
            change_at(change_pairs(changes@), *id, k as int) is None,
        decreases changes@.len() - k,
    {
        if changes[k].uuid == *id {
            proof {
                lemma_change_at_stays(change_pairs(changes@), *id, k + 1, changes@.len() as int);
            }
            return Some(k);
        }
        k += 1;
    }
    None
}

/// a write found among the first `n` is one of them
proof fn lemma_change_at_bound(changes: Seq<(ThingsId, bool)>, id: ThingsId, n: int)
    ensures
        change_at(changes, id, n) matches Some(p) ==> 0 <= p < n,
    decreases n,
{
    if n > 0 {
        lemma_change_at_bound(changes, id, n - 1);
    }
}

/// a write found among the first ones stays the one found
proof fn lemma_change_at_stays(changes: Seq<(ThingsId, bool)>, id: ThingsId, from: int, to: int)
    requires
        1 <= from <= to,
        change_at(changes, id, from) is Some,
    ensures
        change_at(changes, id, to) == change_at(changes, id, from),
    decreases to - from,
{
    if from < to {
        lemma_change_at_stays(changes, id, from, to - 1);
    }
}

/// a write for an id: in place of an earlier one for the same id, or last; whether it was new
fn put_change(changes: &mut Vec<DeleteChange>, id: ThingsId, deletes_area: bool) -> (added: bool)
    ensures
        change_pairs(final(changes)@) == with_change(change_pairs(old(changes)@), id, deletes_area),
        added == (change_at(change_pairs(old(changes)@), id, old(changes)@.len() as int) is None),
{
    match position_of_change(changes, &id) {
        Some(p) => {
            let kept = changes[p].uuid;
            let ghost before = changes@;
            changes.set(p, DeleteChange { uuid: kept, deletes_area });
            assert(change_pairs(changes@) =~= change_pairs(before).update(p as int, (kept, deletes_area)));
            proof {
                let pairs = change_pairs(before);
                assert(pairs.len() == before.len());
                assert(change_at(pairs, id, pairs.len() as int) == Some(p as int));
                assert(pairs[p as int].0 == kept);
                assert(with_change(pairs, id, deletes_area) == pairs.update(p as int, (kept, deletes_area)));
            }
            false
        },
        None => {
            let ghost before = changes@;
            changes.push(DeleteChange { uuid: id, deletes_area });
            assert(change_pairs(changes@) =~= change_pairs(before).push((id, deletes_area)));
            true
        },
    }
}

impl ThingsStore {
    /// the task is taken along by a target
    fn is_content(&self, parent: &ThingsId, in_area: bool, heading: bool, task: &Task) -> (taken: bool)
        ensures
            taken == is_content(self.tasks@, *parent, in_area, heading, *task),
    {
        if self.in_trash(task) || task.uuid == *parent {
            return false;
        }
        if in_area {
            match self.effective_area_uuid(task) {
                Some(a) => a == *parent,
                None => false,
            }
        } else if heading {
            match task.action_group {
                Some(g) => g == *parent,
                None => false,
            }
        } else {
            match self.effective_project_uuid(task) {
                Some(p) => p == *parent,
                None => false,
            }
        }
    }

    /// the writes for what a target takes along, in the order of the ids, and how many are new
    fn take_contents(
        &self,
        parent: &ThingsId,
        in_area: bool,
        heading: bool,
        changes: &mut Vec<DeleteChange>,
    ) -> (taken: Result<usize, String>)
        ensures
            match take_contents(
                self.tasks@,
                self.task_ids_sorted@,
                *parent,
                in_area,
                heading,
                self.task_ids_sorted@.len() as int,
                (change_pairs(old(changes)@), 0),
            ) {
                Err(message) => taken matches Err(m) && m@ == message,
                Ok((after, count)) => taken matches Ok(n) && n == count && change_pairs(final(changes)@) == after,
            },
    {
        let ghost start = (change_pairs(changes@), 0nat);
        let ghost sorted = self.task_ids_sorted@;
        let mut taken: usize = 0;
        let mut j: usize = 0;
        while j < self.task_ids_sorted.len()
            invariant
                j <= sorted.len(),
                sorted == self.task_ids_sorted@,
                start == (change_pairs(old(changes)@), 0nat),
                taken <= j,
                take_contents(self.tasks@, sorted, *parent, in_area, heading, j as int, start) == Ok::<
                    (Seq<(ThingsId, bool)>, nat),
                    Seq<char>,
                >((change_pairs(changes@), taken as nat)),
            decreases sorted.len() - j,
        {
            let id = self.task_ids_sorted[j];
            match self.task(&id) {
                None => {},
                Some(task) => {
                    if self.is_content(parent, in_area, heading, task) {
                        if task.has_repeater() {
                            let mut message = String::from_str(
                                "Task7 repeater tasks are blocked from deletion until repeater bookkeeping is supported: ",
                            );
                            message.append(one_line(task.title.as_str()).as_str());
                            proof {
                                assert(task_with(self.tasks@, sorted[j as int]) == Some(*task));
                                assert(take_contents(self.tasks@, sorted, *parent, in_area, heading, j + 1, start) == Err::<
                                    (Seq<(ThingsId, bool)>, nat),
                                    Seq<char>,
                                >(repeater_block(*task)));
                                assert(message@ == repeater_block(*task));
                                lemma_contents_stay_failed(
                                    self.tasks@,
                                    sorted,
                                    *parent,
                                    in_area,
                                    heading,
                                    j + 1,
                                    sorted.len() as int,
                                    start,
                                );
                                assert(start == (change_pairs(old(changes)@), 0nat));
                                assert(take_contents(
                                    self.tasks@,
                                    self.task_ids_sorted@,
                                    *parent,
                                    in_area,
                                    heading,
                                    self.task_ids_sorted@.len() as int,
                                    (change_pairs(old(changes)@), 0nat),
                                ) == Err::<(Seq<(ThingsId, bool)>, nat), Seq<char>>(message@));
                            }
                            return Err(message);
                        }
                        if put_change(changes, task.uuid, false) {
                            taken = taken + 1;
                        }
                    }
                },
            }
            j += 1;
        }
        Ok(taken)
    }

    /// the target an identifier names, added to those named unless named before, or the message refusing the delete
    fn name_one(&self, identifier: &str, targets: &mut Vec<DeleteTarget>) -> (refused: Option<String>)
        requires
            self.well_formed(),
        ensures
            match name_step(
                self.tasks@,
                self.areas@,
                self.task_ids_sorted@,
                self.area_ids_sorted@,
                self.upgradable_ids@,
                identifier@,
                named_of(old(targets)@),
            ) {
                Err(message) => refused matches Some(m) && m@ == message,
                Ok(named) => refused is None && named_of(final(targets)@) == named && counts_of(final(targets)@)
                    == counts_of(old(targets)@).push(0nat) || refused is None && named == named_of(old(targets)@)
                    && final(targets)@ == old(targets)@,
            },
    {
        let (task, task_message, task_candidates) = self.resolve_task_identifier(identifier);
        let (area, area_message, area_candidates) = self.resolve_area_identifier(identifier);
        let task_match = task.is_some() || task_candidates.len() > 0;
        let area_match = area.is_some() || area_candidates.len() > 0;
        proof {
            let found = task_resolution(self.tasks@, self.task_ids_sorted@, identifier@);
            let found_area = area_resolution(self.areas@, self.area_ids_sorted@, identifier@);
            assert(held(task_candidates@).len() == found.2.len());
            assert(task_candidates@.len() == found.2.len());
            assert(held(area_candidates@).len() == found_area.2.len());
            assert(area_candidates@.len() == found_area.2.len());
            assert(task_match == (found.0 is Some || found.2.len() > 0));
            assert(area_match == (found_area.0 is Some || found_area.2.len() > 0));
        }
        if task_match && area_match {
            let mut message = String::from_str("Ambiguous identifier '");
            message.append(identifier);
            message.append("' (matches tasks and areas).");
            return Some(message);
        }
        if task.is_none() && area.is_none() {
            if task_candidates.len() > 0 {
                return Some(task_message);
            }
            if area_candidates.len() > 0 {
                return Some(area_message);
            }
            let mut message = String::from_str("Item not found: ");
            message.append(identifier);
            return Some(message);
        }
        match task {
            Some(task) => {
                if !self.can_upgrade_to_task7(task) {
                    let mut message = String::from_str("Unsupported task entity for deletion: ");
                    message.append(task.entity.as_str());
                    return Some(message);
                }
                if self.in_trash(task) {
                    let mut message = String::from_str("Item already deleted: ");
                    message.append(one_line(task.title.as_str()).as_str());
                    return Some(message);
                }
                if task.has_repeater() {
                    let mut message = String::from_str(
                        "Task7 repeater tasks are blocked from deletion until repeater bookkeeping is supported: ",
                    );
                    message.append(one_line(task.title.as_str()).as_str());
                    return Some(message);
                }
                if !holds_named(targets, &task.uuid) {
                    let ghost before = targets@;
                    targets.push(DeleteTarget { uuid: task.uuid, is_area: false, title: task.title.clone(), taken: 0 });
                    assert(named_of(targets@) =~= named_of(before).push((task.uuid, false, task.title@)));
                    assert(counts_of(targets@) =~= counts_of(before).push(0nat));
                }
                None
            },
            None => {
                let area = match area {
                    Some(area) => area,
                    None => return None,
                };
                if !holds_named(targets, &area.uuid) {
                    let ghost before = targets@;
                    targets.push(DeleteTarget { uuid: area.uuid, is_area: true, title: area.title.clone(), taken: 0 });
                    assert(named_of(targets@) =~= named_of(before).push((area.uuid, true, area.title@)));
                    assert(counts_of(targets@) =~= counts_of(before).push(0nat));
                }
                None
            },
        }
    }
}

/// the plan of a delete: every identifier resolved to a to-do, project, heading or area, each once, then the trash flag on each task and the deletion of each area, with what each takes along
///
/// any identifier that names nothing, both kinds, a task the writes cannot upgrade, one already in the Trash or one with a repeater refuses the whole delete, as does a repeater among what a target takes along
pub fn delete_plan(store: &ThingsStore, identifiers: &[&str], now: Instant) -> (plan: Result<DeletePlan, String>)
    requires
        store.well_formed(),
    ensures
        plan matches Ok(p) ==> p.task_entity == EntityType::Task7 && p.modification_date == now,
        match delete_outcome(
            store.tasks@,
            store.areas@,
            store.task_ids_sorted@,
            store.area_ids_sorted@,
            store.upgradable_ids@,
            identifiers@,
        ) {
            Err(message) => plan matches Err(m) && m@ == message,
            Ok((named, counts, changes)) => plan matches Ok(p) && named_of(p.targets@) == named && counts_of(
                p.targets@,
            ) == counts && change_pairs(p.changes@) == changes,
        },
{
    let ghost tasks = store.tasks@;
    let ghost areas = store.areas@;
    let ghost sorted_tasks = store.task_ids_sorted@;
    let ghost sorted_areas = store.area_ids_sorted@;
    let ghost upgradable = store.upgradable_ids@;
    let mut targets: Vec<DeleteTarget> = Vec::new();
    assert(named_of(targets@) =~= Seq::<Named>::empty());
    let mut i: usize = 0;
    while i < identifiers.len()
        invariant
            i <= identifiers@.len(),
            store.well_formed(),
            tasks == store.tasks@,
            areas == store.areas@,
            sorted_tasks == store.task_ids_sorted@,
            sorted_areas == store.area_ids_sorted@,
            upgradable == store.upgradable_ids@,
            named_items(tasks, areas, sorted_tasks, sorted_areas, upgradable, identifiers@, i as int) == Ok::<
                Seq<Named>,
                Seq<char>,
            >(named_of(targets@)),
            forall|k: int| 0 <= k < targets@.len() ==> #[trigger] targets@[k].taken == 0,
        decreases identifiers@.len() - i,
    {
        let ghost before = targets@;
        match store.name_one(identifiers[i], &mut targets) {
            Some(message) => {
                proof {
                    lemma_named_stays_failed(
                        tasks,
                        areas,
                        sorted_tasks,
                        sorted_areas,
                        upgradable,
                        identifiers@,
                        i + 1,
                        identifiers@.len() as int,
                    );
                }
                return Err(message);
            },
            None => {
                proof {
                    if targets@ != before {
                        assert(counts_of(targets@) == counts_of(before).push(0nat));
                        assert forall|k: int| 0 <= k < targets@.len() implies #[trigger] targets@[k].taken == 0 by {
                            assert(counts_of(targets@)[k] == targets@[k].taken as nat);
                            if k < before.len() {
                                assert(counts_of(before)[k] == before[k].taken as nat);
                            }
                        }
                    }
                }
            },
        }
        i += 1;
    }
    let ghost named = named_of(targets@);
    let mut changes: Vec<DeleteChange> = Vec::new();
    assert(change_pairs(changes@) =~= Seq::<(ThingsId, bool)>::empty());
    assert(counts_of(targets@).take(0) =~= Seq::<nat>::empty());
    let mut k: usize = 0;
    while k < targets.len()
        invariant
            k <= targets@.len(),
            store.well_formed(),
            tasks == store.tasks@,
            sorted_tasks == store.task_ids_sorted@,
            areas == store.areas@,
            sorted_areas == store.area_ids_sorted@,
            upgradable == store.upgradable_ids@,
            named_items(tasks, areas, sorted_tasks, sorted_areas, upgradable, identifiers@, identifiers@.len() as int)
                == Ok::<Seq<Named>, Seq<char>>(named),
            named == named_of(targets@),
            plan_writes(tasks, sorted_tasks, named, k as int) == Ok::<
                (Seq<(ThingsId, bool)>, Seq<nat>),
                Seq<char>,
            >((change_pairs(changes@), counts_of(targets@).take(k as int))),
        decreases targets@.len() - k,
    {
        let id = targets[k].uuid;
        let in_area = targets[k].is_area;
        assert(named[k as int] == (id, in_area, targets@[k as int].title@));
        put_change(&mut changes, id, in_area);
        let target = store.task(&id);
        let heading = match target {
            Some(t) => t.is_heading(),
            None => false,
        };
        let project = match target {
            Some(t) => t.is_project(),
            None => false,
        };
        let mut taken: usize = 0;
        if in_area || heading || project {
            match store.take_contents(&id, in_area, heading, &mut changes) {
                Err(message) => {
                    proof {
                        lemma_writes_stay_failed(tasks, sorted_tasks, named, k + 1, named.len() as int);
                    }
                    return Err(message);
                },
                Ok(n) => {
                    taken = n;
                },
            }
        }
        let ghost before = targets@;
        let old_target = &targets[k];
        let updated = DeleteTarget {
            uuid: old_target.uuid,
            is_area: old_target.is_area,
            title: old_target.title.clone(),
            taken,
        };
        targets.set(k, updated);
        proof {
            assert(named_of(targets@) =~= named_of(before));
            assert(counts_of(targets@).take(k + 1) =~= counts_of(before).take(k as int).push(taken as nat));
        }
        k += 1;
    }
    assert(counts_of(targets@).take(targets@.len() as int) =~= counts_of(targets@));
    Ok(DeletePlan { targets, changes, task_entity: EntityType::Task7, modification_date: now })
}

} // verus!
