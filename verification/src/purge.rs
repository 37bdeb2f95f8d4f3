//! purging what a tombstone names from the replayed objects: the object goes with what only
//! exists through it, the checklist of a to-do and the to-dos and headings of a project or
//! heading; an area or a tag goes alone, and a to-do in an area is not a part of it

use crate::ids::things_id::ThingsId;
use vstd::prelude::*;

verus! {

/// what the purge reads of a replayed object: the ids it is held by
pub enum StateLinks {
    /// a to-do, project or heading, held by its projects and headings
    Task { parent_project_ids: Vec<ThingsId>, action_group_ids: Vec<ThingsId> },
    /// a checklist item, held by its to-dos
    ChecklistItem { task_ids: Vec<ThingsId> },
    /// an area, a tag or an object of another kind, held by nothing
    Other,
}

/// a replayed object, by its id
pub struct StateObject {
    pub uuid: ThingsId,
    pub links: StateLinks,
}

/// the list names the id
pub open spec fn names(ids: Seq<ThingsId>, id: Seq<u8>) -> bool {
    exists|k: int| 0 <= k < ids.len() && (#[trigger] ids[k])@ == id
}

/// the object exists through the id: a to-do, project or heading in that project or under that
/// heading, or a checklist item of that to-do
pub open spec fn held_by(object: StateObject, id: Seq<u8>) -> bool {
    match object.links {
        StateLinks::Task { parent_project_ids, action_group_ids } => names(parent_project_ids@, id) || names(
            action_group_ids@,
            id,
        ),
        StateLinks::ChecklistItem { task_ids } => names(task_ids@, id),
        StateLinks::Other => false,
    }
}

/// a set of ids a purge of `target` could remove: the target, and every object held by an id of
/// the set
pub open spec fn closed_under_holding(state: Seq<StateObject>, target: ThingsId, ids: Set<Seq<u8>>) -> bool {
    &&& ids.contains(target@)
    &&& forall|i: int, x: Seq<u8>|
        0 <= i < state.len() && ids.contains(x) && #[trigger] held_by(state[i], x) ==> ids.contains(
            (#[trigger] state[i]).uuid@,
        )
}

/// the id goes with a purge of `target`: it is in every set closed under holding, so a chain of
/// objects, each held by the one before, leads to it from the target
pub open spec fn purged_with(state: Seq<StateObject>, target: ThingsId, id: Seq<u8>) -> bool {
    forall|ids: Set<Seq<u8>>| #[trigger] closed_under_holding(state, target, ids) ==> ids.contains(id)
}

/// no two objects share an id
pub open spec fn distinct_ids(state: Seq<StateObject>) -> bool {
    forall|a: int, b: int| 0 <= a < b < state.len() ==> (#[trigger] state[a]).uuid@ != (#[trigger] state[b]).uuid@
}

/// whether a purge of `target` keeps an object
pub open spec fn kept_by(state: Seq<StateObject>, target: ThingsId) -> spec_fn(StateObject) -> bool {
    |o: StateObject| !purged_with(state, target, o.uuid@)
}

/// the objects a purge keeps, in their order
pub open spec fn kept_after_purge(state: Seq<StateObject>, target: ThingsId) -> Seq<StateObject> {
    state.filter(kept_by(state, target))
}

/// the number of marks set among the first `n`
pub open spec fn marked_count(marks: Seq<bool>, n: int) -> nat
    decreases n,
{
    if n <= 0 {
        0
    } else {
        marked_count(marks, n - 1) + if marks[n - 1] {
            1nat
        } else {
            0nat
        }
    }
}

/// setting a mark that was not set counts one more
proof fn lemma_count_set(marks: Seq<bool>, i: int, n: int)
    requires
        0 <= i < marks.len(),
        !marks[i],
        0 <= n <= marks.len(),
    ensures
        marked_count(marks.update(i, true), n) == marked_count(marks, n) + if i < n {
            1nat
        } else {
            0nat
        },
    decreases n,
{
    if n > 0 {
        lemma_count_set(marks, i, n - 1);
    }
}

/// no more marks than places
proof fn lemma_count_bound(marks: Seq<bool>, n: int)
    requires
        0 <= n <= marks.len(),
    ensures
        marked_count(marks, n) <= n,
    decreases n,
{
    if n > 0 {
        lemma_count_bound(marks, n - 1);
    }
}

/// the list holds the id
fn lists(ids: &Vec<ThingsId>, id: &ThingsId) -> (found: bool)
    ensures
        found == names(ids@, id@),
{
    let mut k: usize = 0;
    while k < ids.len()
        invariant
            k <= ids@.len(),
            forall|m: int| 0 <= m < k ==> (#[trigger] ids@[m])@ != id@,
        decreases ids@.len() - k,
    {
        if ids[k] == *id {
            assert(ids@[k as int]@ == id@);
            return true;
        }
        k += 1;
    }
    false
}

/// the object is held by the id
fn holds(object: &StateObject, id: &ThingsId) -> (held: bool)
    ensures
        held == held_by(*object, id@),
{
    match &object.links {
        StateLinks::Task { parent_project_ids, action_group_ids } => lists(parent_project_ids, id) || lists(
            action_group_ids,
            id,
        ),
        StateLinks::ChecklistItem { task_ids } => lists(task_ids, id),
        StateLinks::Other => false,
    }
}

/// the ids marked so far, with the target
pub open spec fn marked_ids(state: Seq<StateObject>, target: ThingsId, marks: Seq<bool>) -> Set<Seq<u8>> {
    Set::new(|x: Seq<u8>| x == target@ || exists|j: int| 0 <= j < state.len() && marks[j] && (#[trigger] state[j]).uuid@ == x)
}

/// the object is held by the target or by a marked object
fn held_by_marked(state: &Vec<StateObject>, target: &ThingsId, marks: &Vec<bool>, object: &StateObject) -> (held: bool)
    requires
        marks@.len() == state@.len(),
    ensures
        held == exists|x: Seq<u8>| marked_ids(state@, *target, marks@).contains(x) && held_by(*object, x),
{
    if holds(object, target) {
        assert(marked_ids(state@, *target, marks@).contains(target@));
        return true;
    }
    let mut j: usize = 0;
    while j < state.len()
        invariant
            j <= state@.len(),
            marks@.len() == state@.len(),
            !held_by(*object, target@),
            forall|m: int| 0 <= m < j && marks@[m] ==> !held_by(*object, (#[trigger] state@[m]).uuid@),
        decreases state@.len() - j,
    {
        if marks[j] && holds(object, &state[j].uuid) {
            assert(marked_ids(state@, *target, marks@).contains(state@[j as int].uuid@));
            return true;
        }
        j += 1;
    }
    proof {
        assert forall|x: Seq<u8>| marked_ids(state@, *target, marks@).contains(x) implies !held_by(*object, x) by {
            if x != target@ {
                let w = choose|w: int| 0 <= w < state@.len() && marks@[w] && (#[trigger] state@[w]).uuid@ == x;
                assert(!held_by(*object, state@[w].uuid@));
            }
        }
    }
    false
}

/// Purge the object a tombstone names, and with it every object that exists only through it:
/// the objects kept are exactly those not held, through any chain of holders, by the target.
pub fn purge(state: &mut Vec<StateObject>, target: &ThingsId)
    requires
        distinct_ids(old(state)@),
    ensures
        final(state)@ == kept_after_purge(old(state)@, *target),
{
    let ghost start = state@;
    let n = state.len();
    let mut marks: Vec<bool> = Vec::new();
    let mut i: usize = 0;
    while i < n
        invariant
            i <= n,
            n == state@.len(),
            state@ == start,
            marks@.len() == i,
            forall|k: int| 0 <= k < i ==> #[trigger] marks@[k] == (state@[k].uuid@ == target@),
        decreases n - i,
    {
        marks.push(state[i].uuid == *target);
        i += 1;
    }
    proof {
        lemma_count_bound(marks@, n as int);
    }
    loop
        invariant
            n == state@.len(),
            state@ == start,
            distinct_ids(start),
            marks@.len() == n,
            marked_count(marks@, n as int) <= n,
            forall|k: int| 0 <= k < n && #[trigger] marks@[k] ==> purged_with(start, *target, start[k].uuid@),
            forall|k: int| 0 <= k < n && (#[trigger] start[k]).uuid@ == target@ ==> marks@[k],
        ensures
            n == state@.len(),
            state@ == start,
            marks@.len() == n,
            forall|k: int| 0 <= k < n && #[trigger] marks@[k] ==> purged_with(start, *target, start[k].uuid@),
            forall|k: int| 0 <= k < n && (#[trigger] start[k]).uuid@ == target@ ==> marks@[k],
            forall|k: int|
                0 <= k < n && !(#[trigger] marks@[k]) ==> !exists|x: Seq<u8>|
                    marked_ids(start, *target, marks@).contains(x) && held_by(start[k], x),
        decreases n - marked_count(marks@, n as int),
    {
        let mut changed = false;
        let ghost round_start = marked_count(marks@, n as int);
        let mut i: usize = 0;
        while i < n
            invariant
                i <= n,
                n == state@.len(),
                state@ == start,
                marks@.len() == n,
                marked_count(marks@, n as int) <= n,
                changed ==> marked_count(marks@, n as int) > round_start,
                !changed ==> marked_count(marks@, n as int) == round_start,
                forall|k: int| 0 <= k < n && #[trigger] marks@[k] ==> purged_with(start, *target, start[k].uuid@),
            forall|k: int| 0 <= k < n && (#[trigger] start[k]).uuid@ == target@ ==> marks@[k],
                !changed ==> forall|k: int|
                    0 <= k < i && !(#[trigger] marks@[k]) ==> !exists|x: Seq<u8>|
                        marked_ids(start, *target, marks@).contains(x) && held_by(start[k], x),
            decreases n - i,
        {
            if !marks[i] && held_by_marked(state, target, &marks, &state[i]) {
                proof {
                    let x = choose|x: Seq<u8>| marked_ids(start, *target, marks@).contains(x) && held_by(start[i as int], x);
                    assert forall|ids: Set<Seq<u8>>| #[trigger] closed_under_holding(start, *target, ids) implies ids.contains(
                        start[i as int].uuid@,
                    ) by {
                        if x != target@ {
                            let w = choose|w: int| 0 <= w < start.len() && marks@[w] && (#[trigger] start[w]).uuid@ == x;
                            assert(purged_with(start, *target, start[w].uuid@));
                        }
                        assert(ids.contains(x));
                    }
                    lemma_count_set(marks@, i as int, n as int);
                    lemma_count_bound(marks@.update(i as int, true), n as int);
                }
                marks.set(i, true);
                changed = true;
            }
            i += 1;
        }
        if !changed {
            break;
        }
    }
    // the marks, with the target, close under holding, so they are exactly what goes
    proof {
        let ids = marked_ids(start, *target, marks@);
        assert(closed_under_holding(start, *target, ids)) by {
            assert forall|i: int, x: Seq<u8>|
                0 <= i < start.len() && ids.contains(x) && #[trigger] held_by(start[i], x) implies ids.contains(
                (#[trigger] start[i]).uuid@,
            ) by {
                if !marks@[i] {
                    assert(!exists|x: Seq<u8>| marked_ids(start, *target, marks@).contains(x) && held_by(start[i], x));
                }
            }
        }
        assert forall|k: int| 0 <= k < n implies marks@[k] == purged_with(start, *target, (#[trigger] start[k]).uuid@) by {
            if purged_with(start, *target, start[k].uuid@) {
                assert(ids.contains(start[k].uuid@));
                if start[k].uuid@ != target@ {
                    let w = choose|w: int| 0 <= w < start.len() && marks@[w] && (#[trigger] start[w]).uuid@ == start[k].uuid@;
                    if w != k {
                        if w < k {
                            assert(start[w].uuid@ != start[k].uuid@);
                        } else {
                            assert(start[k].uuid@ != start[w].uuid@);
                        }
                    }
                }
            }
        }
    }
    let mut kept: Vec<StateObject> = Vec::new();
    let mut rest: Vec<StateObject> = Vec::new();
    std::mem::swap(&mut rest, state);
    let mut k: usize = 0;
    while k < n
        invariant
            k <= n,
            n == start.len(),
            rest@ == start.skip(k as int),
            marks@.len() == n,
            forall|m: int| 0 <= m < n ==> marks@[m] == purged_with(start, *target, (#[trigger] start[m]).uuid@),
            kept@ == start.take(k as int).filter(kept_by(start, *target)),
        decreases n - k,
    {
        let object = rest.remove(0);
        let ghost before = kept@;
        proof {
            assert(object == start[k as int]);
            assert(start.skip(k + 1) =~= start.skip(k as int).drop_first());
            reveal_with_fuel(Seq::<_>::filter, 1);
            assert(start.take(k + 1).drop_last() =~= start.take(k as int));
            assert(start.take(k + 1).last() == object);
            assert(marks@[k as int] == purged_with(start, *target, start[k as int].uuid@));
            assert(kept_by(start, *target)(start[k as int]) == !purged_with(start, *target, start[k as int].uuid@));
            assert(kept_by(start, *target)(object) == !marks@[k as int]);
            assert(start.take(k + 1).filter(kept_by(start, *target)) == if kept_by(start, *target)(object) {
                before.push(object)
            } else {
                before
            });
        }
        if !marks[k] {
            kept.push(object);
        }
        k += 1;
    }
    assert(start.take(n as int) =~= start);
    *state = kept;
}

/// Nothing a purge keeps exists through what it removes: an object it keeps is held neither by
/// the target nor by any object it removes.
pub proof fn lemma_kept_not_held(state: Seq<StateObject>, target: ThingsId, i: int, x: Seq<u8>)
    requires
        0 <= i < state.len(),
        !purged_with(state, target, state[i].uuid@),
        purged_with(state, target, x),
    ensures
        !held_by(state[i], x),
{
    if held_by(state[i], x) {
        assert forall|ids: Set<Seq<u8>>| #[trigger] closed_under_holding(state, target, ids) implies ids.contains(
            state[i].uuid@,
        ) by {
            assert(ids.contains(x));
        }
    }
}

/// The target goes with its own purge.
pub proof fn lemma_target_purged(state: Seq<StateObject>, target: ThingsId)
    ensures
        purged_with(state, target, target@),
{
}

} // verus!
