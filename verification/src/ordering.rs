//! the sort index allocation shared by new, edit and reorder, for the structural index within a container and the today index within a day's group
//!
//! a slot between two neighbors when the gap allows one
//! otherwise the run is rebalanced
//! the members that move come back as patches

use crate::ids::things_id::ThingsId;
use vstd::prelude::*;

verus! {

/// the distance between members of a rebalanced run
pub const STRIDE: i32 = 1024;

/// the midpoint of two numbers as Rust's integer division rounds it, toward zero
pub open spec fn midpoint(prev: int, next: int) -> int {
    let sum = prev + next;
    if sum >= 0 {
        sum / 2
    } else {
        -((-sum) / 2)
    }
}

/// the index `slot_between` gives
pub open spec fn slot_between_spec(prev: Option<i32>, next: Option<i32>) -> Option<i32> {
    match (prev, next) {
        (None, None) => Some(0),
        (None, Some(next)) => if next > i32::MIN {
            Some((next - 1) as i32)
        } else {
            None
        },
        (Some(prev), None) => if prev < i32::MAX {
            Some((prev + 1) as i32)
        } else {
            None
        },
        (Some(prev), Some(next)) => if prev + 1 >= next {
            None
        } else {
            Some(midpoint(prev as int, next as int) as i32)
        },
    }
}

/// an index between two neighbors, before the first, after the last, or 0 in an empty run, None when the neighbors are adjacent or the type has no room left
pub fn slot_between(prev: Option<i32>, next: Option<i32>) -> (slot: Option<i32>)
    ensures
        slot == slot_between_spec(prev, next),
        slot matches Some(s) ==> (prev matches Some(p) ==> p < s) && (next matches Some(n) ==> s
            < n),
{
    match (prev, next) {
        (None, None) => Some(0),
        (None, Some(next)) => next.checked_sub(1),
        (Some(prev), None) => prev.checked_add(1),
        (Some(prev), Some(next)) => {
            if (prev as i64) + 1 >= (next as i64) {
                return None;
            }
            let sum = (prev as i64) + (next as i64);
            // integer division rounds toward zero
            let half = if sum >= 0 {
                sum / 2
            } else {
                -((-sum) / 2)
            };
            assert(prev < half < next);
            Some(half as i32)
        },
    }
}

/// where a member at `position` goes when a run is rebalanced: `STRIDE` apart from the first, clamped to the largest index
pub open spec fn target(position: nat) -> i32 {
    if (position + 1) * 1024 > i32::MAX {
        i32::MAX
    } else {
        ((position + 1) * 1024) as i32
    }
}

/// the place of a member in the rebalanced run, one further for the members at or after the hole
pub open spec fn respaced_position(position: int, hole: int) -> nat {
    if position < hole {
        position as nat
    } else {
        (position + 1) as nat
    }
}

/// the members among the first `n` that a rebalance with a newcomer at `hole` moves, with their new indexes
pub open spec fn moved_members(run: Seq<(ThingsId, i32)>, hole: int, n: int) -> Seq<(ThingsId, i32)>
    decreases n,
{
    if n <= 0 {
        seq![]
    } else {
        let rest = moved_members(run, hole, n - 1);
        let slot = target(respaced_position(n - 1, hole));
        if run[n - 1].1 != slot {
            rest.push((run[n - 1].0, slot))
        } else {
            rest
        }
    }
}

/// the index of the member before `hole`, None at the start or past the run
pub open spec fn before_hole(run: Seq<(ThingsId, i32)>, hole: int) -> Option<i32> {
    if 1 <= hole && hole - 1 < run.len() {
        Some(run[hole - 1].1)
    } else {
        None
    }
}

/// the index of the member at `hole`, None past the run
pub open spec fn at_hole(run: Seq<(ThingsId, i32)>, hole: int) -> Option<i32> {
    if 0 <= hole < run.len() {
        Some(run[hole].1)
    } else {
        None
    }
}

/// what `allocate` gives for a newcomer at `hole`: a slot between its neighbors that moves nothing, or the slot of a rebalanced run and the members that move
pub open spec fn allocation(run: Seq<(ThingsId, i32)>, hole: int) -> (i32, Seq<(ThingsId, i32)>) {
    match slot_between_spec(before_hole(run, hole), at_hole(run, hole)) {
        Some(slot) => (slot, seq![]),
        None => (target(hole as nat), moved_members(run, hole, run.len() as int)),
    }
}

/// the index `target` gives, computed
fn target_of(position: usize) -> (slot: i32)
    ensures
        slot == target(position as nat),
{
    if position >= 2097151 {
        i32::MAX
    } else {
        ((position + 1) * 1024) as i32
    }
}

/// the index of a newcomer at `hole` in `run`, the members in their order with their current indexes, plus the members that move when the run has to be rebalanced
pub fn allocate(run: &[(ThingsId, i32)], hole: usize) -> (placed: (i32, Vec<(ThingsId, i32)>))
    requires
        run@.len() < usize::MAX,
    ensures
        ({
            let gap = slot_between_spec(before_hole(run@, hole as int), at_hole(run@, hole as int));
            match gap {
                Some(slot) => placed.0 == slot && placed.1@.len() == 0,
                None => placed.0 == target(hole as nat) && placed.1@ == moved_members(
                    run@,
                    hole as int,
                    run@.len() as int,
                ),
            }
        }),
{
    let prev = if hole >= 1 && hole - 1 < run.len() {
        Some(run[hole - 1].1)
    } else {
        None
    };
    let next = if hole < run.len() {
        Some(run[hole].1)
    } else {
        None
    };
    if let Some(slot) = slot_between(prev, next) {
        return (slot, Vec::new());
    }
    let mut moved: Vec<(ThingsId, i32)> = Vec::new();
    let n = run.len();
    let mut position: usize = 0;
    while position < n
        invariant
            position <= n,
            n == run@.len(),
            n < usize::MAX,
            moved@ == moved_members(run@, hole as int, position as int),
        decreases n - position,
    {
        let slot = target_of(
            if position < hole {
                position
            } else {
                position + 1
            },
        );
        let (id, index) = run[position];
        if index != slot {
            moved.push((id, slot));
        }
        position += 1;
    }
    (target_of(hole), moved)
}

/// after a rebalance that stays below the largest index, members keep their order, `STRIDE` apart, and the newcomer stands after every member before the hole and before every member from it on
pub proof fn lemma_rebalance_keeps_order(len: nat, hole: nat, p: nat, q: nat)
    requires
        (len + 2) * 1024 <= i32::MAX,
        hole <= len,
        p < q <= len,
    ensures
        target(respaced_position(p as int, hole as int)) < target(
            respaced_position(q as int, hole as int),
        ),
        target(respaced_position(q as int, hole as int)) - target(
            respaced_position(p as int, hole as int),
        ) >= STRIDE,
        p < hole ==> target(respaced_position(p as int, hole as int)) < target(hole),
        p >= hole ==> target(hole) < target(respaced_position(p as int, hole as int)),
{
    let rp = respaced_position(p as int, hole as int);
    let rq = respaced_position(q as int, hole as int);
    assert(rp < rq <= len + 1);
    assert((rp + 1) * 1024 + 1024 <= (rq + 1) * 1024) by (nonlinear_arith)
        requires
            rp < rq,
    ;
    assert((rq + 1) * 1024 <= (len + 2) * 1024) by (nonlinear_arith)
        requires
            rq <= len + 1,
    ;
    assert((hole + 1) * 1024 <= (len + 2) * 1024) by (nonlinear_arith)
        requires
            hole <= len + 1,
    ;
    if p < hole {
        assert((rp + 1) * 1024 < (hole + 1) * 1024) by (nonlinear_arith)
            requires
                rp < hole,
        ;
    } else {
        assert((hole + 1) * 1024 < (rp + 1) * 1024) by (nonlinear_arith)
            requires
                hole < rp,
        ;
    }
}

/// the index the patches give the member with this id, the last patch for it winning; None where none names it
pub open spec fn patch_of(moved: Seq<(ThingsId, i32)>, id: ThingsId, n: int) -> Option<i32>
    decreases n,
{
    if n <= 0 {
        None
    } else if moved[n - 1].0@ == id@ {
        Some(moved[n - 1].1)
    } else {
        patch_of(moved, id, n - 1)
    }
}

/// a member's index once the patches are written
pub open spec fn patched(moved: Seq<(ThingsId, i32)>, member: (ThingsId, i32)) -> int {
    match patch_of(moved, member.0, moved.len() as int) {
        Some(index) => index as int,
        None => member.1 as int,
    }
}

/// the indexes of the run once a placement is written: each member's, patched, with the
/// newcomer's at the hole
pub open spec fn placed_indexes(run: Seq<(ThingsId, i32)>, hole: int, placed: (i32, Seq<(ThingsId, i32)>)) -> Seq<int> {
    let applied = Seq::new(run.len(), |k: int| patched(placed.1, run[k]));
    applied.take(hole).push(placed.0 as int) + applied.skip(hole)
}

/// the indexes rise strictly
pub open spec fn strictly_rising(s: Seq<int>) -> bool {
    forall|a: int, b: int| 0 <= a < b < s.len() ==> s[a] < s[b]
}

/// the members' ids differ and their indexes rise strictly
pub open spec fn well_ordered_run(run: Seq<(ThingsId, i32)>) -> bool {
    &&& forall|a: int, b: int| 0 <= a < b < run.len() ==> (#[trigger] run[a]).0@ != (#[trigger] run[b]).0@
    &&& forall|a: int, b: int| 0 <= a < b < run.len() ==> (#[trigger] run[a]).1 < (#[trigger] run[b]).1
}

/// the patches of a rebalance name only members of the run, each at most once, in the run's
/// order, and give each member the index its new place asks
proof fn lemma_moved_members(run: Seq<(ThingsId, i32)>, hole: int, n: int, k: int)
    requires
        well_ordered_run(run),
        0 <= n <= run.len(),
        0 <= k < run.len(),
    ensures
        patch_of(moved_members(run, hole, n), run[k].0, moved_members(run, hole, n).len() as int) == if k < n
            && run[k].1 != target(respaced_position(k, hole)) {
            Some(target(respaced_position(k, hole)))
        } else {
            None::<i32>
        },
    decreases n,
{
    if n > 0 {
        let rest = moved_members(run, hole, n - 1);
        lemma_moved_members(run, hole, n - 1, k);
        let slot = target(respaced_position(n - 1, hole));
        if run[n - 1].1 != slot {
            let all = rest.push((run[n - 1].0, slot));
            assert(all.take(rest.len() as int) =~= rest);
            lemma_patch_prefix(all, run[k].0, rest.len() as int);
            if k != n - 1 {
                if k < n - 1 {
                    assert(run[k].0@ != run[n - 1].0@);
                } else {
                    assert(run[n - 1].0@ != run[k].0@);
                }
            }
        }
    }
}

/// the patches before `m` decide as they would alone
proof fn lemma_patch_prefix(moved: Seq<(ThingsId, i32)>, id: ThingsId, m: int)
    requires
        0 <= m <= moved.len(),
    ensures
        patch_of(moved, id, m) == patch_of(moved.take(m), id, m),
    decreases m,
{
    if m > 0 {
        lemma_patch_prefix(moved, id, m - 1);
        lemma_patch_prefix(moved.take(m), id, m - 1);
        assert(moved.take(m).take(m - 1) =~= moved.take(m - 1));
    }
}

/// Writing what `allocate` gives keeps a run in order: where the run's ids differ and its indexes
/// rise, and a rebalance stays below the largest index, the members with their patched indexes
/// and the newcomer at the hole rise strictly. The patches name only members whose index
/// changes, and there are none where a slot between the neighbors was free.
pub proof fn lemma_allocation_keeps_order(run: Seq<(ThingsId, i32)>, hole: int)
    requires
        well_ordered_run(run),
        0 <= hole <= run.len(),
        (run.len() + 1) * 1024 <= i32::MAX,
    ensures
        strictly_rising(placed_indexes(run, hole, allocation(run, hole))),
        forall|j: int|
            0 <= j < allocation(run, hole).1.len() ==> exists|k: int|
                0 <= k < run.len() && (#[trigger] allocation(run, hole).1[j]).0 == run[k].0 && allocation(
                    run,
                    hole,
                ).1[j].1 != run[k].1,
        slot_between_spec(before_hole(run, hole), at_hole(run, hole)) is Some ==> allocation(run, hole).1.len()
            == 0,
{
    let placed = allocation(run, hole);
    let applied = Seq::new(run.len(), |k: int| patched(placed.1, run[k]));
    let out = placed_indexes(run, hole, placed);
    match slot_between_spec(before_hole(run, hole), at_hole(run, hole)) {
        Some(slot) => {
            assert forall|k: int| 0 <= k < run.len() implies applied[k] == run[k].1 by {}
            assert forall|a: int, b: int| 0 <= a < b < out.len() implies out[a] < out[b] by {
                if hole >= 1 {
                    assert(before_hole(run, hole) == Some(run[hole - 1].1));
                }
                if hole < run.len() {
                    assert(at_hole(run, hole) == Some(run[hole].1));
                }
                if a < hole && b < hole {
                    assert(out[a] == run[a].1 && out[b] == run[b].1);
                } else if a < hole && b == hole {
                    assert(out[a] == run[a].1);
                    if a < hole - 1 {
                        assert(run[a].1 < run[hole - 1].1);
                    }
                } else if a < hole {
                    assert(out[a] == run[a].1 && out[b] == run[b - 1].1);
                } else if a == hole {
                    assert(out[b] == run[b - 1].1);
                    if b - 1 > hole {
                        assert(run[hole].1 < run[b - 1].1);
                    }
                } else {
                    assert(out[a] == run[a - 1].1 && out[b] == run[b - 1].1);
                }
            }
        },
        None => {
            let n = run.len() as int;
            assert forall|k: int| 0 <= k < n implies applied[k] == target(respaced_position(k, hole)) by {
                lemma_moved_members(run, hole, n, k);
            }
            assert forall|i: int| 0 <= i < out.len() implies out[i] == target(i as nat) by {
                if i < hole {
                    assert(out[i] == applied[i]);
                } else if i > hole {
                    assert(out[i] == applied[i - 1]);
                }
            }
            assert forall|a: int, b: int| 0 <= a < b < out.len() implies out[a] < out[b] by {
                assert((a + 1) * 1024 < (b + 1) * 1024 <= (n + 1) * 1024) by (nonlinear_arith)
                    requires
                        a < b,
                        b <= n,
                ;
            }
        },
    }
    assert forall|j: int| 0 <= j < placed.1.len() implies exists|k: int|
        0 <= k < run.len() && (#[trigger] placed.1[j]).0 == run[k].0 && placed.1[j].1 != run[k].1 by {
        lemma_moved_names(run, hole, run.len() as int, j);
    }
}

/// each patch of a rebalance names a member whose index it changes
proof fn lemma_moved_names(run: Seq<(ThingsId, i32)>, hole: int, n: int, j: int)
    requires
        0 <= n <= run.len(),
        0 <= j < moved_members(run, hole, n).len(),
    ensures
        exists|k: int|
            0 <= k < n && moved_members(run, hole, n)[j].0 == run[k].0 && moved_members(run, hole, n)[j].1
                != run[k].1,
    decreases n,
{
    let rest = moved_members(run, hole, n - 1);
    if j < rest.len() {
        lemma_moved_names(run, hole, n - 1, j);
        let k = choose|k: int| 0 <= k < n - 1 && rest[j].0 == run[k].0 && rest[j].1 != run[k].1;
        assert(moved_members(run, hole, n)[j] == rest[j]);
    } else {
        assert(moved_members(run, hole, n)[j] == (run[n - 1].0, target(respaced_position(n - 1, hole))));
    }
}

} // verus!
