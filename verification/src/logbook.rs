//! the Logbook: completed and canceled items, filed by the local day they closed on, the latest first

use crate::find::{clear_of_calendar_edges, local_day, plausible_local_day};
use crate::ids::id_order::{id_value, lemma_id_value_bound, lemma_id_value_injective};
use crate::ids::things_id::ThingsId;
use crate::store::entities::{instant_key, instant_le, Instant, Task};
use crate::store::{
    held, id_room, in_trashed_container_spec, lemma_listed_in_order, lemma_lists_in_order_unique,
    lemma_stacked_order, listed, lists_in_order, pick, ThingsStore,
};
use crate::wire::{TaskStatus, TaskType};
use vstd::prelude::*;

verus! {

/// the day found for the item with an id among the first `n` pairs, None where none is
pub open spec fn day_for(days: Seq<(ThingsId, Option<i32>)>, id: ThingsId, n: int) -> Option<i32>
    decreases n,
{
    if n <= 0 {
        None
    } else if days[n - 1].0@ == id@ {
        days[n - 1].1
    } else {
        day_for(days, id, n - 1)
    }
}

/// a completed or canceled to-do or project, outside the Trash and any trashed container, with the moment it closed
pub open spec fn closed_item(tasks: Seq<Task>, task: Task) -> bool {
    &&& !task.trashed
    &&& (task.status == TaskStatus::Completed || task.status == TaskStatus::Canceled)
    &&& task.item_type != TaskType::Heading
    &&& !in_trashed_container_spec(tasks, task)
    &&& task.stop_date is Some
}

/// the day falls within the bounds given
pub open spec fn within(day: Option<i32>, from: Option<i32>, to: Option<i32>) -> bool {
    match day {
        None => false,
        Some(d) => (match from {
            Some(f) => f <= d,
            None => true,
        }) && (match to {
            Some(t) => d <= t,
            None => true,
        }),
    }
}

/// the Logbook keeps a closed item whose local day of closing falls within the bounds
pub open spec fn logbook_keeps(
    tasks: Seq<Task>,
    days: Seq<(ThingsId, Option<i32>)>,
    from: Option<i32>,
    to: Option<i32>,
    task: Task,
) -> bool {
    closed_item(tasks, task) && within(day_for(days, task.uuid, days.len() as int), from, to)
}

/// `list` holds the Logbook for the days found, in its order
pub open spec fn lists_logbook(
    tasks: Seq<Task>,
    days: Seq<(ThingsId, Option<i32>)>,
    from: Option<i32>,
    to: Option<i32>,
    list: Seq<Task>,
) -> bool {
    lists_in_order(list, tasks, |t: Task| logbook_keeps(tasks, days, from, to, t), |t: Task| logbook_rank(t))
}

/// the Logbook's order: the latest close first, then the higher index, then by id
pub open spec fn logbook_rank(task: Task) -> int {
    let stop = match task.stop_date {
        Some(t) => instant_key(t),
        None => 0,
    };
    ((-stop) * 0x1_0000_0000int + (i32::MAX - task.index)) * id_room() + id_value(task.uuid)
}

proof fn lemma_logbook_rank(a: Task, b: Task)
    ensures
        a.uuid@ != b.uuid@ ==> logbook_rank(a) != logbook_rank(b),
        a.stop_date is Some && b.stop_date is Some ==> (logbook_rank(a) < logbook_rank(b)) == (instant_key(
            a.stop_date->0,
        ) > instant_key(b.stop_date->0) || (instant_key(a.stop_date->0) == instant_key(b.stop_date->0) && (
        a.index > b.index || (a.index == b.index && id_value(a.uuid) < id_value(b.uuid))))),
{
    lemma_id_value_bound(a.uuid);
    lemma_id_value_bound(b.uuid);
    let sa = match a.stop_date {
        Some(t) => instant_key(t),
        None => 0,
    };
    let sb = match b.stop_date {
        Some(t) => instant_key(t),
        None => 0,
    };
    lemma_stacked_order(-sa, i32::MAX - a.index, -sb, i32::MAX - b.index, 0x1_0000_0000int);
    let ha = (-sa) * 0x1_0000_0000int + (i32::MAX - a.index);
    let hb = (-sb) * 0x1_0000_0000int + (i32::MAX - b.index);
    lemma_stacked_order(ha, id_value(a.uuid), hb, id_value(b.uuid), id_room());
    if a.uuid@ != b.uuid@ {
        lemma_id_value_injective(a.uuid, b.uuid);
    }
}

/// the closed item comes first in the Logbook
fn logbook_before(a: &Task, b: &Task) -> (before: bool)
    ensures
        before == (logbook_rank(*a) < logbook_rank(*b)),
{
    proof {
        lemma_id_value_bound(a.uuid);
        lemma_id_value_bound(b.uuid);
        let sa = match a.stop_date {
            Some(t) => instant_key(t),
            None => 0,
        };
        let sb = match b.stop_date {
            Some(t) => instant_key(t),
            None => 0,
        };
        lemma_stacked_order(-sa, i32::MAX - a.index, -sb, i32::MAX - b.index, 0x1_0000_0000int);
        let ha = (-sa) * 0x1_0000_0000int + (i32::MAX - a.index);
        let hb = (-sb) * 0x1_0000_0000int + (i32::MAX - b.index);
        lemma_stacked_order(ha, id_value(a.uuid), hb, id_value(b.uuid), id_room());
    }
    let za = match a.stop_date {
        Some(t) => t,
        None => Instant { seconds: 0, nanos: 0 },
    };
    let zb = match b.stop_date {
        Some(t) => t,
        None => Instant { seconds: 0, nanos: 0 },
    };
    if !instant_le(za, zb) {
        true
    } else if !instant_le(zb, za) {
        false
    } else {
        a.index > b.index || (a.index == b.index && a.uuid.sorts_before(&b.uuid))
    }
}

/// the day found for the item with an id
fn day_of_item(days: &Vec<(ThingsId, Option<i32>)>, id: &ThingsId) -> (day: Option<i32>)
    ensures
        day == day_for(days@, *id, days@.len() as int),
{
    let mut k: usize = days.len();
    while k > 0
        invariant
            k <= days@.len(),
            forall|m: int| k <= m < days@.len() ==> days@[m].0@ != id@,
            day_for(days@, *id, days@.len() as int) == day_for(days@, *id, k as int),
        decreases k,
    {
        if days[k - 1].0 == *id {
            return days[k - 1].1;
        }
        k -= 1;
    }
    None
}

impl ThingsStore {
    /// a completed or canceled item outside the Trash, with the moment it closed
    fn closed_item(&self, task: &Task) -> (closed: bool)
        ensures
            closed == closed_item(self.tasks@, *task),
    {
        !task.trashed && (task.status == TaskStatus::Completed || task.status == TaskStatus::Canceled)
            && !task.is_heading() && !self.in_trashed_container(task) && task.stop_date.is_some()
    }

    /// the Logbook between two days, each left open by None, the local day each item closed on given by its id: the latest close first, then the higher index, then by id
    pub fn logbook_by_days(&self, from: Option<i32>, to: Option<i32>, days: &Vec<(ThingsId, Option<i32>)>) -> (list: Vec<&Task>)
        requires
            self.well_formed(),
        ensures
            lists_logbook(self.tasks@, days@, from, to, held(list@)),
    {
        let ghost tasks = self.tasks@;
        let ghost keep = |t: Task| logbook_keeps(tasks, days@, from, to, t);
        let keeps = |j: usize| -> (r: bool)
            requires
                j < self.tasks@.len(),
            ensures
                r == logbook_keeps(self.tasks@, days@, from, to, self.tasks@[j as int]),
            {
                let t = &self.tasks[j];
                if !self.closed_item(t) {
                    return false;
                }
                let day = day_of_item(days, &t.uuid);
                match day {
                    None => false,
                    Some(d) => (match from {
                        Some(f) => f <= d,
                        None => true,
                    }) && (match to {
                        Some(e) => d <= e,
                        None => true,
                    }),
                }
            };
        let picked = pick(self.tasks.len(), keeps, Ghost(|j: int| keep(tasks[j])));
        proof {
            assert forall|m: int, k: int| 0 <= m < k < picked@.len() implies logbook_rank(
                tasks[#[trigger] picked@[m] as int],
            ) != logbook_rank(tasks[#[trigger] picked@[k] as int]) by {
                let a = tasks[picked@[m] as int];
                let b = tasks[picked@[k] as int];
                assert(a.uuid@ != b.uuid@);
                lemma_logbook_rank(a, b);
            }
        }
        let list = listed(&self.tasks, &picked, logbook_before, Ghost(keep), Ghost(|t: Task| logbook_rank(t)));
        proof {
            lemma_listed_in_order(held(list@), tasks, picked@, keep, |t: Task| logbook_rank(t));
        }
        list
    }

    /// the Logbook between two days, each left open by None, by the local day each item closed on where the command runs
    ///
    /// the local day rests on the machine's time zone: the list is the Logbook for the days found, whatever they are
    pub fn logbook(&self, from: Option<i32>, to: Option<i32>) -> (list: Vec<&Task>)
        requires
            self.well_formed(),
            forall|j: int| 0 <= j < self.tasks@.len() ==> clear_of_calendar_edges((#[trigger] self.tasks@[j]).stop_date),
        ensures
            exists|days: Seq<(ThingsId, Option<i32>)>|
                #[trigger] lists_logbook(self.tasks@, days, from, to, held(list@)) && days.len() == self.tasks@.len()
                    && forall|j: int|
                    0 <= j < days.len() ==> (#[trigger] days[j]).0 == self.tasks@[j].uuid && plausible_local_day(
                        self.tasks@[j].stop_date,
                        days[j].1,
                    ),
            forall|i: int| 0 <= i < list@.len() ==> closed_item(self.tasks@, #[trigger] held(list@)[i]),
    {
        let mut days: Vec<(ThingsId, Option<i32>)> = Vec::new();
        let mut j: usize = 0;
        while j < self.tasks.len()
            invariant
                j <= self.tasks@.len(),
                days@.len() == j,
                forall|m: int| 0 <= m < self.tasks@.len() ==> clear_of_calendar_edges((#[trigger] self.tasks@[m]).stop_date),
                forall|m: int|
                    0 <= m < j ==> (#[trigger] days@[m]).0 == self.tasks@[m].uuid && plausible_local_day(
                        self.tasks@[m].stop_date,
                        days@[m].1,
                    ),
            decreases self.tasks@.len() - j,
        {
            let t = &self.tasks[j];
            proof {
                assert(clear_of_calendar_edges(self.tasks@[j as int].stop_date));
            }
            let day = match &t.stop_date {
                Some(stop) => local_day(stop),
                None => None,
            };
            days.push((t.uuid, day));
            j += 1;
        }
        let list = self.logbook_by_days(from, to, &days);
        proof {
            assert(lists_logbook(self.tasks@, days@, from, to, held(list@)));
            assert forall|i: int| 0 <= i < list@.len() implies closed_item(self.tasks@, #[trigger] held(list@)[i]) by {
                let keep = |t: Task| logbook_keeps(self.tasks@, days@, from, to, t);
                assert(lists_in_order(held(list@), self.tasks@, keep, |t: Task| logbook_rank(t)));
                assert(keep(held(list@)[i]));
            }
        }
        list
    }
}

} // verus!
