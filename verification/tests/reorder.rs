use things::ids::things_id::ThingsId;
use things::reorder::{reorder_plan, PlaceUpdate, ReorderArgs};
use things::store::entities::{Instant, Task};
use things::store::ThingsStore;
use things::wire::{TaskStart, TaskStatus, TaskType};

const TASK_A: &str = "A7h5eCi24RvAWKC3Hv3muf";
const TASK_B: &str = "KGvAPpMrzHAKMdgMiERP1V";
const TASK_C: &str = "MpkEei6ybkFS2n6SXvwfLf";
const TODAY: i64 = 1_699_920_000;

/// the instant the writes are stamped with
fn now() -> Instant {
    Instant { seconds: 1_700_000_000, nanos: 0 }
}

fn id(text: &str) -> ThingsId {
    ThingsId::parse(text).expect("id")
}

fn task(uuid: &str, title: &str, start: TaskStart, index: i32, scheduled: Option<i64>, reference: Option<i64>, today_index: i32) -> Task {
    Task {
        uuid: id(uuid),
        title: title.to_string(),
        status: TaskStatus::Incomplete,
        start,
        item_type: TaskType::Todo,
        entity: "Task6".to_string(),
        notes: None,
        project: None,
        area: None,
        action_group: None,
        tags: Vec::new(),
        trashed: false,
        deadline: None,
        deadline_suppressed: false,
        start_date: scheduled.map(|seconds| Instant { seconds, nanos: 0 }),
        stop_date: None,
        creation_date: None,
        modification_date: None,
        index,
        today_index,
        today_index_reference: reference,
        leaves_tombstone: false,
        instance_creation_paused: false,
        instance_creation_start_date: None,
        instance_creation_count: 0,
        evening: false,
        alarm_time_offset: None,
        recurrence_rule: None,
        repeater: None,
        recurrence_templates: Vec::new(),
        due_date_offset: 0,
        degraded: false,
        checklist_items: Vec::new(),
    }
}

fn store(tasks: Vec<Task>) -> ThingsStore {
    let domain: Vec<ThingsId> = tasks.iter().map(|t| t.uuid).collect();
    let upgradable: Vec<ThingsId> = tasks.iter().filter(|t| t.entity == "Task6" || t.entity == "Task7").map(|t| t.uuid).collect();
    ThingsStore::from_parts(tasks, Vec::new(), Vec::new(), domain, upgradable)
}

fn args(item: &str, before: Option<&str>, after: Option<&str>) -> ReorderArgs {
    ReorderArgs {
        item_id: item.to_string(),
        before_id: before.map(str::to_string),
        after_id: after.map(str::to_string),
    }
}

fn index_update(uuid: &str, index: i32) -> PlaceUpdate {
    PlaceUpdate { uuid: id(uuid), sort_index: Some(index), today_sort_index: None, today_index_reference: None, evening: None }
}

#[test]
fn reorder_before_after_and_today_payloads() {
    let s = store(vec![
        task(TASK_A, "A", TaskStart::Inbox, 1024, None, None, 0),
        task(TASK_B, "B", TaskStart::Inbox, 2048, None, None, 0),
        task(TASK_C, "C", TaskStart::Inbox, 3072, None, None, 0),
    ]);
    let before = reorder_plan(&args(TASK_C, Some(TASK_B), None), &s, now(), TODAY).expect("before plan");
    assert_eq!(before.updates, vec![index_update(TASK_C, 1536)]);
    assert_eq!(before.label, "(before=B, index=1536)");
    assert_eq!(before.item.title, "C");

    let s = store(vec![
        task(TASK_A, "A", TaskStart::Anytime, 100, Some(TODAY), Some(TODAY), 10),
        task(TASK_B, "B", TaskStart::Anytime, 200, Some(TODAY), Some(TODAY), 20),
    ]);
    let today_plan = reorder_plan(&args(TASK_A, None, Some(TASK_B)), &s, now(), TODAY).expect("today plan");
    assert_eq!(
        today_plan.updates,
        vec![PlaceUpdate {
            uuid: id(TASK_A),
            sort_index: None,
            today_sort_index: Some(21),
            today_index_reference: Some(TODAY),
            evening: None,
        }]
    );
    assert_eq!(today_plan.label, format!("(after=B, today_ref={TODAY}, today_index=21)"));
}

#[test]
fn reorder_rebalance_and_errors() {
    let s = store(vec![
        task(TASK_A, "A", TaskStart::Inbox, 1024, None, None, 0),
        task(TASK_B, "B", TaskStart::Inbox, 1025, None, None, 0),
        task(TASK_C, "C", TaskStart::Inbox, 1026, None, None, 0),
    ]);
    let rebalance = reorder_plan(&args(TASK_C, None, Some(TASK_A)), &s, now(), TODAY).expect("rebalance");
    assert_eq!(rebalance.updates, vec![index_update(TASK_B, 3072), index_update(TASK_C, 2048)]);

    let mut future = task(TASK_B, "Future", TaskStart::Inbox, 1025, None, None, 0);
    future.entity = "Task8".to_string();
    let s_future = store(vec![
        task(TASK_A, "A", TaskStart::Inbox, 1024, None, None, 0),
        future,
        task(TASK_C, "C", TaskStart::Inbox, 1026, None, None, 0),
    ]);
    let err = reorder_plan(&args(TASK_C, None, Some(TASK_A)), &s_future, now(), TODAY).err().expect("refused");
    assert_eq!(err, "Cannot rebalance around unsupported task entity: Task8");

    let err = reorder_plan(&args(TASK_A, Some(TASK_A), None), &s, now(), TODAY).err().expect("self");
    assert_eq!(err, "Cannot reorder an item relative to itself.");
}

#[test]
fn reorder_refuses_items_of_other_lists_and_unknown_ids() {
    let mut elsewhere = task(TASK_B, "B", TaskStart::Someday, 2048, None, None, 0);
    elsewhere.start = TaskStart::Someday;
    let s = store(vec![task(TASK_A, "A", TaskStart::Inbox, 1024, None, None, 0), elsewhere]);
    let err = reorder_plan(&args(TASK_A, Some(TASK_B), None), &s, now(), TODAY).err().expect("other list");
    assert_eq!(err, "Cannot reorder across different containers/lists.");

    let err = reorder_plan(&args("zzzz", Some(TASK_B), None), &s, now(), TODAY).err().expect("unknown");
    assert_eq!(err, "Task not found: zzzz");

    let mut done = task(TASK_B, "B", TaskStart::Inbox, 2048, None, None, 0);
    done.status = TaskStatus::Completed;
    let s = store(vec![task(TASK_A, "A", TaskStart::Inbox, 1024, None, None, 0), done]);
    let err = reorder_plan(&args(TASK_A, None, Some(TASK_B)), &s, now(), TODAY).err().expect("closed anchor");
    assert_eq!(err, "Cannot reorder item in the selected list.");

    let mut old = task(TASK_A, "A", TaskStart::Inbox, 1024, None, None, 0);
    old.entity = "Task3".to_string();
    let s = store(vec![old, task(TASK_B, "B", TaskStart::Inbox, 2048, None, None, 0)]);
    let err = reorder_plan(&args(TASK_A, None, Some(TASK_B)), &s, now(), TODAY).err().expect("entity");
    assert_eq!(err, "Unsupported task entity for reordering: Task3");
}

#[test]
fn reordering_in_today_follows_the_anchors_evening() {
    let mut evening = task(TASK_B, "B", TaskStart::Anytime, 200, Some(TODAY), Some(TODAY), 20);
    evening.evening = true;
    let s = store(vec![task(TASK_A, "A", TaskStart::Anytime, 100, Some(TODAY), Some(TODAY), 10), evening]);
    let plan = reorder_plan(&args(TASK_A, Some(TASK_B), None), &s, now(), TODAY + 3600).expect("plan");
    assert_eq!(plan.updates.len(), 1);
    assert_eq!(plan.updates[0].evening, Some(true));
    assert_eq!(plan.updates[0].today_sort_index, Some(19));
    assert_eq!(plan.updates[0].today_index_reference, Some(TODAY));
}
