use things::delete::{delete_plan, DeleteChange};
use things::ids::things_id::ThingsId;
use things::store::entities::{Area, Task, Instant};
use things::store::ThingsStore;
use things::wire::{TaskStart, TaskStatus, TaskType};

const TASK_A: &str = "A7h5eCi24RvAWKC3Hv3muf";
const TASK_B: &str = "KGvAPpMrzHAKMdgMiERP1V";
const AREA_A: &str = "MpkEei6ybkFS2n6SXvwfLf";

/// the instant the writes are stamped with
fn now() -> Instant {
    Instant { seconds: 1_700_000_000, nanos: 0 }
}

fn id(text: &str) -> ThingsId {
    ThingsId::parse(text).expect("id")
}

fn task(uuid: &str, title: &str, trashed: bool) -> Task {
    Task {
        uuid: id(uuid),
        title: title.to_string(),
        status: TaskStatus::Incomplete,
        start: TaskStart::Inbox,
        item_type: TaskType::Todo,
        entity: "Task6".to_string(),
        notes: None,
        project: None,
        area: None,
        action_group: None,
        tags: Vec::new(),
        trashed,
        deadline: None,
        deadline_suppressed: false,
        start_date: None,
        stop_date: None,
        creation_date: None,
        modification_date: None,
        index: 0,
        today_index: 0,
        today_index_reference: None,
        leaves_tombstone: false,
        instance_creation_paused: false,
        instance_creation_start_date: None,
        instance_creation_count: 0,
        evening: false,
        alarm_time_offset: None,
        recurrence_rule: None,
        repeater: None,
        recurrence_templates: Vec::new(),
        due_date_offset: 0,
        degraded: false,
        checklist_items: Vec::new(),
    }
}

fn area(uuid: &str, title: &str) -> Area {
    Area { uuid: id(uuid), title: title.to_string(), tags: Vec::new(), index: 0 }
}

fn store(tasks: Vec<Task>, areas: Vec<Area>) -> ThingsStore {
    let domain: Vec<ThingsId> = tasks.iter().map(|t| t.uuid).chain(areas.iter().map(|a| a.uuid)).collect();
    let upgradable: Vec<ThingsId> = tasks.iter().map(|t| t.uuid).collect();
    ThingsStore::from_parts(tasks, areas, Vec::new(), domain, upgradable)
}

fn written(changes: &[DeleteChange]) -> Vec<(String, bool)> {
    let mut out: Vec<(String, bool)> = changes.iter().map(|c| (c.uuid.to_string(), c.deletes_area)).collect();
    out.sort();
    out
}

fn pairs(expected: &[(&str, bool)]) -> Vec<(String, bool)> {
    let mut out: Vec<(String, bool)> = expected.iter().map(|(u, d)| (u.to_string(), *d)).collect();
    out.sort();
    out
}

#[test]
fn delete_payloads_match_snapshot_cases() {
    let single = delete_plan(&store(vec![task(TASK_A, "Alpha", false)], vec![]), &[TASK_A], now()).expect("plan");
    assert_eq!(written(&single.changes), pairs(&[(TASK_A, false)]));

    let multi = delete_plan(
        &store(vec![task(TASK_A, "Alpha", false)], vec![area(AREA_A, "Work")]),
        &[TASK_A, AREA_A],
        now(),
    )
    .expect("plan");
    assert_eq!(written(&multi.changes), pairs(&[(TASK_A, false), (AREA_A, true)]));
    assert!(multi.targets[1].is_area);
    assert_eq!(multi.targets[1].title, "Work");

    // the heading links the to-do to the project, there is no direct project field on it
    let heading = "JFdhhhp37fpryAKu8UXwzK";
    let via_heading = "74rgJf6Qh9wYp2TcVk8mNB";
    let project_id = "By8mN2qRk5Wv7Xc9Dt3HpL";
    let mut project = task(project_id, "Remodel", false);
    project.item_type = TaskType::Project;
    let mut plumbing = task(heading, "Plumbing", false);
    plumbing.item_type = TaskType::Heading;
    plumbing.project = Some(id(project_id));
    let mut sink = task(via_heading, "Order sink", false);
    sink.action_group = Some(id(heading));
    let cascade = delete_plan(
        &store(vec![project, plumbing.clone(), sink.clone(), task(TASK_A, "Unrelated", false)], vec![]),
        &[project_id],
        now(),
    )
    .expect("plan");
    assert_eq!(cascade.targets[0].taken, 2);
    assert_eq!(written(&cascade.changes), pairs(&[(via_heading, false), (project_id, false), (heading, false)]));

    // the heading alone takes the to-dos under it
    plumbing.project = None;
    let heading_only = delete_plan(&store(vec![plumbing, sink], vec![]), &[heading], now()).expect("plan");
    assert_eq!(written(&heading_only.changes), pairs(&[(via_heading, false), (heading, false)]));
    assert_eq!(heading_only.targets[0].taken, 1);

    // one bad target fails the batch before anything is trashed
    let trashed_target = delete_plan(
        &store(vec![task(TASK_A, "Active", false), task(TASK_B, "Trashed", true)], vec![]),
        &[TASK_A, TASK_B],
        now(),
    )
    .err()
    .expect("a trashed target");
    assert_eq!(trashed_target, "Item already deleted: Trashed");

    // a prefix of two to-dos and one area names no single item
    let ambiguous = delete_plan(
        &store(
            vec![task("Ab11111111111111111111", "Groceries", false), task("Ab21111111111111111111", "Laundry", false)],
            vec![area("Ab31111111111111111111", "Finance")],
        ),
        &["Ab"],
        now(),
    )
    .err()
    .expect("an ambiguous prefix");
    assert!(ambiguous.starts_with("Ambiguous identifier 'Ab'"), "{ambiguous}");
}

#[test]
fn an_item_named_twice_is_deleted_once_and_unknown_ids_refuse() {
    let plan = delete_plan(&store(vec![task(TASK_A, "Alpha", false)], vec![]), &[TASK_A, TASK_A], now()).expect("plan");
    assert_eq!(plan.targets.len(), 1);
    assert_eq!(plan.changes.len(), 1);

    let missing = delete_plan(&store(vec![task(TASK_A, "Alpha", false)], vec![]), &["zzzz"], now()).err().expect("missing");
    assert_eq!(missing, "Item not found: zzzz");
}

#[test]
fn a_repeater_blocks_its_delete_and_its_containers() {
    let mut repeating = task(TASK_A, "Water plants", false);
    repeating.repeater = Some("{}".to_string());
    let err = delete_plan(&store(vec![repeating.clone()], vec![]), &[TASK_A], now()).err().expect("blocked");
    assert_eq!(
        err,
        "Task7 repeater tasks are blocked from deletion until repeater bookkeeping is supported: Water plants"
    );

    let mut inside = repeating;
    inside.area = Some(id(AREA_A));
    let err = delete_plan(&store(vec![inside], vec![area(AREA_A, "Home")]), &[AREA_A], now()).err().expect("blocked");
    assert!(err.ends_with(": Water plants"));
}
