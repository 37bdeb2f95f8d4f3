use things::ids::things_id::ThingsId;
use things::mark::{mark_checklist_plan, mark_status_plan, validate_recurring_instance, MarkAction, StatusUpdate};
use things::store::entities::{ChecklistItem, Instant, Task};
use things::store::ThingsStore;
use things::wire::{EntityType, FrequencyUnit, RecurrenceRule, RecurrenceType, TaskStart, TaskStatus, TaskType};

const TASK_A: &str = "A7h5eCi24RvAWKC3Hv3muf";
const CHECK_A: &str = "MpkEei6ybkFS2n6SXvwfLf";
const CHECK_B: &str = "JFdhhhp37fpryAKu8UXwzK";
const TPL_A: &str = "MpkEei6ybkFS2n6SXvwfLf";
const TPL_B: &str = "JFdhhhp37fpryAKu8UXwzK";

/// the instant the writes are stamped with
fn now() -> Instant {
    Instant { seconds: 1_700_000_111, nanos: 0 }
}

fn parsed(text: &str) -> ThingsId {
    ThingsId::parse(text).expect("id")
}

fn id(n: u8) -> ThingsId {
    let mut bytes = [0u8; 16];
    bytes[0] = 7;
    bytes[15] = n;
    ThingsId(bytes)
}

fn task(n: u8, title: &str) -> Task {
    Task {
        uuid: id(n),
        title: title.to_string(),
        status: TaskStatus::Incomplete,
        start: TaskStart::Anytime,
        item_type: TaskType::Todo,
        entity: "Task7".to_string(),
        notes: None,
        project: None,
        area: None,
        action_group: None,
        tags: Vec::new(),
        trashed: false,
        deadline: None,
        deadline_suppressed: false,
        start_date: None,
        stop_date: None,
        creation_date: None,
        modification_date: None,
        index: 0,
        today_index: 0,
        today_index_reference: None,
        leaves_tombstone: false,
        instance_creation_paused: false,
        instance_creation_start_date: None,
        instance_creation_count: 0,
        evening: false,
        alarm_time_offset: None,
        recurrence_rule: None,
        repeater: None,
        recurrence_templates: Vec::new(),
        due_date_offset: 0,
        degraded: false,
        checklist_items: Vec::new(),
    }
}

fn fixed_rule() -> RecurrenceRule {
    RecurrenceRule {
        recurrence_type: RecurrenceType::FixedSchedule,
        frequency_unit: FrequencyUnit::Daily,
        frequency_amount: 1,
        offsets: Vec::new(),
        start_date: None,
        interval_anchor: None,
        end_date: None,
        repeat_count: 0,
        time_span_in_days: 0,
        version: 0,
    }
}

fn store(tasks: Vec<Task>) -> ThingsStore {
    let domain: Vec<ThingsId> = tasks.iter().map(|t| t.uuid).collect();
    let upgradable = domain.clone();
    ThingsStore::from_parts(tasks, Vec::new(), Vec::new(), domain, upgradable)
}

fn named(ids: &[ThingsId]) -> Vec<String> {
    ids.iter().map(|i| i.to_string()).collect()
}

fn plan_for(s: &ThingsStore, ids: &[ThingsId], action: MarkAction) -> (Vec<StatusUpdate>, Vec<String>, Vec<String>) {
    let texts = named(ids);
    let refs: Vec<&str> = texts.iter().map(|t| t.as_str()).collect();
    let (updates, changed, errors) = mark_status_plan(s, &refs, action, now());
    (updates, changed.iter().map(|t| t.title.clone()).collect(), errors)
}

#[test]
fn a_mark_sets_the_status_and_closing_carries_the_moment() {
    let s = store(vec![task(1, "Alpha")]);
    let (updates, changed, errors) = plan_for(&s, &[id(1)], MarkAction::Completed);
    assert!(errors.is_empty());
    assert_eq!(changed, vec!["Alpha".to_string()]);
    assert_eq!(updates.len(), 1);
    assert_eq!(updates[0].uuid, id(1));
    assert_eq!(updates[0].status, TaskStatus::Completed);
    assert_eq!(updates[0].stop_date, Some(now()));

    let mut done = task(1, "Alpha");
    done.status = TaskStatus::Completed;
    let s = store(vec![done]);
    let (updates, _, errors) = plan_for(&s, &[id(1)], MarkAction::Incomplete);
    assert!(errors.is_empty());
    assert_eq!(updates[0].status, TaskStatus::Incomplete);
    assert_eq!(updates[0].stop_date, None);
}

#[test]
fn an_item_named_twice_is_marked_once() {
    let s = store(vec![task(1, "Alpha")]);
    let (updates, changed, errors) = plan_for(&s, &[id(1), id(1)], MarkAction::Canceled);
    assert!(errors.is_empty());
    assert_eq!(updates.len(), 1);
    assert_eq!(changed.len(), 1);
    assert_eq!(updates[0].status, TaskStatus::Canceled);
}

#[test]
fn a_mark_refuses_an_item_already_at_its_status() {
    let mut done = task(1, "Alpha");
    done.status = TaskStatus::Completed;
    let s = store(vec![done]);
    let (updates, _, errors) = plan_for(&s, &[id(1)], MarkAction::Completed);
    assert!(updates.is_empty());
    assert_eq!(errors, vec!["Item is already completed. (Alpha)".to_string()]);
}

#[test]
fn an_unknown_identifier_is_reported_and_nothing_else_stops() {
    let s = store(vec![task(1, "Alpha")]);
    let refs = vec!["zzzz", "zzzz"];
    let (updates, _, errors) = mark_status_plan(&s, &refs, MarkAction::Completed, now());
    assert!(updates.is_empty());
    assert_eq!(errors.len(), 2);
}

#[test]
fn a_closed_project_takes_its_open_to_dos_along() {
    let mut project = task(1, "Remodel");
    project.item_type = TaskType::Project;
    let mut heading = task(2, "Plumbing");
    heading.item_type = TaskType::Heading;
    heading.project = Some(id(1));
    let mut open = task(3, "Buy tiles");
    open.project = Some(id(1));
    let mut under = task(4, "Order sink");
    under.action_group = Some(id(2));
    let mut done = task(5, "Measure");
    done.project = Some(id(1));
    done.status = TaskStatus::Completed;
    let tasks = vec![project.clone(), heading, open, under, done];

    let s = store(tasks.clone());
    let (updates, changed, errors) = plan_for(&s, &[id(1)], MarkAction::Canceled);
    assert!(errors.is_empty(), "{errors:?}");
    let mut ids: Vec<ThingsId> = updates.iter().map(|u| u.uuid).collect();
    ids.sort_by_key(|i| i.0);
    let mut expected = vec![id(1), id(3), id(4)];
    expected.sort_by_key(|i| i.0);
    assert_eq!(ids, expected);
    assert!(updates.iter().all(|u| u.status == TaskStatus::Canceled && u.stop_date == Some(now())));
    assert_eq!(changed.last().map(String::as_str), Some("Remodel"));

    let mut closed = tasks.clone();
    closed[0].status = TaskStatus::Completed;
    let s = store(closed);
    let (updates, _, errors) = plan_for(&s, &[id(1)], MarkAction::Incomplete);
    assert!(errors.is_empty(), "{errors:?}");
    assert_eq!(updates.iter().map(|u| u.uuid).collect::<Vec<_>>(), vec![id(1)]);
}

#[test]
fn repeat_templates_instances_and_repeaters_are_refused() {
    let mut template = task(1, "Recurring template");
    template.recurrence_rule = Some(fixed_rule());
    let s = store(vec![template.clone()]);
    for action in [MarkAction::Completed, MarkAction::Canceled] {
        let (updates, _, errors) = plan_for(&s, &[id(1)], action);
        assert!(updates.is_empty());
        assert_eq!(
            errors,
            vec!["A repeat template takes no status, mark one of its instances instead. (Recurring template)"
                .to_string()]
        );
    }

    let mut other = template.clone();
    other.uuid = id(2);
    let mut instance = task(3, "Recurring instance");
    instance.recurrence_templates = vec![id(1), id(2)];
    let s = store(vec![template.clone(), other, instance]);
    let (_, _, errors) = plan_for(&s, &[id(3)], MarkAction::Completed);
    assert_eq!(
        errors,
        vec!["This repeating item names 2 templates where one is expected. (Recurring instance)".to_string()]
    );

    let mut single = task(3, "Recurring instance");
    single.recurrence_templates = vec![id(1)];
    let s = store(vec![template, single]);
    let (updates, _, errors) = plan_for(&s, &[id(3)], MarkAction::Completed);
    assert!(errors.is_empty(), "{errors:?}");
    assert_eq!(updates.len(), 1);

    let mut repeating = task(4, "Repeater");
    repeating.repeater = Some("{\"version\":1}".to_string());
    let s = store(vec![repeating]);
    let (updates, _, errors) = plan_for(&s, &[id(4)], MarkAction::Completed);
    assert!(updates.is_empty());
    assert_eq!(errors.len(), 1);
    assert!(errors[0].contains("an item with a repeater"));
}

fn checklist_task() -> Task {
    let mut t = task(1, "Task with checklist");
    let item = |n: u8, title: &str, status: TaskStatus| ChecklistItem {
        uuid: id(n),
        title: title.to_string(),
        task_uuid: id(1),
        status,
        index: n as i32,
    };
    t.checklist_items = vec![
        item(0x11, "One", TaskStatus::Incomplete),
        item(0x22, "Two", TaskStatus::Incomplete),
        item(0x33, "Three", TaskStatus::Completed),
        item(0x44, "Four", TaskStatus::Unknown(9)),
    ];
    t
}

fn full(n: u8) -> String {
    id(n).to_string()
}

#[test]
fn checking_items_writes_each_once_with_its_label() {
    let t = checklist_task();
    let raw = format!("{}, {} ,{}", full(0x11), full(0x22), full(0x11));
    let (updates, items, label) = mark_checklist_plan(&t, &raw, MarkAction::Completed, now()).expect("plan");
    assert_eq!(label, "checked");
    assert_eq!(items.iter().map(|i| i.title.as_str()).collect::<Vec<_>>(), vec!["One", "Two"]);
    assert_eq!(updates.iter().map(|u| u.uuid).collect::<Vec<_>>(), vec![id(0x11), id(0x22)]);
    assert!(updates.iter().all(|u| u.status == TaskStatus::Completed && u.stop_date == Some(now())));

    let raw = full(0x33);
    let (updates, _, label) = mark_checklist_plan(&t, &raw, MarkAction::Incomplete, now()).expect("plan");
    assert_eq!(label, "unchecked");
    assert_eq!(updates[0].status, TaskStatus::Incomplete);
    assert_eq!(updates[0].stop_date, None);
}

#[test]
fn a_checklist_mark_refuses_what_it_cannot_change() {
    let t = checklist_task();
    assert_eq!(
        mark_checklist_plan(&t, " , ", MarkAction::Completed, now()).unwrap_err(),
        "No checklist item IDs provided."
    );
    assert_eq!(
        mark_checklist_plan(&t, &full(0x33), MarkAction::Completed, now()).unwrap_err(),
        "Checklist item is already checked: Three"
    );
    assert_eq!(
        mark_checklist_plan(&t, &full(0x44), MarkAction::Canceled, now()).unwrap_err(),
        "Checklist item is of an unknown status: Four"
    );
    assert_eq!(
        mark_checklist_plan(&t, "zz", MarkAction::Canceled, now()).unwrap_err(),
        "Checklist item not found: 'zz'"
    );
}

fn task_named(uuid: &str, title: &str, status: TaskStatus) -> Task {
    let mut t = task(0, title);
    t.uuid = parsed(uuid);
    t.status = status;
    t.start = TaskStart::Inbox;
    t.entity = "Task6".to_string();
    t
}

fn mark_one(s: &ThingsStore, uuid: &str, action: MarkAction) -> (Vec<StatusUpdate>, Vec<String>) {
    let (updates, _, errors) = mark_status_plan(s, &[uuid], action, now());
    (updates, errors)
}

#[test]
fn an_instance_whose_template_did_not_replay_is_refused() {
    let mut instance = task_named(TASK_A, "Water plants", TaskStatus::Incomplete);
    instance.recurrence_templates = vec![parsed(TPL_A)];
    let s = store(vec![instance]);
    let t = s.get_task(TASK_A).expect("instance");
    let (valid, message) = validate_recurring_instance(t, &s);
    assert!(!valid);
    assert_eq!(message, "The template of this repeating item did not replay completely.");
}

#[test]
fn mark_status_payloads() {
    let s = store(vec![task_named(TASK_A, "Alpha", TaskStatus::Incomplete)]);
    let (updates, errors) = mark_one(&s, TASK_A, MarkAction::Completed);
    assert!(errors.is_empty());
    assert_eq!(updates.len(), 1);
    assert_eq!(updates[0].uuid, parsed(TASK_A));
    assert_eq!(updates[0].entity, EntityType::Task7);
    assert_eq!(updates[0].status, TaskStatus::Completed);
    assert_eq!(updates[0].stop_date, Some(now()));
    assert_eq!(updates[0].modification_date, now());

    let s = store(vec![task_named(TASK_A, "Alpha", TaskStatus::Completed)]);
    let (updates, _) = mark_one(&s, TASK_A, MarkAction::Incomplete);
    assert_eq!(updates[0].entity, EntityType::Task7);
    assert_eq!(updates[0].status, TaskStatus::Incomplete);
    assert_eq!(updates[0].stop_date, None);
    assert_eq!(updates[0].modification_date, now());
}

#[test]
fn mark_accepts_task7_and_rejects_opaque_repeaters() {
    let mut current = task_named(TASK_A, "Current task", TaskStatus::Incomplete);
    current.entity = "Task7".to_string();
    let (updates, errors) = mark_one(&store(vec![current]), TASK_A, MarkAction::Completed);
    assert!(errors.is_empty());
    assert_eq!(updates[0].entity, EntityType::Task7);

    let mut repeating = task_named(TASK_A, "Repeater", TaskStatus::Incomplete);
    repeating.entity = "Task7".to_string();
    repeating.repeater = Some("{\"version\":1}".to_string());
    let (updates, errors) = mark_one(&store(vec![repeating]), TASK_A, MarkAction::Completed);
    assert!(updates.is_empty());
    assert_eq!(errors.len(), 1);
    assert!(errors[0].contains("an item with a repeater"));
}

#[test]
fn mark_checklist_payloads() {
    let mut t = task_named(TASK_A, "Task with checklist", TaskStatus::Incomplete);
    let item = |uuid: &str, title: &str, index: i32| ChecklistItem {
        uuid: parsed(uuid),
        title: title.to_string(),
        task_uuid: parsed(TASK_A),
        status: TaskStatus::Incomplete,
        index,
    };
    t.checklist_items = vec![item(CHECK_A, "One", 1), item(CHECK_B, "Two", 2)];
    let raw = format!("{},{}", &CHECK_A[..6], &CHECK_B[..6]);
    let (updates, _, _) = mark_checklist_plan(&t, &raw, MarkAction::Completed, now()).expect("checked plan");
    assert_eq!(updates.len(), 2);
    assert_eq!(updates[0].uuid, parsed(CHECK_A));
    assert_eq!(updates[1].uuid, parsed(CHECK_B));
    for u in &updates {
        assert_eq!(u.entity, EntityType::ChecklistItem3);
        assert_eq!(u.status, TaskStatus::Completed);
        assert_eq!(u.stop_date, Some(now()));
        assert_eq!(u.modification_date, now());
    }
}

#[test]
fn mark_recurring_rejection_cases() {
    let mut template = task_named(TASK_A, "Recurring template", TaskStatus::Incomplete);
    template.recurrence_rule = Some(fixed_rule());
    let s = store(vec![template]);
    for action in [MarkAction::Completed, MarkAction::Canceled] {
        let (updates, errors) = mark_one(&s, TASK_A, action);
        assert!(updates.is_empty());
        assert_eq!(
            errors,
            vec!["A repeat template takes no status, mark one of its instances instead. (Recurring template)".to_string()]
        );
    }

    let template = |uuid: &str| {
        let mut t = task_named(uuid, "Recurring template", TaskStatus::Incomplete);
        t.recurrence_rule = Some(fixed_rule());
        t
    };
    let mut instance = task_named(TASK_A, "Recurring instance", TaskStatus::Incomplete);
    instance.recurrence_templates = vec![parsed(TPL_A), parsed(TPL_B)];
    let s = store(vec![template(TPL_A), template(TPL_B), instance]);
    for action in [MarkAction::Completed, MarkAction::Canceled] {
        let (_, errors) = mark_one(&s, TASK_A, action);
        assert_eq!(
            errors,
            vec!["This repeating item names 2 templates where one is expected. (Recurring instance)".to_string()]
        );
    }
}
