use things::ids::things_id::ThingsId;
use things::store::entities::{Instant, Task};
use things::store::ThingsStore;
use things::wire::{TaskStart, TaskStatus, TaskType};

fn id(n: u8) -> ThingsId {
    let mut bytes = [0u8; 16];
    bytes[0] = 5;
    bytes[15] = n;
    ThingsId(bytes)
}

fn closed(n: u8, title: &str, status: TaskStatus, stop: i64, index: i32) -> Task {
    Task {
        uuid: id(n),
        title: title.to_string(),
        status,
        start: TaskStart::Anytime,
        item_type: TaskType::Todo,
        entity: "Task7".to_string(),
        notes: None,
        project: None,
        area: None,
        action_group: None,
        tags: Vec::new(),
        trashed: false,
        deadline: None,
        deadline_suppressed: false,
        start_date: None,
        stop_date: Some(Instant { seconds: stop, nanos: 0 }),
        creation_date: None,
        modification_date: None,
        index,
        today_index: 0,
        today_index_reference: None,
        leaves_tombstone: false,
        instance_creation_paused: false,
        instance_creation_start_date: None,
        instance_creation_count: 0,
        evening: false,
        alarm_time_offset: None,
        recurrence_rule: None,
        repeater: None,
        recurrence_templates: Vec::new(),
        due_date_offset: 0,
        degraded: false,
        checklist_items: Vec::new(),
    }
}

fn store(tasks: Vec<Task>) -> ThingsStore {
    let domain: Vec<ThingsId> = tasks.iter().map(|t| t.uuid).collect();
    let upgradable = domain.clone();
    ThingsStore::from_parts(tasks, Vec::new(), Vec::new(), domain, upgradable)
}

fn titles(list: &[&Task]) -> Vec<String> {
    list.iter().map(|t| t.title.clone()).collect()
}

#[test]
fn the_logbook_lists_closed_items_latest_first_within_the_days() {
    let mut trashed = closed(4, "Trashed", TaskStatus::Completed, 3_000, 0);
    trashed.trashed = true;
    let mut open = closed(5, "Open", TaskStatus::Incomplete, 4_000, 0);
    open.stop_date = None;
    let s = store(vec![
        closed(1, "Early", TaskStatus::Completed, 1_000, 0),
        closed(2, "Late", TaskStatus::Canceled, 2_000, 0),
        closed(3, "Late too", TaskStatus::Completed, 2_000, 5),
        trashed,
        open,
    ]);
    let days = vec![(id(1), Some(10)), (id(2), Some(12)), (id(3), Some(12)), (id(4), Some(12)), (id(5), Some(12))];
    assert_eq!(titles(&s.logbook_by_days(None, None, &days)), vec!["Late too", "Late", "Early"]);
    assert_eq!(titles(&s.logbook_by_days(Some(11), None, &days)), vec!["Late too", "Late"]);
    assert_eq!(titles(&s.logbook_by_days(None, Some(10), &days)), vec!["Early"]);
    assert_eq!(s.logbook(None, None).len(), 3);
}
