use things::ids::things_id::ThingsId;
use things::store::entities::{Area, ChecklistItem, Instant, ProjectProgress, Tag, Task};
use things::store::ThingsStore;
use things::wire::{TaskStart, TaskStatus, TaskType};

fn id(n: u8) -> ThingsId {
    let mut bytes = [0u8; 16];
    bytes[0] = 1;
    bytes[15] = n;
    ThingsId(bytes)
}

fn task(n: u8, title: &str) -> Task {
    Task {
        uuid: id(n),
        title: title.to_string(),
        status: TaskStatus::Incomplete,
        start: TaskStart::Inbox,
        item_type: TaskType::Todo,
        entity: "Task6".to_string(),
        notes: None,
        project: None,
        area: None,
        action_group: None,
        tags: Vec::new(),
        trashed: false,
        deadline: None,
        deadline_suppressed: false,
        start_date: None,
        stop_date: None,
        creation_date: None,
        modification_date: None,
        index: 0,
        today_index: 0,
        today_index_reference: None,
        leaves_tombstone: false,
        instance_creation_paused: false,
        instance_creation_start_date: None,
        instance_creation_count: 0,
        evening: false,
        alarm_time_offset: None,
        recurrence_rule: None,
        repeater: None,
        recurrence_templates: Vec::new(),
        due_date_offset: 0,
        degraded: false,
        checklist_items: Vec::new(),
    }
}

fn project(n: u8, title: &str) -> Task {
    let mut p = task(n, title);
    p.item_type = TaskType::Project;
    p.start = TaskStart::Anytime;
    p
}

fn heading(n: u8, title: &str, in_project: u8) -> Task {
    let mut h = task(n, title);
    h.item_type = TaskType::Heading;
    h.project = Some(id(in_project));
    h
}

fn tag(n: u8, title: &str, parent: Option<u8>) -> Tag {
    Tag { uuid: id(n), title: title.to_string(), shortcut: None, index: 0, parent_uuid: parent.map(id) }
}

fn store(tasks: Vec<Task>, areas: Vec<Area>, tags: Vec<Tag>) -> ThingsStore {
    let domain: Vec<ThingsId> = tasks.iter().map(|t| t.uuid).chain(areas.iter().map(|a| a.uuid)).collect();
    let upgradable: Vec<ThingsId> = tasks.iter().map(|t| t.uuid).collect();
    ThingsStore::from_parts(tasks, areas, tags, domain, upgradable)
}

fn titles(list: &[&Task]) -> Vec<String> {
    list.iter().map(|t| t.title.clone()).collect()
}

#[test]
fn the_inbox_holds_loose_open_captures_in_index_order() {
    let mut later = task(1, "Later");
    later.index = 20;
    let mut sooner = task(2, "Sooner");
    sooner.index = 10;
    let mut done = task(3, "Done");
    done.status = TaskStatus::Completed;
    let mut in_project = task(4, "In project");
    in_project.project = Some(id(9));
    let blank = task(5, "  ");
    let mut trashed = task(6, "Trashed");
    trashed.trashed = true;
    let s = store(vec![later, sooner, done, in_project, blank, trashed, project(9, "Work")], vec![], vec![]);
    assert_eq!(titles(&s.inbox()), vec!["Sooner", "Later"]);
}

#[test]
fn a_heading_carries_its_project_and_its_trash() {
    let mut p = project(1, "Remodel");
    p.area = Some(id(7));
    let h = heading(2, "Plumbing", 1);
    let mut sink = task(3, "Order sink");
    sink.action_group = Some(id(2));
    let s = store(vec![p, h, sink], vec![], vec![]);
    let sink = s.get_task(&id(3).to_string()).expect("sink");
    assert_eq!(s.effective_project_uuid(sink), Some(id(1)));
    assert_eq!(s.effective_area_uuid(sink), Some(id(7)));
    assert!(!s.in_trash(sink));

    let mut p = project(1, "Remodel");
    p.trashed = true;
    let mut sink = task(3, "Order sink");
    sink.action_group = Some(id(2));
    let s = store(vec![p, heading(2, "Plumbing", 1), sink], vec![], vec![]);
    let sink = s.get_task(&id(3).to_string()).expect("sink");
    assert!(s.in_trash(sink));
    assert!(s.in_closed_container(sink));
}

#[test]
fn tag_ancestors_stop_where_the_chain_turns_back() {
    // 1 -> 2 -> 3 -> 1
    let s = store(vec![], vec![], vec![tag(1, "a", Some(2)), tag(2, "b", Some(3)), tag(3, "c", Some(1))]);
    assert_eq!(s.tag_ancestors(&id(1)), vec![id(2), id(3)]);
    // a parent the store does not hold ends the chain after it
    let s = store(vec![], vec![], vec![tag(1, "a", Some(2)), tag(2, "b", Some(8))]);
    assert_eq!(s.tag_ancestors(&id(1)), vec![id(2), id(8)]);
    assert_eq!(s.tag_ancestors(&id(5)), Vec::<ThingsId>::new());
}

#[test]
fn project_progress_counts_open_and_done_to_dos() {
    let p = project(1, "Launch");
    let mut a = task(2, "a");
    a.project = Some(id(1));
    let mut b = task(3, "b");
    b.project = Some(id(1));
    b.status = TaskStatus::Completed;
    let mut gone = task(4, "gone");
    gone.project = Some(id(1));
    gone.trashed = true;
    let mut template = task(5, "template");
    template.project = Some(id(1));
    template.recurrence_rule = Some(things::wire::RecurrenceRule {
        recurrence_type: things::wire::RecurrenceType::FixedSchedule,
        frequency_unit: things::wire::FrequencyUnit::Daily,
        frequency_amount: 1,
        offsets: Vec::new(),
        start_date: None,
        interval_anchor: None,
        end_date: None,
        repeat_count: 0,
        time_span_in_days: 0,
        version: 4,
    });
    let s = store(vec![p, a, b, gone, template], vec![], vec![]);
    assert_eq!(s.project_progress(&id(1).to_string()), ProjectProgress { total: 2, done: 1 });
    assert_eq!(s.project_progress("nonsense"), ProjectProgress { total: 0, done: 0 });
}

#[test]
fn identifiers_resolve_in_full_by_prefix_or_not_at_all() {
    let s = store(vec![task(1, "One"), task(2, "Two")], vec![], vec![]);
    let full = id(1).to_string();
    let (found, message, candidates) = s.resolve_task_identifier(&full);
    assert_eq!(found.map(|t| t.title.clone()), Some("One".to_string()));
    assert!(message.is_empty() && candidates.is_empty());

    let (found, message, candidates) = s.resolve_task_identifier("   ");
    assert!(found.is_none() && candidates.is_empty());
    assert_eq!(message, "Missing task identifier.");

    let shared: String = full.chars().take(3).collect();
    let (found, message, candidates) = s.resolve_task_identifier(&shared);
    assert!(found.is_none());
    assert_eq!(message, "Ambiguous task id prefix.");
    assert_eq!(candidates.len(), 2);

    let (found, message, _) = s.resolve_task_identifier("zzzz");
    assert!(found.is_none());
    assert_eq!(message, "Task not found: zzzz");
}

#[test]
fn a_trashed_item_is_named_as_such_for_a_mark() {
    let mut t = task(1, "Old\nnote");
    t.trashed = true;
    let s = store(vec![t], vec![], vec![]);
    let (found, message, candidates) = s.resolve_mark_identifier(&id(1).to_string());
    assert!(found.is_none() && candidates.is_empty());
    assert_eq!(message, "Item is in the Trash: Old^Jnote");
}

#[test]
fn the_trash_lists_the_latest_change_first() {
    let mut a = task(1, "a");
    a.trashed = true;
    a.modification_date = Some(Instant { seconds: 100, nanos: 0 });
    let mut b = task(2, "b");
    b.trashed = true;
    b.modification_date = Some(Instant { seconds: 200, nanos: 5 });
    let mut c = task(3, "c");
    c.trashed = true;
    let mut p = project(4, "p");
    p.trashed = true;
    p.modification_date = Some(Instant { seconds: 150, nanos: 0 });
    let mut inside = task(5, "inside");
    inside.project = Some(id(4));
    let s = store(vec![a, b, c, p, inside], vec![], vec![]);
    let trash = s.trash();
    let order: Vec<String> = trash.iter().map(|(t, _)| t.title.clone()).collect();
    assert_eq!(order, vec!["b", "p", "a", "c"]);
    assert_eq!(titles(&trash[1].1), vec!["inside"]);
    assert!(trash[0].1.is_empty());
}

#[test]
fn titles_fall_back_to_the_id() {
    let s = store(vec![project(1, "Roadmap")], vec![Area { uuid: id(2), title: "Home".to_string(), tags: vec![], index: 0 }], vec![tag(3, " ", None)]);
    assert_eq!(s.resolve_project_title(&id(1).to_string()), "Roadmap");
    assert_eq!(s.resolve_project_title("abcdefghijk"), "(project abcdefgh)");
    assert_eq!(s.resolve_project_title(""), "(project)");
    assert_eq!(s.resolve_area_title(&id(2).to_string()), "Home");
    let blank_tag = id(3).to_string();
    assert_eq!(s.resolve_tag_title(&blank_tag), blank_tag);
}

#[test]
fn prefix_widths_cover_every_id() {
    let s = store(vec![task(1, "One"), task(2, "Two")], vec![], vec![]);
    let one = id(1).to_string();
    let short = s.short_id(&one);
    assert!(one.starts_with(&short) && !short.is_empty());
    assert_eq!(s.unique_prefix_length(&[]), 0);
    assert_eq!(s.unique_prefix_length(&["not-an-id"]), 6);
    assert_eq!(s.unique_prefix_length(&[one.as_str()]), short.len().max(1));
}

#[test]
fn a_reminder_reads_as_hours_and_minutes() {
    let mut t = task(1, "Call");
    t.alarm_time_offset = Some(32400);
    assert_eq!(t.reminder(), Some("09:00".to_string()));
    t.alarm_time_offset = Some(13 * 3600 + 5 * 60 + 59);
    assert_eq!(t.reminder(), Some("13:05".to_string()));
    t.alarm_time_offset = Some(-60);
    assert_eq!(t.reminder(), Some(format!("{:02}:{:02}", -60i64 / 3600, -60i64 % 3600 / 60)));
    t.alarm_time_offset = None;
    assert_eq!(t.reminder(), None);
}

#[test]
fn today_takes_started_items_and_due_deadlines() {
    let today = Instant { seconds: 1_774_396_800, nanos: 0 };
    let mut started = task(1, "Started");
    started.start = TaskStart::Anytime;
    started.start_date = Some(Instant { seconds: 1_774_396_800, nanos: 0 });
    let mut due = task(2, "Due");
    due.deadline = Some(Instant { seconds: 1_774_396_800, nanos: 0 });
    let mut suppressed = task(3, "Suppressed");
    suppressed.deadline = Some(Instant { seconds: 1_774_396_800, nanos: 0 });
    suppressed.deadline_suppressed = true;
    let mut future = task(4, "Future");
    future.start = TaskStart::Anytime;
    future.start_date = Some(Instant { seconds: 1_774_396_800, nanos: 1 });
    let s = store(vec![started, due, suppressed, future], vec![], vec![]);
    let listed: Vec<String> = s.tasks.iter().filter(|t| s.in_today(t, &today)).map(|t| t.title.clone()).collect();
    assert_eq!(listed, vec!["Started", "Due"]);
}

#[test]
fn checklist_items_report_their_status() {
    let item = ChecklistItem { uuid: id(1), title: "Step".to_string(), task_uuid: id(2), status: TaskStatus::Completed, index: 0 };
    assert!(item.is_completed());
    assert!(!item.is_canceled());
}

#[test]
fn the_lists_keep_their_own_items() {
    let mut someday = task(1, "Someday");
    someday.start = TaskStart::Someday;
    let mut anytime = task(2, "Anytime");
    anytime.start = TaskStart::Anytime;
    let mut waiting_project = project(3, "Waiting");
    waiting_project.start = TaskStart::Someday;
    let mut in_waiting = task(4, "In waiting");
    in_waiting.start = TaskStart::Anytime;
    in_waiting.project = Some(id(3));
    let today = Instant { seconds: 0, nanos: 0 };
    let s = store(vec![someday, anytime, waiting_project, in_waiting], vec![], vec![tag(9, "Errand", None), tag(8, "", None)]);
    assert_eq!(titles(&s.someday()), vec!["Someday", "Waiting"]);
    assert_eq!(titles(&s.anytime(&today)), vec!["Anytime"]);
    assert_eq!(titles(&s.projects(None)), vec!["Waiting"]);
    assert_eq!(s.tags().iter().map(|t| t.title.clone()).collect::<Vec<_>>(), vec!["Errand"]);
    assert!(s.tag_is_carried(&id(9)) == false);
    assert_eq!(s.tasks(Some(TaskStatus::Incomplete)).len(), 4);
}
