use things::arg_types::IdentifierToken;
use things::edit_plans::TagDeltaArgs;
use things::edit_task::{edit_plan, edit_plan_with, EditArgs, EditContainer, EditPlan};
use things::ids::things_id::ThingsId;
use things::store::entities::{Area, ChecklistItem, Instant, Tag, Task};
use things::store::ThingsStore;
use things::wire::{EntityType, TaskStart, TaskStatus, TaskType};

const TODAY: i64 = 1_699_920_000;
const TASK_UUID: &str = "A7h5eCi24RvAWKC3Hv3muf";
const TASK_UUID2: &str = "3H9jsMx3kYMrQ4M7DReSRn";
const PROJECT_UUID: &str = "KGvAPpMrzHAKMdgMiERP1V";
const AREA_UUID: &str = "MpkEei6ybkFS2n6SXvwfLf";
const CHECK_A: &str = "5uwoHPi5m5i8QJa6Rae6Cn";
const CHECK_B: &str = "CwhFwmHxjHkR7AFn9aJH9Q";

/// the instant the writes are stamped with
fn now() -> Instant {
    Instant { seconds: 1_700_000_222, nanos: 0 }
}

fn id(text: &str) -> ThingsId {
    ThingsId::parse(text).expect("id")
}

fn token(text: &str) -> IdentifierToken {
    IdentifierToken::parse(text).expect("token")
}

fn task(uuid: &str, title: &str) -> Task {
    Task {
        uuid: id(uuid),
        title: title.to_string(),
        status: TaskStatus::Incomplete,
        start: TaskStart::Inbox,
        item_type: TaskType::Todo,
        entity: "Task6".to_string(),
        notes: None,
        project: None,
        area: None,
        action_group: None,
        tags: Vec::new(),
        trashed: false,
        deadline: None,
        deadline_suppressed: false,
        start_date: None,
        stop_date: None,
        creation_date: None,
        modification_date: None,
        index: 0,
        today_index: 0,
        today_index_reference: None,
        leaves_tombstone: false,
        instance_creation_paused: false,
        instance_creation_start_date: None,
        instance_creation_count: 0,
        evening: false,
        alarm_time_offset: None,
        recurrence_rule: None,
        repeater: None,
        recurrence_templates: Vec::new(),
        due_date_offset: 0,
        degraded: false,
        checklist_items: Vec::new(),
    }
}

fn project(uuid: &str, title: &str) -> Task {
    let mut p = task(uuid, title);
    p.item_type = TaskType::Project;
    p.start = TaskStart::Anytime;
    p
}

fn area(uuid: &str, title: &str) -> Area {
    Area { uuid: id(uuid), title: title.to_string(), tags: Vec::new(), index: 0 }
}

fn tag(uuid: &str, title: &str) -> Tag {
    Tag { uuid: id(uuid), title: title.to_string(), shortcut: None, index: 0, parent_uuid: None }
}

fn item(uuid: &str, task_uuid: &str, title: &str, index: i32) -> ChecklistItem {
    ChecklistItem { uuid: id(uuid), title: title.to_string(), task_uuid: id(task_uuid), status: TaskStatus::Incomplete, index }
}

fn store_of(tasks: Vec<Task>, areas: Vec<Area>, tags: Vec<Tag>) -> ThingsStore {
    let domain: Vec<ThingsId> = tasks.iter().map(|t| t.uuid).collect();
    let upgradable: Vec<ThingsId> = tasks.iter().filter(|t| t.entity == "Task6" || t.entity == "Task7").map(|t| t.uuid).collect();
    ThingsStore::from_parts(tasks, areas, tags, domain, upgradable)
}

fn build_store(tasks: Vec<Task>) -> ThingsStore {
    store_of(tasks, Vec::new(), Vec::new())
}

fn args(ids: &[&str]) -> EditArgs {
    EditArgs {
        task_ids: ids.iter().map(|i| token(i)).collect(),
        title: None,
        notes: None,
        move_target: None,
        tag_delta: TagDeltaArgs { add_tags: None, remove_tags: None },
        add_checklist: vec![],
        remove_checklist: None,
        rename_checklist: vec![],
        completed_on: None,
        created_on: None,
        when: None,
        deadline_date: None,
        clear_deadline: false,
        reminder: None,
        clear_reminder: false,
        repeat: None,
        times: None,
        until: None,
    }
}

fn plan<'a>(a: &EditArgs, s: &'a ThingsStore) -> Result<EditPlan<'a>, String> {
    edit_plan(a, s, now(), TODAY).expect("within the calendar")
}

#[test]
fn edit_title_and_notes_payloads() {
    let store = build_store(vec![task(TASK_UUID, "Old title")]);
    let mut a = args(&[TASK_UUID]);
    a.title = Some("New title".to_string());
    a.notes = Some("new notes".to_string());
    let p = plan(&a, &store).expect("plan");
    assert_eq!(p.edits[0].title, Some("New title".to_string()));
    assert_eq!(p.edits[0].notes, Some("new notes".to_string()));
    assert_eq!(p.labels, vec!["title".to_string(), "notes".to_string()]);
}

#[test]
fn edit_move_targets_payload() {
    let store = store_of(
        vec![task(TASK_UUID, "Movable"), project(PROJECT_UUID, "Roadmap")],
        vec![area(AREA_UUID, "Work")],
        Vec::new(),
    );
    let mut a = args(&[TASK_UUID]);
    a.move_target = Some("inbox".to_string());
    let inbox = plan(&a, &store).expect("inbox plan");
    assert_eq!(inbox.edits[0].start, Some(TaskStart::Inbox));
    assert!(matches!(inbox.edits[0].container, Some(EditContainer::Cleared)));

    a.move_target = Some("clear".to_string());
    let clear = plan(&a, &store).expect("clear plan");
    assert_eq!(clear.edits[0].start, Some(TaskStart::Anytime));
    assert!(matches!(clear.edits[0].container, Some(EditContainer::Cleared)));
    assert_eq!(clear.entity, EntityType::Task7);
    assert_eq!(clear.modification_date, now());

    a.move_target = Some(PROJECT_UUID.to_string());
    let project_move = plan(&a, &store).expect("project move plan");
    assert!(matches!(project_move.edits[0].container, Some(EditContainer::Project(p)) if p == id(PROJECT_UUID)));
    assert_eq!(project_move.edits[0].start, Some(TaskStart::Anytime));
    assert_eq!(project_move.labels, vec![format!("move={PROJECT_UUID}")]);

    a.move_target = Some(AREA_UUID.to_string());
    let area_move = plan(&a, &store).expect("area move plan");
    assert!(matches!(area_move.edits[0].container, Some(EditContainer::Area(x)) if x == id(AREA_UUID)));
}

#[test]
fn a_repeat_added_by_an_edit_mirrors_the_edited_to_do() {
    let mut t = task(TASK_UUID, "Old title");
    t.checklist_items = vec![item(CHECK_A, TASK_UUID, "Step one", 1), item(CHECK_B, TASK_UUID, "Step two", 2)];
    let store = build_store(vec![t]);
    let mut a = args(&[TASK_UUID]);
    a.title = Some("New title".to_string());
    a.notes = Some("New notes".to_string());
    a.add_checklist = vec!["Step three".to_string()];
    a.remove_checklist = Some(CHECK_B[..6].to_string());
    a.rename_checklist = vec![format!("{}:Step won", &CHECK_A[..6])];
    a.when = Some("today".to_string());
    a.repeat = Some("daily".to_string());
    let p = plan(&a, &store).expect("plan");
    let edit = &p.edits[0];
    let template = edit.template.as_ref().expect("template");
    assert_eq!(template.title, "New title");
    assert_eq!(template.notes, Some("New notes".to_string()));
    assert_eq!(template.checklist, vec![("Step won".to_string(), 1), ("Step three".to_string(), 3)]);
    assert_eq!(edit.added_items, vec![("Step three".to_string(), 3)]);
    assert_eq!(edit.removed_items, vec![id(CHECK_B)]);
    assert_eq!(edit.renamed_items, vec![(id(CHECK_A), "Step won".to_string())]);

    // a deadline has no place on the template yet, the edit is refused
    a.deadline_date = Some("2027-01-15".to_string());
    let err = plan(&a, &store).err().expect("deadline");
    assert!(err.contains("clear the deadline"));
}

#[test]
fn moving_to_the_inbox_clears_the_day_and_the_reminder() {
    let mut scheduled = task(TASK_UUID, "Dated");
    scheduled.entity = "Task7".to_string();
    scheduled.start = TaskStart::Anytime;
    scheduled.start_date = Some(Instant { seconds: TODAY, nanos: 0 });
    scheduled.today_index_reference = Some(TODAY);
    scheduled.evening = true;
    scheduled.alarm_time_offset = Some(32400);
    let store = build_store(vec![scheduled]);
    let with = |move_target: Option<&str>, when: Option<&str>| {
        let mut a = args(&[TASK_UUID]);
        a.move_target = move_target.map(str::to_string);
        a.when = when.map(str::to_string);
        a
    };
    for (move_target, when) in [(Some("inbox"), None), (None, Some("someday"))] {
        let p = plan(&with(move_target, when), &store).expect("plan");
        let e = &p.edits[0];
        assert_eq!(e.scheduled_date, Some(None));
        assert_eq!(e.today_index_reference, Some(None));
        assert_eq!(e.evening, Some(false));
        assert_eq!(e.alarm_time_offset, Some(None));
    }
    let err = plan(&with(Some("inbox"), Some("today")), &store).err().expect("inbox and a day");
    assert!(err.starts_with("--move inbox cannot be combined"));
}

#[test]
fn edit_multi_id_move_and_rejections() {
    let store = build_store(vec![task(TASK_UUID, "Task One"), task(TASK_UUID2, "Task Two"), project(PROJECT_UUID, "Roadmap")]);
    let mut a = args(&[TASK_UUID, TASK_UUID2]);
    a.move_target = Some(PROJECT_UUID.to_string());
    let p = plan(&a, &store).expect("multi move");
    assert_eq!(p.edits.len(), 2);
    let mut b = args(&[TASK_UUID, TASK_UUID2]);
    b.title = Some("New".to_string());
    assert_eq!(plan(&b, &store).err().expect("title should reject"), "--title requires a single task ID.");
}

#[test]
fn edit_tag_payloads() {
    let tag1 = "WukwpDdL5Z88nX3okGMKTC";
    let tag2 = "JiqwiDaS3CAyjCmHihBDnB";
    let mut t = task(TASK_UUID, "A");
    t.tags = vec![id(tag1)];
    let store = store_of(vec![t], Vec::new(), vec![tag(tag1, "Work"), tag(tag2, "Focus")]);
    let mut a = args(&[TASK_UUID]);
    a.tag_delta = TagDeltaArgs { add_tags: Some("Focus".to_string()), remove_tags: Some("Work".to_string()) };
    let p = plan(&a, &store).expect("tag plan");
    assert_eq!(p.edits[0].tag_ids, Some(vec![id(tag2)]));
}

#[test]
fn edit_checklist_mutations() {
    let mut t = task(TASK_UUID, "A");
    t.checklist_items = vec![item(CHECK_A, TASK_UUID, "Step one", 1), item(CHECK_B, TASK_UUID, "Step two", 2)];
    let store = build_store(vec![t]);
    let mut a = args(&[TASK_UUID]);
    a.add_checklist = vec!["Step three".to_string(), "Step four".to_string()];
    a.remove_checklist = Some(format!("{},{}", &CHECK_A[..6], &CHECK_B[..6]));
    a.rename_checklist = vec![format!("{}:Renamed", &CHECK_A[..6])];
    let p = plan(&a, &store).expect("checklist plan");
    let e = &p.edits[0];
    assert_eq!(e.renamed_items, vec![(id(CHECK_A), "Renamed".to_string())]);
    assert_eq!(e.removed_items, vec![id(CHECK_A), id(CHECK_B)]);
    assert_eq!(e.added_items, vec![("Step three".to_string(), 3), ("Step four".to_string(), 4)]);
}

#[test]
fn edit_no_changes_project_and_move_errors() {
    let store = build_store(vec![task(TASK_UUID, "A")]);
    assert_eq!(plan(&args(&[TASK_UUID]), &store).err().expect("no changes"), "No edit changes requested.");

    let store = build_store(vec![task(TASK_UUID, "A"), project(PROJECT_UUID, "Roadmap")]);
    let mut a = args(&[PROJECT_UUID]);
    a.title = Some("New".to_string());
    assert_eq!(plan(&a, &store).err().expect("project edit reject"), "Use 'projects edit' to edit a project.");

    let store = build_store(vec![task(TASK_UUID, "Movable"), task(PROJECT_UUID, "Not a project")]);
    let mut a = args(&[TASK_UUID]);
    a.move_target = Some(PROJECT_UUID.to_string());
    assert_eq!(
        plan(&a, &store).err().expect("invalid move target kind"),
        "--move target must be Inbox, clear, a project ID, or an area ID."
    );
}

#[test]
fn edit_move_target_ambiguous() {
    let ambiguous_project = "ABCD1234efgh5678JKLMno";
    let ambiguous_area = "ABCD1234pqrs9123TUVWxy";
    let store = store_of(
        vec![task(TASK_UUID, "Movable"), project(ambiguous_project, "Project match")],
        vec![area(ambiguous_area, "Area match")],
        Vec::new(),
    );
    let mut a = args(&[TASK_UUID]);
    a.move_target = Some("ABCD1234".to_string());
    assert_eq!(
        plan(&a, &store).err().expect("ambiguous move target"),
        "Ambiguous --move target 'ABCD1234' (matches project and area)."
    );
}

#[test]
fn checklist_single_task_constraint_and_empty_title() {
    let store = build_store(vec![task(TASK_UUID, "A"), task(TASK_UUID2, "B")]);
    let mut a = args(&[TASK_UUID, TASK_UUID2]);
    a.add_checklist = vec!["Step".to_string()];
    assert_eq!(
        plan(&a, &store).err().expect("single task constraint"),
        "--add-checklist/--remove-checklist/--rename-checklist require a single task ID."
    );
    let store = build_store(vec![task(TASK_UUID, "A")]);
    let mut a = args(&[TASK_UUID]);
    a.title = Some("   ".to_string());
    assert_eq!(plan(&a, &store).err().expect("empty title"), "Task title cannot be empty.");
}

#[test]
fn an_edit_schedules_and_labels_each_change_once() {
    let mut t = task(TASK_UUID, "A");
    t.start_date = Some(Instant { seconds: TODAY, nanos: 0 });
    let store = build_store(vec![t]);
    let mut a = args(&[TASK_UUID]);
    a.when = Some(" Today ".to_string());
    a.deadline_date = Some("2030-01-02".to_string());
    a.reminder = Some("09:30".to_string());
    let p = plan(&a, &store).expect("plan");
    let e = &p.edits[0];
    assert_eq!(e.start, Some(TaskStart::Anytime));
    assert_eq!(e.scheduled_date, Some(Some(TODAY)));
    assert_eq!(e.alarm_time_offset, Some(Some(34200)));
    assert_eq!(p.labels, vec!["when=today".to_string(), "deadline=2030-01-02".to_string(), "reminder=09:30".to_string()]);

    let mut b = args(&[TASK_UUID]);
    b.when = Some("2023-11-15".to_string());
    b.repeat = Some("weekly:fri".to_string());
    assert_eq!(
        plan(&b, &store).err().expect("not a day of the rule"),
        "2023-11-15 is not a day of weekly:fri, the next one is 2023-11-17, set --when 2023-11-17"
    );
    let mut c = args(&[TASK_UUID]);
    c.times = Some(2);
    assert_eq!(plan(&c, &store).err().expect("times"), "--times and --until need --repeat");
}

#[test]
fn completion_and_creation_instants_are_read_from_the_flags() {
    let mut done = task(TASK_UUID, "Done");
    done.status = TaskStatus::Completed;
    let store = build_store(vec![done, task(TASK_UUID2, "Open")]);
    let mut a = args(&[TASK_UUID]);
    a.completed_on = Some("2023-11-14T10:00:00.250Z".to_string());
    let p = plan(&a, &store).expect("plan");
    assert_eq!(p.edits[0].stop_date, Some(Instant { seconds: 1_699_956_000, nanos: 250_000_000 }));
    assert_eq!(p.labels, vec!["completed-on".to_string()]);

    let mut b = args(&[TASK_UUID2]);
    b.completed_on = Some("2023-11-14".to_string());
    assert_eq!(plan(&b, &store).err().expect("open"), "--completed-on needs a completed or canceled task.");

    let mut c = args(&[TASK_UUID]);
    c.created_on = Some("not a day".to_string());
    assert_eq!(
        plan(&c, &store).err().expect("bad"),
        "Invalid --created-on: not a day (expected RFC 3339 or YYYY-MM-DD)"
    );

    let mut d = args(&[TASK_UUID]);
    d.created_on = Some("x".to_string());
    let read = Some(Ok((42, 7)));
    let p = edit_plan_with(&d, &store, now(), TODAY, &None, &read).expect("given instant");
    assert_eq!(p.edits[0].creation_date, Some(Instant { seconds: 42, nanos: 7 }));
}
