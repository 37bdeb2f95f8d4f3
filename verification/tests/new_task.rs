use things::calendar::{day_timestamp, parse_day};
use things::ids::things_id::ThingsId;
use things::new_task::{new_plan, new_plan_checked, NewArgs, NewPlan};
use things::store::entities::{Area, Instant, Tag, Task};
use things::store::ThingsStore;
use things::wire::{FrequencyUnit, RecurrenceType, TaskStart, TaskStatus, TaskType};

const NEW_TITLE_TODAY: i64 = 1_700_000_000;
const INBOX_ANCHOR_UUID: &str = "A7h5eCi24RvAWKC3Hv3muf";
const INBOX_OTHER_UUID: &str = "KGvAPpMrzHAKMdgMiERP1V";
const PROJECT_UUID: &str = "JFdhhhp37fpryAKu8UXwzK";
const AREA_UUID: &str = "74rgJf6Qh9wYp2TcVk8mNB";
const TAG_A_UUID: &str = "By8mN2qRk5Wv7Xc9Dt3HpL";
const TAG_B_UUID: &str = "Cv9nP3sTk6Xw8Yd4Eu5JqM";
const TODAY: i64 = NEW_TITLE_TODAY;

/// the instant the writes are stamped with
fn now() -> Instant {
    Instant { seconds: 1_700_000_000, nanos: 0 }
}

fn id(text: &str) -> ThingsId {
    ThingsId::parse(text).expect("id")
}

fn day(text: &str) -> i32 {
    parse_day(text, "day").expect("day")
}

fn task(uuid: &str, title: &str, start: TaskStart, index: i32, scheduled: Option<i64>, reference: Option<i64>, today_index: i32) -> Task {
    Task {
        uuid: id(uuid),
        title: title.to_string(),
        status: TaskStatus::Incomplete,
        start,
        item_type: TaskType::Todo,
        entity: "Task6".to_string(),
        notes: None,
        project: None,
        area: None,
        action_group: None,
        tags: Vec::new(),
        trashed: false,
        deadline: None,
        deadline_suppressed: false,
        start_date: scheduled.map(|seconds| Instant { seconds, nanos: 0 }),
        stop_date: None,
        creation_date: None,
        modification_date: None,
        index,
        today_index,
        today_index_reference: reference,
        leaves_tombstone: false,
        instance_creation_paused: false,
        instance_creation_start_date: None,
        instance_creation_count: 0,
        evening: false,
        alarm_time_offset: None,
        recurrence_rule: None,
        repeater: None,
        recurrence_templates: Vec::new(),
        due_date_offset: 0,
        degraded: false,
        checklist_items: Vec::new(),
    }
}

fn project(uuid: &str, title: &str) -> Task {
    let mut p = task(uuid, title, TaskStart::Anytime, 0, None, None, 0);
    p.item_type = TaskType::Project;
    p
}

fn area(uuid: &str, title: &str) -> Area {
    Area { uuid: id(uuid), title: title.to_string(), tags: Vec::new(), index: 0 }
}

fn tag(uuid: &str, title: &str) -> Tag {
    Tag { uuid: id(uuid), title: title.to_string(), shortcut: None, index: 0, parent_uuid: None }
}

fn store_of(tasks: Vec<Task>, areas: Vec<Area>, tags: Vec<Tag>) -> ThingsStore {
    let domain: Vec<ThingsId> = tasks.iter().map(|t| t.uuid).collect();
    let upgradable: Vec<ThingsId> = tasks.iter().filter(|t| t.entity == "Task6" || t.entity == "Task7").map(|t| t.uuid).collect();
    ThingsStore::from_parts(tasks, areas, tags, domain, upgradable)
}

fn build_store(tasks: Vec<Task>) -> ThingsStore {
    store_of(tasks, Vec::new(), Vec::new())
}

fn args(title: &str, in_target: &str) -> NewArgs {
    NewArgs {
        title: title.to_string(),
        in_target: in_target.to_string(),
        when: None,
        before_id: None,
        after_id: None,
        notes: String::new(),
        tags: None,
        deadline_date: None,
        reminder: None,
        repeat: None,
        times: None,
        until: None,
    }
}

fn planned(a: &NewArgs, s: &ThingsStore, today: i64) -> NewPlan {
    new_plan(a, s, now(), today).expect("plan")
}

#[test]
fn new_payload_parity_cases() {
    let bare = planned(&args("Ship release", "inbox"), &build_store(vec![]), TODAY);
    assert_eq!(bare.task.title, "Ship release");
    assert_eq!(bare.task.start, TaskStart::Inbox);
    assert_eq!(bare.task.start.to_wire(), 0);
    assert!(bare.repeat.is_none());

    let mut today_args = args("Task today", "inbox");
    today_args.when = Some("today".to_string());
    let when_today = planned(&today_args, &build_store(vec![]), TODAY);
    assert_eq!(when_today.task.start.to_wire(), 1);
    assert_eq!(when_today.task.scheduled_date, Some(TODAY));
    assert_eq!(when_today.task.today_index_reference, Some(TODAY));

    let full_store = store_of(
        vec![project(PROJECT_UUID, "Roadmap")],
        vec![area(AREA_UUID, "Work")],
        vec![tag(TAG_A_UUID, "urgent"), tag(TAG_B_UUID, "backend")],
    );
    let mut in_project_args = args("Project task", PROJECT_UUID);
    in_project_args.notes = "line one".to_string();
    in_project_args.tags = Some("urgent,backend".to_string());
    in_project_args.deadline_date = Some("2032-05-06".to_string());
    let in_project = planned(&in_project_args, &full_store, TODAY);
    let deadline_ts = day_timestamp(parse_day("2032-05-06", "--deadline").expect("parse"));
    assert_eq!(in_project.task.project, Some(id(PROJECT_UUID)));
    assert_eq!(in_project.task.start.to_wire(), 1);
    assert_eq!(in_project.task.tag_ids, vec![id(TAG_A_UUID), id(TAG_B_UUID)]);
    assert_eq!(in_project.task.deadline, Some(deadline_ts));
    assert_eq!(in_project.task.notes, Some("line one".to_string()));
}

#[test]
fn new_after_gap_and_rebalance() {
    let gap_store = build_store(vec![
        task(INBOX_ANCHOR_UUID, "Anchor", TaskStart::Inbox, 1024, None, None, 0),
        task(INBOX_OTHER_UUID, "Other", TaskStart::Inbox, 2048, None, None, 0),
    ]);
    let mut after_anchor = args("Inserted", "inbox");
    after_anchor.after_id = Some(INBOX_ANCHOR_UUID.to_string());
    let gap = planned(&after_anchor, &gap_store, TODAY);
    assert_eq!(gap.task.sort_index, 1536);
    assert!(gap.index_updates.is_empty());

    let rebalance_store = build_store(vec![
        task(INBOX_ANCHOR_UUID, "Anchor", TaskStart::Inbox, 1024, None, None, 0),
        task(INBOX_OTHER_UUID, "Other", TaskStart::Inbox, 1025, None, None, 0),
    ]);
    let rebalance = planned(&after_anchor, &rebalance_store, TODAY);
    assert_eq!(rebalance.task.sort_index, 2048);
    assert_eq!(rebalance.index_updates, vec![(id(INBOX_OTHER_UUID), 3072)]);
}

#[test]
fn a_dated_to_do_starts_in_anytime_once_its_day_has_come() {
    let dated = |when: &str| {
        let mut a = args("Dated", "inbox");
        a.when = Some(when.to_string());
        a
    };
    // TODAY is 2023-11-14
    let today = planned(&dated("2023-11-14"), &build_store(vec![]), TODAY);
    assert_eq!(today.task.start.to_wire(), 1);
    let later = planned(&dated("2023-11-20"), &build_store(vec![]), TODAY);
    assert_eq!(later.task.start.to_wire(), 2);
}

#[test]
fn adjacent_today_indexes_respace_the_day_group() {
    // the day stamps are midnights, as the app writes them
    let d = 1_699_920_000;
    let store = build_store(vec![
        task(INBOX_ANCHOR_UUID, "First", TaskStart::Anytime, 100, Some(d), Some(d), 5),
        task(INBOX_OTHER_UUID, "Second", TaskStart::Anytime, 200, Some(d), Some(d), 6),
    ]);
    let mut between = args("Between", "inbox");
    between.when = Some("today".to_string());
    between.after_id = Some(INBOX_ANCHOR_UUID.to_string());
    let plan = planned(&between, &store, TODAY);
    assert_eq!(plan.task.today_sort_index, 2048);
    assert_eq!(plan.task.today_index_reference, Some(d));
    assert_eq!(plan.today_updates, vec![(id(INBOX_ANCHOR_UUID), 1024), (id(INBOX_OTHER_UUID), 3072)]);
    // the structural run had room, so no sort index moved
    assert!(plan.index_updates.is_empty());
    assert_eq!(plan.task.sort_index, 150);
}

#[test]
fn new_rejections() {
    let empty_title = new_plan(&args("   ", "inbox"), &build_store(vec![]), now(), TODAY).err().expect("empty title");
    assert_eq!(empty_title, "Task title cannot be empty.");
    let unknown_container = new_plan(&args("Ship", "nope"), &build_store(vec![]), now(), TODAY).err().expect("unknown container");
    assert_eq!(unknown_container, "Container not found: nope");
}

#[test]
fn a_new_to_do_in_an_area_starts_in_anytime_and_takes_the_first_slot() {
    let mut member = task(INBOX_ANCHOR_UUID, "Member", TaskStart::Anytime, 1024, None, None, 0);
    member.area = Some(id(AREA_UUID));
    let s = store_of(vec![member], vec![area(AREA_UUID, "Work")], Vec::new());
    let a = planned(&args("Filed", AREA_UUID), &s, TODAY);
    assert_eq!(a.task.area, Some(id(AREA_UUID)));
    assert_eq!(a.task.project, None);
    assert_eq!(a.task.start, TaskStart::Anytime);
    // a newcomer goes first: one less than the first member's index
    assert_eq!(a.task.sort_index, 1023);
}

#[test]
fn the_inbox_is_named_whatever_the_case_and_blanks() {
    let plan = planned(&args("  Padded title  ", "  InBoX "), &build_store(vec![]), TODAY);
    assert_eq!(plan.task.title, "Padded title");
    assert_eq!(plan.task.start, TaskStart::Inbox);
    assert_eq!(plan.task.notes, None);
}

#[test]
fn each_refusal_of_a_new_to_do_names_what_it_refuses() {
    let s = build_store(vec![task(INBOX_ANCHOR_UUID, "Anchor", TaskStart::Inbox, 1024, None, None, 0)]);

    let mut a = args("T", "inbox");
    a.reminder = Some("09:00".to_string());
    assert_eq!(new_plan(&a, &s, now(), TODAY).err().expect("reminder"), "--reminder requires --when today or YYYY-MM-DD");

    let mut a = args("T", "inbox");
    a.when = Some("2024-02-31".to_string());
    assert_eq!(new_plan(&a, &s, now(), TODAY).err().expect("when"), "Invalid --when date: 2024-02-31 (expected YYYY-MM-DD)");

    let mut a = args("T", "inbox");
    a.when = Some("today".to_string());
    a.reminder = Some("25:00".to_string());
    assert_eq!(new_plan(&a, &s, now(), TODAY).err().expect("time"), "Invalid --reminder time: 25:00 (expected HH:MM)");

    let mut a = args("T", "inbox");
    a.times = Some(3);
    assert_eq!(new_plan(&a, &s, now(), TODAY).err().expect("times"), "--times and --until need --repeat");

    let mut a = args("T", "inbox");
    a.repeat = Some("daily".to_string());
    assert_eq!(new_plan(&a, &s, now(), TODAY).err().expect("repeat"), "--repeat requires --when today or YYYY-MM-DD");

    let mut a = args("T", "inbox");
    a.repeat = Some("daily".to_string());
    a.deadline_date = Some("2030-01-01".to_string());
    assert_eq!(
        new_plan(&a, &s, now(), TODAY).err().expect("deadline"),
        "A repeating to-do keeps its deadline as an offset the CLI does not write yet, --deadline and --repeat cannot be combined."
    );

    let mut a = args("T", "inbox");
    a.when = Some("2023-11-10".to_string());
    a.repeat = Some("daily".to_string());
    assert_eq!(
        new_plan(&a, &s, now(), TODAY).err().expect("passed"),
        "A repeat cannot start on 2023-11-10, which has passed, set --when today or a later day"
    );

    let mut a = args("T", "inbox");
    a.when = Some("2023-11-20".to_string());
    a.repeat = Some("daily".to_string());
    a.until = Some("2023-11-18".to_string());
    assert_eq!(
        new_plan(&a, &s, now(), TODAY).err().expect("until"),
        "--until 2023-11-18 is before the first occurrence 2023-11-20"
    );

    let mut a = args("T", "inbox");
    a.tags = Some("nothing".to_string());
    assert_eq!(new_plan(&a, &s, now(), TODAY).err().expect("tag"), "Tag not found: nothing");

    let mut a = args("T", "inbox");
    a.after_id = Some("zzzz".to_string());
    assert!(new_plan(&a, &s, now(), TODAY).is_err());

    let mut a = args("T", "inbox");
    a.when = Some("someday".to_string());
    a.after_id = Some(INBOX_ANCHOR_UUID.to_string());
    assert_eq!(
        new_plan(&a, &s, now(), TODAY).err().expect("cross"),
        "Cannot place new task relative to an item in a different container/list."
    );

    let mut stuck = task(INBOX_OTHER_UUID, "Old", TaskStart::Inbox, 2048, None, None, 0);
    stuck.entity = "Task8".to_string();
    let s2 = build_store(vec![stuck]);
    let mut a = args("T", "inbox");
    a.before_id = Some(INBOX_OTHER_UUID.to_string());
    assert_eq!(new_plan(&a, &s2, now(), TODAY).err().expect("entity"), "Unsupported anchor task entity: Task8");
}

#[test]
fn a_project_and_an_area_of_one_prefix_are_ambiguous() {
    let s = store_of(vec![project(PROJECT_UUID, "Roadmap")], vec![area(PROJECT_UUID, "Same id")], Vec::new());
    assert_eq!(
        new_plan(&args("T", PROJECT_UUID), &s, now(), TODAY).err().expect("ambiguous"),
        format!("Ambiguous --in target '{PROJECT_UUID}' (matches project and area).")
    );
    let s = build_store(vec![task(INBOX_ANCHOR_UUID, "Plain to-do", TaskStart::Inbox, 0, None, None, 0)]);
    assert_eq!(
        new_plan(&args("T", INBOX_ANCHOR_UUID), &s, now(), TODAY).err().expect("not a project"),
        "--in target must be inbox, a project ID, or an area ID."
    );
}

#[test]
fn a_repeating_to_do_starts_on_its_rule_and_carries_its_template() {
    // TODAY is Tuesday 2023-11-14; the first Thursday on or after it is the 16th
    let mut a = args("Water plants", "inbox");
    a.when = Some("today".to_string());
    a.repeat = Some("weekly:thu".to_string());
    a.times = Some(3);
    let plan = planned(&a, &build_store(vec![]), TODAY);
    let first = day("2023-11-16");
    assert_eq!(plan.task.scheduled_date, Some(day_timestamp(first)));
    assert_eq!(plan.task.today_index_reference, Some(day_timestamp(first)));
    assert_eq!(plan.task.start, TaskStart::Someday);
    let repeat = plan.repeat.expect("template");
    assert_eq!(repeat.first, first);
    assert_eq!(repeat.next, day("2023-11-23"));
    assert_eq!(repeat.after_completion_reference, None);
    assert_eq!(repeat.rule.recurrence_type, RecurrenceType::FixedSchedule);
    assert_eq!(repeat.rule.frequency_unit, FrequencyUnit::Weekly);
    assert_eq!(repeat.rule.repeat_count, 3);

    let mut after = args("Call mom", "inbox");
    after.when = Some("2023-11-20".to_string());
    after.repeat = Some("after:2w".to_string());
    let plan = planned(&after, &build_store(vec![]), TODAY);
    let repeat = plan.repeat.expect("template");
    assert_eq!(repeat.first, day("2023-11-20"));
    assert_eq!(repeat.next, day("2023-11-21"));
    assert_eq!(repeat.after_completion_reference, Some(day("2023-11-06")));
    assert_eq!(repeat.rule.recurrence_type, RecurrenceType::AfterCompletion);
}

#[test]
fn a_day_beyond_the_calendar_is_no_plan() {
    let mut a = args("Far", "inbox");
    a.when = Some("262142-12-30".to_string());
    a.repeat = Some("monthly/1".to_string());
    let checked = new_plan_checked(&a, &build_store(vec![]), now(), TODAY);
    if parse_day("262142-12-30", "--when").is_ok() {
        assert!(checked.is_none());
    }
    let mut b = args("Near", "inbox");
    b.when = Some("today".to_string());
    let checked = new_plan_checked(&b, &build_store(vec![]), now(), TODAY).expect("in reach");
    assert!(checked.is_ok());
}
