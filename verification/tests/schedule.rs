use things::calendar::{day_timestamp, parse_day, parse_reminder};
use things::ids::things_id::ThingsId;
use things::schedule::{schedule_plan, ScheduleArgs, ScheduleUpdate};
use things::store::entities::{Instant, Task};
use things::store::ThingsStore;
use things::wire::{TaskStart, TaskStatus, TaskType};

const TASK_UUID: &str = "A7h5eCi24RvAWKC3Hv3muf";
const TODAY: i64 = 1_700_000_000;

/// the instant the writes are stamped with
fn now() -> Instant {
    Instant { seconds: 1_700_000_000, nanos: 0 }
}

fn task(title: &str) -> Task {
    Task {
        uuid: ThingsId::parse(TASK_UUID).expect("id"),
        title: title.to_string(),
        status: TaskStatus::Incomplete,
        start: TaskStart::Inbox,
        item_type: TaskType::Todo,
        entity: "Task6".to_string(),
        notes: None,
        project: None,
        area: None,
        action_group: None,
        tags: Vec::new(),
        trashed: false,
        deadline: None,
        deadline_suppressed: false,
        start_date: None,
        stop_date: None,
        creation_date: None,
        modification_date: None,
        index: 0,
        today_index: 0,
        today_index_reference: None,
        leaves_tombstone: false,
        instance_creation_paused: false,
        instance_creation_start_date: None,
        instance_creation_count: 0,
        evening: false,
        alarm_time_offset: None,
        recurrence_rule: None,
        repeater: None,
        recurrence_templates: Vec::new(),
        due_date_offset: 0,
        degraded: false,
        checklist_items: Vec::new(),
    }
}

fn store(t: Task) -> ThingsStore {
    let domain = vec![t.uuid];
    let upgradable = domain.clone();
    ThingsStore::from_parts(vec![t], Vec::new(), Vec::new(), domain, upgradable)
}

fn args() -> ScheduleArgs {
    ScheduleArgs {
        task_id: TASK_UUID.to_string(),
        when: None,
        deadline_date: None,
        clear_deadline: false,
        reminder: None,
        clear_reminder: false,
    }
}

fn when(text: &str) -> ScheduleArgs {
    ScheduleArgs { when: Some(text.to_string()), ..args() }
}

fn day(start: TaskStart, day: Option<i64>, evening: bool) -> ScheduleUpdate {
    ScheduleUpdate {
        start: Some(start),
        scheduled_date: Some(day),
        today_index_reference: Some(day),
        evening: Some(evening),
        deadline: None,
        alarm_time_offset: None,
    }
}

#[test]
fn schedule_when_variants_payloads() {
    let s = store(task("Schedule me"));
    let future_ts = day_timestamp(parse_day("2099-05-10", "--when").expect("day"));
    let cases = [
        ("today", day(TaskStart::Anytime, Some(TODAY), false)),
        ("someday", day(TaskStart::Someday, None, false)),
        ("anytime", day(TaskStart::Anytime, None, false)),
        ("evening", day(TaskStart::Anytime, Some(TODAY), true)),
        ("2099-05-10", day(TaskStart::Someday, Some(future_ts), false)),
    ];
    for (text, expected) in cases {
        let plan = schedule_plan(&when(text), &s, now(), TODAY).expect("schedule plan");
        assert_eq!(plan.update, expected, "{text}");
    }
    let plan = schedule_plan(&when("  ToDay "), &s, now(), TODAY).expect("case and spaces");
    assert_eq!(plan.labels, vec!["today".to_string()]);
    let plan = schedule_plan(&when("2099-05-10"), &s, now(), TODAY).expect("label");
    assert_eq!(plan.labels, vec!["when=2099-05-10".to_string()]);
    let past = schedule_plan(&when("2001-01-01"), &s, now(), TODAY).expect("past day");
    assert_eq!(past.update.start, Some(TaskStart::Anytime));
}

#[test]
fn schedule_deadline_and_clear_payloads() {
    let s = store(task("Schedule me"));
    let deadline_ts = day_timestamp(parse_day("2034-02-01", "--deadline").expect("day"));
    let plan = schedule_plan(&ScheduleArgs { deadline_date: Some("2034-02-01".to_string()), ..args() }, &s, now(), TODAY)
        .expect("deadline plan");
    assert_eq!(
        plan.update,
        ScheduleUpdate {
            start: None,
            scheduled_date: None,
            today_index_reference: None,
            evening: None,
            deadline: Some(Some(deadline_ts)),
            alarm_time_offset: None,
        }
    );
    assert_eq!(plan.labels, vec!["deadline=2034-02-01".to_string()]);

    let clear = schedule_plan(&ScheduleArgs { clear_deadline: true, ..args() }, &s, now(), TODAY).expect("clear plan");
    assert_eq!(clear.update.deadline, Some(None));
    assert_eq!(clear.labels, vec!["deadline=none".to_string()]);
}

#[test]
fn schedule_rejections() {
    let s = store(task("A"));
    let no_changes = schedule_plan(&args(), &s, now(), TODAY).err().expect("no changes");
    assert_eq!(no_changes, "No schedule changes requested.");

    let mut repeater = task("Repeater");
    repeater.repeater = Some("{\"version\":1}".to_string());
    let repeating_store = store(repeater);
    let repeating = schedule_plan(&when("today"), &repeating_store, now(), TODAY).err().expect("opaque repeater");
    assert!(repeating.contains("repeater bookkeeping"));

    let invalid_when = schedule_plan(&when("2024-02-31"), &s, now(), TODAY).err().expect("invalid when");
    assert_eq!(invalid_when, "Invalid --when date: 2024-02-31 (expected YYYY-MM-DD)");
}

#[test]
fn a_reminder_needs_a_day_and_a_time() {
    let s = store(task("A"));
    let undated = schedule_plan(&ScheduleArgs { reminder: Some("09:30".to_string()), ..args() }, &s, now(), TODAY)
        .err()
        .expect("no day");
    assert_eq!(undated, "--reminder requires a scheduled day, set --when today or YYYY-MM-DD");

    let plan = schedule_plan(
        &ScheduleArgs { when: Some("today".to_string()), reminder: Some("09:30".to_string()), ..args() },
        &s, now(),
        TODAY,
    )
    .expect("reminder");
    assert_eq!(plan.update.alarm_time_offset, Some(Some(9 * 3600 + 30 * 60)));
    assert_eq!(plan.labels, vec!["today".to_string(), "reminder=09:30".to_string()]);

    let bad = schedule_plan(
        &ScheduleArgs { when: Some("today".to_string()), reminder: Some("9h".to_string()), ..args() },
        &s, now(),
        TODAY,
    )
    .err()
    .expect("bad time");
    assert_eq!(bad, "Invalid --reminder time: 9h (expected HH:MM)");

    let mut reminded = task("A");
    reminded.start_date = Some(Instant { seconds: TODAY, nanos: 0 });
    reminded.alarm_time_offset = Some(600);
    let reminded_store = store(reminded);
    let cleared = schedule_plan(&when("someday"), &reminded_store, now(), TODAY).expect("someday");
    assert_eq!(cleared.update.alarm_time_offset, Some(None));
    assert_eq!(cleared.labels, vec!["someday".to_string(), "reminder=none".to_string()]);
    assert_eq!(parse_reminder("23:59"), Ok(86340));
}
