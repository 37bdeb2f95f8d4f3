use things::calendar::{day_timestamp, parse_day};
use things::ids::things_id::ThingsId;
use things::store::entities::{Area, Instant, Tag, Task};
use things::store::ThingsStore;
use things::wire::{TaskStart, TaskStatus, TaskType};

const AREA_UUID: &str = "MpkEei6ybkFS2n6SXvwfLf";
const PROJECT_UUID: &str = "KGvAPpMrzHAKMdgMiERP1V";
const TASK_UUID: &str = "A7h5eCi24RvAWKC3Hv3muf";
const TAG1: &str = "WukwpDdL5Z88nX3okGMKTC";
const TAG2: &str = "JiqwiDaS3CAyjCmHihBDnB";

fn id(text: &str) -> ThingsId {
    ThingsId::parse(text).expect("id")
}

fn tag(uuid: &str, title: &str) -> Tag {
    Tag { uuid: id(uuid), title: title.to_string(), shortcut: None, index: 0, parent_uuid: None }
}

fn area(uuid: &str, title: &str, tags: &[&str]) -> Area {
    Area { uuid: id(uuid), title: title.to_string(), tags: tags.iter().map(|t| id(t)).collect(), index: 0 }
}

fn project(uuid: &str, title: &str, tags: &[&str]) -> Task {
    Task {
        uuid: id(uuid),
        title: title.to_string(),
        status: TaskStatus::Incomplete,
        start: TaskStart::Anytime,
        item_type: TaskType::Project,
        entity: "Task7".to_string(),
        notes: None,
        project: None,
        area: None,
        action_group: None,
        tags: tags.iter().map(|t| id(t)).collect(),
        trashed: false,
        deadline: None,
        deadline_suppressed: false,
        start_date: None,
        stop_date: None,
        creation_date: None,
        modification_date: None,
        index: 0,
        today_index: 0,
        today_index_reference: None,
        leaves_tombstone: false,
        instance_creation_paused: false,
        instance_creation_start_date: None,
        instance_creation_count: 0,
        evening: false,
        alarm_time_offset: None,
        recurrence_rule: None,
        repeater: None,
        recurrence_templates: Vec::new(),
        due_date_offset: 0,
        degraded: false,
        checklist_items: Vec::new(),
    }
}

fn store(tasks: Vec<Task>, areas: Vec<Area>, tags: Vec<Tag>) -> ThingsStore {
    let domain: Vec<ThingsId> = tasks.iter().map(|t| t.uuid).chain(areas.iter().map(|a| a.uuid)).collect();
    let upgradable: Vec<ThingsId> = tasks.iter().map(|t| t.uuid).collect();
    ThingsStore::from_parts(tasks, areas, tags, domain, upgradable)
}

fn day(text: &str) -> i64 {
    day_timestamp(parse_day(text, "--when").expect("day"))
}

fn todo(title: &str) -> Task {
    let mut t = project(TASK_UUID, title, &[TAG1, TAG2]);
    t.item_type = TaskType::Todo;
    t.project = Some(id(PROJECT_UUID));
    t
}

fn fields(lines: &[(String, String)]) -> Vec<(&str, &str)> {
    lines.iter().map(|(n, v)| (n.as_str(), v.as_str())).collect()
}

#[test]
fn show_lists_the_fields_an_item_has() {
    let mut p = project(PROJECT_UUID, "Roadmap", &[]);
    p.area = Some(id(AREA_UUID));
    let today = day("2024-03-10");
    let mut t = todo("Write\nreport");
    t.start_date = Some(Instant { seconds: day("2024-03-12"), nanos: 0 });
    t.deadline = Some(Instant { seconds: day("2024-04-01"), nanos: 0 });
    t.evening = true;
    t.alarm_time_offset = Some(9 * 3600 + 5 * 60);
    let s = store(vec![p, t.clone()], vec![area(AREA_UUID, "Work", &[])], vec![tag(TAG1, "Focus"), tag(TAG2, "Home")]);
    let lines = s.show_fields(&t, today);
    assert_eq!(
        fields(&lines),
        vec![
            ("Kind", "to-do, open"),
            ("When", "2024-03-12 evening @09:05"),
            ("Deadline", "2024-04-01"),
            ("Project", "Roadmap"),
            ("Area", "Work"),
            ("Tags", "Focus, Home"),
        ]
    );
}

#[test]
fn show_names_today_the_trash_and_what_it_does_not_know() {
    let today = day("2024-03-10");
    let mut t = todo("Call");
    t.project = None;
    t.tags = Vec::new();
    t.start = TaskStart::Anytime;
    t.start_date = Some(Instant { seconds: today, nanos: 0 });
    t.trashed = true;
    t.degraded = true;
    let s = store(vec![t.clone()], vec![], vec![]);
    assert_eq!(
        fields(&s.show_fields(&t, today)),
        vec![("Kind", "to-do, open, in the Trash, did not replay completely"), ("When", "today")]
    );
    let mut odd = t.clone();
    odd.item_type = TaskType::Unknown(7);
    odd.status = TaskStatus::Unknown(9);
    odd.start = TaskStart::Unknown(4);
    odd.trashed = false;
    odd.degraded = false;
    odd.project = Some(id(PROJECT_UUID));
    let lines = s.show_fields(&odd, today);
    assert_eq!(lines[0].1, "unknown kind 7, unknown status 9");
    assert_eq!(lines[1].1, "unknown start 4, today");
    assert_eq!(lines[2], ("Project".to_string(), "(project KGvAPpMr)".to_string()));
    let mut inbox = t.clone();
    inbox.start = TaskStart::Inbox;
    inbox.trashed = false;
    inbox.degraded = false;
    assert_eq!(s.show_fields(&inbox, today)[1].1, "inbox");
    inbox.start = TaskStart::Someday;
    inbox.start_date = None;
    assert_eq!(s.show_fields(&inbox, today)[1].1, "someday");
}

#[test]
fn the_dates_show_the_local_days_near_each_instant() {
    let mut t = todo("Call");
    t.creation_date = Some(Instant { seconds: day("2024-03-10") + 12 * 3600, nanos: 0 });
    t.stop_date = Some(Instant { seconds: day("2024-03-20") + 12 * 3600, nanos: 0 });
    t.status = TaskStatus::Canceled;
    let s = store(vec![t.clone()], vec![], vec![]);
    let text = s.show_dates(&t);
    let made = ["created 2024-03-09", "created 2024-03-10", "created 2024-03-11"];
    let closed = [", canceled 2024-03-19", ", canceled 2024-03-20", ", canceled 2024-03-21"];
    assert!(made.iter().any(|m| closed.iter().any(|c| text == format!("{m}{c}"))), "{text}");
    let mut bare = todo("Bare");
    bare.creation_date = None;
    assert_eq!(s.show_dates(&bare), "created ");
}
