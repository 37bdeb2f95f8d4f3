use things::calendar::{day_timestamp, parse_day};
use things::ids::things_id::ThingsId;
use things::project_list::{project_new_plan, ProjectsNewArgs};
use things::store::entities::{Area, Instant, Tag, Task};
use things::store::ThingsStore;
use things::wire::{EntityType, TaskStart, TaskStatus, TaskType};

const AREA_A: &str = "MpkEei6ybkFS2n6SXvwfLf";
const AREA_B: &str = "74rgJf6Qh9wYp2TcVk8mNB";
const LOST_AREA: &str = "3H9jsMx3kYMrQ4M7DReSRn";
const P1: &str = "KGvAPpMrzHAKMdgMiERP1V";
const P2: &str = "A7h5eCi24RvAWKC3Hv3muf";
const P3: &str = "JFdhhhp37fpryAKu8UXwzK";
const P4: &str = "JiqwiDaS3CAyjCmHihBDnB";
const TAG1: &str = "WukwpDdL5Z88nX3okGMKTC";
const TODAY: i64 = 1_700_006_400;

fn id(text: &str) -> ThingsId {
    ThingsId::parse(text).expect("id")
}

fn tag(uuid: &str, title: &str) -> Tag {
    Tag { uuid: id(uuid), title: title.to_string(), shortcut: None, index: 0, parent_uuid: None }
}

fn area(uuid: &str, title: &str, tags: &[&str]) -> Area {
    Area { uuid: id(uuid), title: title.to_string(), tags: tags.iter().map(|t| id(t)).collect(), index: 0 }
}

fn project(uuid: &str, title: &str, tags: &[&str]) -> Task {
    Task {
        uuid: id(uuid),
        title: title.to_string(),
        status: TaskStatus::Incomplete,
        start: TaskStart::Anytime,
        item_type: TaskType::Project,
        entity: "Task7".to_string(),
        notes: None,
        project: None,
        area: None,
        action_group: None,
        tags: tags.iter().map(|t| id(t)).collect(),
        trashed: false,
        deadline: None,
        deadline_suppressed: false,
        start_date: None,
        stop_date: None,
        creation_date: None,
        modification_date: None,
        index: 0,
        today_index: 0,
        today_index_reference: None,
        leaves_tombstone: false,
        instance_creation_paused: false,
        instance_creation_start_date: None,
        instance_creation_count: 0,
        evening: false,
        alarm_time_offset: None,
        recurrence_rule: None,
        repeater: None,
        recurrence_templates: Vec::new(),
        due_date_offset: 0,
        degraded: false,
        checklist_items: Vec::new(),
    }
}

fn store(tasks: Vec<Task>, areas: Vec<Area>, tags: Vec<Tag>) -> ThingsStore {
    let domain: Vec<ThingsId> = tasks.iter().map(|t| t.uuid).chain(areas.iter().map(|a| a.uuid)).collect();
    let upgradable: Vec<ThingsId> = tasks.iter().map(|t| t.uuid).collect();
    ThingsStore::from_parts(tasks, areas, tags, domain, upgradable)
}

fn now() -> Instant {
    Instant { seconds: 1_700_000_222, nanos: 0 }
}

fn in_area(mut p: Task, area_id: &str, index: i32) -> Task {
    p.area = Some(id(area_id));
    p.index = index;
    p
}

fn new_args(title: &str) -> ProjectsNewArgs {
    ProjectsNewArgs {
        title: title.to_string(),
        area: None,
        when: None,
        notes: String::new(),
        tags: None,
        deadline_date: None,
    }
}

#[test]
fn projects_group_by_area_in_the_order_of_the_areas() {
    let mut a = area(AREA_A, "Home", &[]);
    a.index = 5;
    let mut b = area(AREA_B, "Work", &[]);
    b.index = 1;
    let mut done = in_area(project(P4, "Done", &[]), AREA_A, 4);
    done.status = TaskStatus::Completed;
    let s = store(
        vec![
            project(P1, "Loose", &[]),
            in_area(project(P2, "Garden", &[]), AREA_A, 1),
            in_area(project(P3, "Launch", &[]), AREA_B, 2),
            done,
        ],
        vec![a, b],
        vec![],
    );
    let groups = s.project_groups();
    assert_eq!(groups.projects.len(), 3);
    assert_eq!(groups.no_area.len(), 1);
    assert_eq!(groups.no_area[0].uuid, id(P1));
    assert_eq!(groups.areas.len(), 2);
    assert_eq!(groups.areas[0].0, id(AREA_B));
    assert_eq!(groups.areas[0].1[0].uuid, id(P3));
    assert_eq!(groups.areas[1].0, id(AREA_A));
    assert_eq!(groups.areas[1].1.len(), 1);
    assert_eq!(groups.areas[1].1[0].uuid, id(P2));
}

#[test]
fn a_project_in_an_unknown_area_comes_last() {
    let mut a = area(AREA_A, "Home", &[]);
    a.index = 7;
    let s = store(
        vec![in_area(project(P2, "Garden", &[]), LOST_AREA, 1), in_area(project(P3, "Launch", &[]), AREA_A, 2)],
        vec![a],
        vec![],
    );
    let groups = s.project_groups();
    assert_eq!(groups.areas.len(), 2);
    assert_eq!(groups.areas[0].0, id(AREA_A));
    assert_eq!(groups.areas[1].0, id(LOST_AREA));
}

#[test]
fn a_new_project_takes_its_flags() {
    let s = store(vec![], vec![area(AREA_A, "Home", &[])], vec![tag(TAG1, "Focus")]);
    let plain = project_new_plan(&new_args("  Roadmap "), &s, now(), TODAY).expect("plain");
    assert_eq!(plain.title, "Roadmap");
    assert_eq!(plain.start, TaskStart::Anytime);
    assert_eq!(plain.scheduled_date, None);
    assert_eq!(plain.area, None);
    assert_eq!(plain.entity, EntityType::Task7);
    assert_eq!(plain.creation_date, now());
    assert_eq!(plain.notes.value, "");
    assert_eq!(plain.notes.checksum, 0);

    let mut a = new_args("Roadmap");
    a.area = Some(AREA_A[..6].to_string());
    a.when = Some(" Today ".to_string());
    a.tags = Some("Focus".to_string());
    a.deadline_date = Some("2030-01-02".to_string());
    a.notes = "done".to_string();
    let full = project_new_plan(&a, &s, now(), TODAY).expect("full");
    assert_eq!(full.area, Some(id(AREA_A)));
    assert_eq!(full.start, TaskStart::Anytime);
    assert_eq!(full.scheduled_date, Some(TODAY));
    assert_eq!(full.today_index_reference, Some(TODAY));
    assert_eq!(full.tag_ids, vec![id(TAG1)]);
    let deadline_day = parse_day("2030-01-02", "--deadline").expect("day");
    assert_eq!(full.deadline, Some(day_timestamp(deadline_day)));
    assert_eq!(full.notes.checksum, 271442091);

    a.when = Some("2031-05-06".to_string());
    let dated = project_new_plan(&a, &s, now(), TODAY).expect("dated");
    assert_eq!(dated.start, TaskStart::Someday);
    assert_eq!(dated.scheduled_date, Some(day_timestamp(parse_day("2031-05-06", "--when").expect("day"))));
    a.when = Some("someday".to_string());
    assert_eq!(project_new_plan(&a, &s, now(), TODAY).expect("someday").start, TaskStart::Someday);
}

#[test]
fn a_new_project_is_refused_for_each_bad_flag() {
    let s = store(vec![], vec![area(AREA_A, "Home", &[])], vec![tag(TAG1, "Focus")]);
    assert_eq!(
        project_new_plan(&new_args("   "), &s, now(), TODAY).err().expect("empty"),
        "Project title cannot be empty."
    );
    let mut a = new_args("Roadmap");
    a.when = Some("2024-02-31".to_string());
    assert_eq!(
        project_new_plan(&a, &s, now(), TODAY).err().expect("when"),
        "Invalid --when date: 2024-02-31 (expected YYYY-MM-DD)"
    );
    let mut a = new_args("Roadmap");
    a.deadline_date = Some("soon".to_string());
    assert_eq!(
        project_new_plan(&a, &s, now(), TODAY).err().expect("deadline"),
        "Invalid --deadline date: soon (expected YYYY-MM-DD)"
    );
    let mut a = new_args("Roadmap");
    a.tags = Some("Nothing".to_string());
    assert!(project_new_plan(&a, &s, now(), TODAY).is_err());
    let mut a = new_args("Roadmap");
    a.area = Some("Nowhere".to_string());
    assert!(project_new_plan(&a, &s, now(), TODAY).is_err());
}
