use things::edit_plans::{areas_edit_plan, projects_edit_plan, AreasEditArgs, ProjectsEditArgs, TagDeltaArgs};
use things::ids::things_id::ThingsId;
use things::store::entities::{Area, Tag, Task, Instant};
use things::store::ThingsStore;
use things::wire::{TaskStart, TaskStatus, TaskType};

const AREA_UUID: &str = "MpkEei6ybkFS2n6SXvwfLf";
const PROJECT_UUID: &str = "KGvAPpMrzHAKMdgMiERP1V";
const TAG1: &str = "WukwpDdL5Z88nX3okGMKTC";
const TAG2: &str = "JiqwiDaS3CAyjCmHihBDnB";

/// the instant the writes are stamped with
fn now() -> Instant {
    Instant { seconds: 1_700_000_222, nanos: 0 }
}

fn id(text: &str) -> ThingsId {
    ThingsId::parse(text).expect("id")
}

fn tag(uuid: &str, title: &str) -> Tag {
    Tag { uuid: id(uuid), title: title.to_string(), shortcut: None, index: 0, parent_uuid: None }
}

fn area(uuid: &str, title: &str, tags: &[&str]) -> Area {
    Area { uuid: id(uuid), title: title.to_string(), tags: tags.iter().map(|t| id(t)).collect(), index: 0 }
}

fn project(uuid: &str, title: &str, tags: &[&str]) -> Task {
    Task {
        uuid: id(uuid),
        title: title.to_string(),
        status: TaskStatus::Incomplete,
        start: TaskStart::Anytime,
        item_type: TaskType::Project,
        entity: "Task7".to_string(),
        notes: None,
        project: None,
        area: None,
        action_group: None,
        tags: tags.iter().map(|t| id(t)).collect(),
        trashed: false,
        deadline: None,
        deadline_suppressed: false,
        start_date: None,
        stop_date: None,
        creation_date: None,
        modification_date: None,
        index: 0,
        today_index: 0,
        today_index_reference: None,
        leaves_tombstone: false,
        instance_creation_paused: false,
        instance_creation_start_date: None,
        instance_creation_count: 0,
        evening: false,
        alarm_time_offset: None,
        recurrence_rule: None,
        repeater: None,
        recurrence_templates: Vec::new(),
        due_date_offset: 0,
        degraded: false,
        checklist_items: Vec::new(),
    }
}

fn store(tasks: Vec<Task>, areas: Vec<Area>, tags: Vec<Tag>) -> ThingsStore {
    let domain: Vec<ThingsId> = tasks.iter().map(|t| t.uuid).chain(areas.iter().map(|a| a.uuid)).collect();
    let upgradable: Vec<ThingsId> = tasks.iter().map(|t| t.uuid).collect();
    ThingsStore::from_parts(tasks, areas, tags, domain, upgradable)
}

fn no_tags() -> TagDeltaArgs {
    TagDeltaArgs { add_tags: None, remove_tags: None }
}

fn area_edit(title: Option<&str>, delta: TagDeltaArgs) -> AreasEditArgs {
    AreasEditArgs { area_id: AREA_UUID.to_string(), title: title.map(str::to_string), tag_delta: delta }
}

fn project_edit(title: Option<&str>, move_target: Option<&str>, delta: TagDeltaArgs) -> ProjectsEditArgs {
    ProjectsEditArgs {
        project_id: PROJECT_UUID.to_string(),
        title: title.map(str::to_string),
        move_target: move_target.map(str::to_string),
        notes: None,
        tag_delta: delta,
    }
}

#[test]
fn areas_edit_payload_and_errors() {
    let s = store(vec![], vec![area(AREA_UUID, "Home", &[TAG1, TAG2])], vec![tag(TAG1, "Work"), tag(TAG2, "Focus")]);

    let title = areas_edit_plan(&area_edit(Some("New Name"), no_tags()), &s, now()).expect("title plan");
    assert_eq!(title.modification_date, now());
    assert_eq!(title.update.title, Some("New Name".to_string()));
    assert!(title.update.tag_ids.is_none());
    assert_eq!(title.labels, vec!["title".to_string()]);

    let remove = areas_edit_plan(
        &area_edit(None, TagDeltaArgs { add_tags: None, remove_tags: Some("Work".to_string()) }),
        &s,
        now(),
    )
    .expect("remove tag");
    assert_eq!(remove.update.tag_ids, Some(vec![id(TAG2)]));
    assert_eq!(remove.labels, vec!["remove-tags".to_string()]);

    let no_change = areas_edit_plan(&area_edit(None, no_tags()), &s, now()).err().expect("no change");
    assert_eq!(no_change, "No edit changes requested.");

    let empty_title = areas_edit_plan(&area_edit(Some(""), no_tags()), &s, now()).err().expect("empty title");
    assert_eq!(empty_title, "Area title cannot be empty.");

    let unknown = areas_edit_plan(
        &area_edit(None, TagDeltaArgs { add_tags: Some("Nope".to_string()), remove_tags: None }),
        &s,
        now(),
    )
    .err()
    .expect("unknown tag");
    assert_eq!(unknown, "Tag not found: Nope");
}

#[test]
fn projects_edit_payload_variants() {
    let target_area_uuid = "JFdhhhp37fpryAKu8UXwzK";
    let s = store(vec![project(PROJECT_UUID, "Roadmap", &[])], vec![area(target_area_uuid, "Personal", &[])], vec![]);

    let title_plan = projects_edit_plan(&project_edit(Some("Roadmap v2"), None, no_tags()), &s, now()).expect("title plan");
    assert_eq!(title_plan.modification_date, now());
    assert_eq!(title_plan.update.title, Some("Roadmap v2".to_string()));

    let clear_plan = projects_edit_plan(&project_edit(None, Some("clear"), no_tags()), &s, now()).expect("clear plan");
    assert_eq!(clear_plan.update.area_ids, Some(Vec::new()));
    assert_eq!(clear_plan.labels, vec!["move=clear".to_string()]);

    let move_plan = projects_edit_plan(&project_edit(None, Some(target_area_uuid), no_tags()), &s, now()).expect("move plan");
    assert_eq!(move_plan.update.area_ids, Some(vec![id(target_area_uuid)]));
}

#[test]
fn projects_edit_tags_and_errors() {
    let s = store(vec![project(PROJECT_UUID, "Roadmap", &[TAG1, TAG2])], vec![], vec![tag(TAG1, "Work"), tag(TAG2, "Focus")]);

    let remove_plan = projects_edit_plan(
        &project_edit(None, None, TagDeltaArgs { add_tags: None, remove_tags: Some("Work".to_string()) }),
        &s,
        now(),
    )
    .expect("remove tags");
    assert_eq!(remove_plan.update.tag_ids, Some(vec![id(TAG2)]));

    let no_change = projects_edit_plan(&project_edit(None, None, no_tags()), &s, now()).err().expect("no changes");
    assert_eq!(no_change, "No edit changes requested.");

    let inbox = projects_edit_plan(&project_edit(None, Some("inbox"), no_tags()), &s, now()).err().expect("cannot move inbox");
    assert_eq!(inbox, "Projects cannot be moved to Inbox.");

    let readd = projects_edit_plan(
        &project_edit(None, None, TagDeltaArgs { add_tags: Some("focus,work".to_string()), remove_tags: None }),
        &s,
        now(),
    )
    .expect("add known tags");
    assert_eq!(readd.update.tag_ids, Some(vec![id(TAG1), id(TAG2)]));

    let nowhere = projects_edit_plan(&project_edit(None, Some("zzzz"), no_tags()), &s, now()).err().expect("no container");
    assert_eq!(nowhere, "Container not found: zzzz");
}
