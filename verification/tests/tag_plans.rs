use things::ids::things_id::ThingsId;
use things::store::entities::{Area, Tag, Task, Instant};
use things::store::ThingsStore;
use things::tag_plans::{tags_delete_plan, tags_edit_plan, TagsEditArgs};
use things::wire::{TaskStart, TaskStatus, TaskType};

const THIRD_UUID: &str = "A7h5eCi24RvAWKC3Hv3muf";
const TAG_UUID: &str = "WukwpDdL5Z88nX3okGMKTC";
const CHILD_UUID: &str = "JiqwiDaS3CAyjCmHihBDnB";

/// the instant the writes are stamped with
fn now() -> Instant {
    Instant { seconds: 1_700_000_222, nanos: 0 }
}

fn id(text: &str) -> ThingsId {
    ThingsId::parse(text).expect("id")
}

fn tag(uuid: &str, title: &str, parent: Option<&str>) -> Tag {
    Tag { uuid: id(uuid), title: title.to_string(), shortcut: None, index: 0, parent_uuid: parent.map(id) }
}

fn task(uuid: &str, title: &str, tags: Vec<ThingsId>) -> Task {
    Task {
        uuid: id(uuid),
        title: title.to_string(),
        status: TaskStatus::Incomplete,
        start: TaskStart::Inbox,
        item_type: TaskType::Todo,
        entity: "Task7".to_string(),
        notes: None,
        project: None,
        area: None,
        action_group: None,
        tags,
        trashed: false,
        deadline: None,
        deadline_suppressed: false,
        start_date: None,
        stop_date: None,
        creation_date: None,
        modification_date: None,
        index: 0,
        today_index: 0,
        today_index_reference: None,
        leaves_tombstone: false,
        instance_creation_paused: false,
        instance_creation_start_date: None,
        instance_creation_count: 0,
        evening: false,
        alarm_time_offset: None,
        recurrence_rule: None,
        repeater: None,
        recurrence_templates: Vec::new(),
        due_date_offset: 0,
        degraded: false,
        checklist_items: Vec::new(),
    }
}

fn store(tasks: Vec<Task>, areas: Vec<Area>, tags: Vec<Tag>) -> ThingsStore {
    let domain: Vec<ThingsId> = tasks.iter().map(|t| t.uuid).collect();
    let upgradable = domain.clone();
    ThingsStore::from_parts(tasks, areas, tags, domain, upgradable)
}

fn edit(tag_id: &str, name: Option<&str>, move_target: Option<&str>) -> TagsEditArgs {
    TagsEditArgs { tag_id: tag_id.to_string(), name: name.map(str::to_string), move_target: move_target.map(str::to_string) }
}

#[test]
fn a_deleted_tag_comes_off_everything_that_carries_it() {
    const TASK: &str = "A7h5eCi24RvAWKC3Hv3muf";
    const AREA: &str = "MpkEei6ybkFS2n6SXvwfLf";
    const OTHER: &str = "Bt11111111111111111111";
    let s = store(
        vec![task(TASK, "Buy milk", vec![id(TAG_UUID), id(OTHER)])],
        vec![Area { uuid: id(AREA), title: "Chores".to_string(), tags: vec![id(TAG_UUID)], index: 0 }],
        vec![tag(TAG_UUID, "Errand", None), tag(OTHER, "Home", None)],
    );
    let plan = tags_delete_plan("Errand", &s).expect("plan");
    assert_eq!(plan.tag.uuid, id(TAG_UUID));
    assert_eq!(plan.task_tags, vec![(id(TASK), vec![id(OTHER)])]);
    assert_eq!(plan.area_tags, vec![(id(AREA), Vec::new())]);

    let parent = store(vec![], vec![], vec![tag(TAG_UUID, "Work", None), tag(CHILD_UUID, "Meetings", Some(TAG_UUID))]);
    let err = tags_delete_plan("Work", &parent).err().expect("a child tag");
    assert!(err.contains("has child tags"), "{err}");
}

#[test]
fn tags_edit_payloads_and_errors() {
    let s = store(vec![], vec![], vec![tag(TAG_UUID, "Work", None), tag(CHILD_UUID, "Meetings", Some(TAG_UUID))]);

    let rename = tags_edit_plan(&edit(TAG_UUID, Some("Work Stuff"), None), &s, now()).expect("rename");
    assert_eq!(rename.modification_date, now());
    assert_eq!(rename.update.title, Some("Work Stuff".to_string()));
    assert!(rename.update.parent_ids.is_none());
    assert_eq!(rename.labels, vec!["name".to_string()]);

    let clash = tags_edit_plan(&edit(CHILD_UUID, Some("work"), None), &s, now()).err().expect("a clash");
    assert!(clash.contains("exists already"), "{clash}");

    let reparent = tags_edit_plan(&edit(CHILD_UUID, None, Some(TAG_UUID)), &s, now()).expect("reparent");
    assert_eq!(reparent.update.parent_ids, Some(vec![id(TAG_UUID)]));

    let clear = tags_edit_plan(&edit(CHILD_UUID, None, Some("clear")), &s, now()).expect("clear");
    assert_eq!(clear.update.parent_ids, Some(Vec::new()));
    assert_eq!(clear.labels, vec!["move=clear".to_string()]);

    let no_change = tags_edit_plan(&edit(TAG_UUID, None, None), &s, now()).err().expect("no changes");
    assert_eq!(no_change, "No edit changes requested.");

    let self_parent = tags_edit_plan(&edit(TAG_UUID, None, Some(TAG_UUID)), &s, now()).err().expect("self parent");
    assert_eq!(self_parent, "A tag cannot be its own parent.");

    // Meetings is below Work
    // that keeps Work from going under Meetings
    let cycle = tags_edit_plan(&edit(TAG_UUID, None, Some(CHILD_UUID)), &s, now()).err().expect("cycle");
    assert_eq!(cycle, "Cannot move Work under Meetings, which is below it.");

    let empty = tags_edit_plan(&edit(TAG_UUID, Some("   "), None), &s, now()).err().expect("empty");
    assert_eq!(empty, "Tag name cannot be empty.");
}

#[test]
fn a_cycle_two_tags_already_form_is_rejected_and_bounded() {
    let s = store(vec![], vec![], vec![tag(TAG_UUID, "Work", Some(CHILD_UUID)), tag(CHILD_UUID, "Meetings", Some(TAG_UUID))]);
    assert_eq!(s.tag_ancestors(&id(TAG_UUID)), vec![id(CHILD_UUID)]);
    let err = tags_edit_plan(&edit(TAG_UUID, None, Some(CHILD_UUID)), &s, now()).err().expect("still a cycle");
    assert_eq!(err, "Cannot move Work under Meetings, which is below it.");
}

#[test]
fn a_new_tag_is_named_once_and_goes_under_the_parent_named() {
    let s = store(vec![], vec![], vec![tag(TAG_UUID, "Work", None), tag(CHILD_UUID, "Errands", Some(TAG_UUID))]);
    let plain = s.tags_new_plan("  Home  ", None).expect("plain");
    assert_eq!(plain.title, "Home");
    assert_eq!(plain.parent, None);
    let under = s.tags_new_plan("Deep", Some("Work")).expect("under work");
    assert_eq!(under.parent, Some(id(TAG_UUID)));
    let by_prefix = s.tags_new_plan("Deeper", Some(&CHILD_UUID[..5])).expect("by prefix");
    assert_eq!(by_prefix.parent, Some(id(CHILD_UUID)));
    assert_eq!(s.tags_new_plan("   ", None).err().expect("empty"), "Tag name cannot be empty.");
    assert_eq!(s.tags_new_plan("work", None).err().expect("taken"), "A tag named work exists already.");
    assert_eq!(s.tags_new_plan("Fresh", Some("Nowhere")).err().expect("unknown parent"), "Tag not found: Nowhere");
}

#[test]
fn a_tag_in_a_cycle_shows_at_the_top() {
    let s = store(
        vec![],
        vec![],
        vec![
            tag(TAG_UUID, "Work", None),
            tag(CHILD_UUID, "Errands", Some(TAG_UUID)),
            tag(THIRD_UUID, "Loop", Some(THIRD_UUID)),
        ],
    );
    let rows = s.tag_tree();
    assert_eq!(rows.len(), 3);
    for (t, parent) in &rows {
        if t.uuid == id(CHILD_UUID) {
            assert_eq!(*parent, Some(id(TAG_UUID)));
        } else {
            assert_eq!(*parent, None);
        }
    }
    let cycle = store(
        vec![],
        vec![],
        vec![tag(TAG_UUID, "Work", Some(CHILD_UUID)), tag(CHILD_UUID, "Errands", Some(TAG_UUID))],
    );
    assert!(cycle.tag_tree().iter().all(|(_, parent)| parent.is_none()));
    let blank = store(vec![], vec![], vec![tag(TAG_UUID, "  ", None), tag(CHILD_UUID, "Errands", Some(TAG_UUID))]);
    let rows = blank.tag_tree();
    assert_eq!(rows.len(), 1);
    assert_eq!(rows[0].1, None);
}
