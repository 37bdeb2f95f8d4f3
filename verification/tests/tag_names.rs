use things::ids::things_id::ThingsId;
use things::store::entities::{Area, Tag, Task};
use things::store::ThingsStore;
use things::tag_names::{kind_with_article, resolve_single_tag_id};
use things::wire::{TaskStart, TaskStatus, TaskType};

fn id(n: u8) -> ThingsId {
    let mut bytes = [0u8; 16];
    bytes[0] = 3;
    bytes[15] = n;
    ThingsId(bytes)
}

fn tag(n: u8, title: &str) -> Tag {
    Tag { uuid: id(n), title: title.to_string(), shortcut: None, index: 0, parent_uuid: None }
}

fn task(n: u8, kind: TaskType) -> Task {
    Task {
        uuid: id(n),
        title: "t".to_string(),
        status: TaskStatus::Incomplete,
        start: TaskStart::Inbox,
        item_type: kind,
        entity: "Task6".to_string(),
        notes: None,
        project: None,
        area: None,
        action_group: None,
        tags: Vec::new(),
        trashed: false,
        deadline: None,
        deadline_suppressed: false,
        start_date: None,
        stop_date: None,
        creation_date: None,
        modification_date: None,
        index: 0,
        today_index: 0,
        today_index_reference: None,
        leaves_tombstone: false,
        instance_creation_paused: false,
        instance_creation_start_date: None,
        instance_creation_count: 0,
        evening: false,
        alarm_time_offset: None,
        recurrence_rule: None,
        repeater: None,
        recurrence_templates: Vec::new(),
        due_date_offset: 0,
        degraded: false,
        checklist_items: Vec::new(),
    }
}

fn store(tasks: Vec<Task>, areas: Vec<Area>, tags: Vec<Tag>) -> ThingsStore {
    let domain: Vec<ThingsId> = tasks.iter().map(|t| t.uuid).collect();
    let upgradable = domain.clone();
    ThingsStore::from_parts(tasks, areas, tags, domain, upgradable)
}

#[test]
fn a_tag_is_named_by_title_case_aside_or_by_id_prefix() {
    let tags = vec![tag(1, " Errand "), tag(2, "Home"), tag(3, "home")];
    assert_eq!(resolve_single_tag_id(&tags, "ERRAND"), Ok(id(1)));
    assert_eq!(resolve_single_tag_id(&tags, "HOME"), Err("Ambiguous tag title: HOME".to_string()));
    let full = id(2).to_string();
    assert_eq!(resolve_single_tag_id(&tags, &full), Ok(id(2)));
    assert_eq!(resolve_single_tag_id(&tags, "zzz"), Err("Tag not found: zzz".to_string()));
    let shared: String = full.chars().take(3).collect();
    assert_eq!(
        resolve_single_tag_id(&tags, &shared),
        Err(format!("Ambiguous tag ID prefix: {shared}"))
    );
}

#[test]
fn a_list_of_tags_names_each_once_and_a_removal_names_a_carried_deleted_tag() {
    let mut carrier = task(10, TaskType::Todo);
    carrier.tags = vec![id(9)];
    let s = store(vec![carrier], Vec::new(), vec![tag(1, "Errand"), tag(2, "Home")]);
    assert_eq!(s.resolve_tag_ids("errand, home ,Errand,"), (vec![id(1), id(2)], String::new()));
    assert_eq!(s.resolve_tag_ids(" , "), (Vec::new(), String::new()));
    assert_eq!(s.resolve_tag_ids("errand,nope"), (Vec::new(), "Tag not found: nope".to_string()));

    let gone = id(9).to_string();
    assert_eq!(s.resolve_tag_ids(&gone), (Vec::new(), format!("Tag not found: {gone}")));
    assert_eq!(s.resolve_removable_tag_ids(&gone), (vec![id(9)], String::new()));

    let (found, message) = s.resolve_single_tag("home");
    assert!(message.is_empty());
    assert_eq!(found.map(|t| t.title.clone()), Some("Home".to_string()));
}

#[test]
fn items_are_named_by_their_kind() {
    assert_eq!(kind_with_article(&task(1, TaskType::Todo)), "a to-do");
    assert_eq!(kind_with_article(&task(1, TaskType::Project)), "a project");
    assert_eq!(kind_with_article(&task(1, TaskType::Heading)), "a heading");
    assert_eq!(kind_with_article(&task(1, TaskType::Unknown(7))), "an item of unknown kind 7");
}
