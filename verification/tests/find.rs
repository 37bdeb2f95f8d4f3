use things::calendar::{date_exists, parse_day};
use things::find::{date_matches, order_found, parse_date_expr, DateFilter, DateOp, FindArgs, Prepared};
use things::ids::things_id::ThingsId;
use things::store::entities::{ChecklistItem, Instant, Task};
use things::store::ThingsStore;
use things::wire::{TaskStart, TaskStatus, TaskType};

fn id(n: u8) -> ThingsId {
    let mut bytes = [0u8; 16];
    bytes[0] = 9;
    bytes[15] = n;
    ThingsId(bytes)
}

fn task(n: u8, title: &str) -> Task {
    Task {
        uuid: id(n),
        title: title.to_string(),
        status: TaskStatus::Incomplete,
        start: TaskStart::Anytime,
        item_type: TaskType::Todo,
        entity: "Task6".to_string(),
        notes: None,
        project: None,
        area: None,
        action_group: None,
        tags: Vec::new(),
        trashed: false,
        deadline: None,
        deadline_suppressed: false,
        start_date: None,
        stop_date: None,
        creation_date: None,
        modification_date: None,
        index: n as i32,
        today_index: 0,
        today_index_reference: None,
        leaves_tombstone: false,
        instance_creation_paused: false,
        instance_creation_start_date: None,
        instance_creation_count: 0,
        evening: false,
        alarm_time_offset: None,
        recurrence_rule: None,
        repeater: None,
        recurrence_templates: Vec::new(),
        due_date_offset: 0,
        degraded: false,
        checklist_items: Vec::new(),
    }
}

fn store(tasks: Vec<Task>) -> ThingsStore {
    let domain: Vec<ThingsId> = tasks.iter().map(|t| t.uuid).collect();
    let upgradable = domain.clone();
    ThingsStore::from_parts(tasks, Vec::new(), Vec::new(), domain, upgradable)
}

fn args() -> FindArgs {
    FindArgs {
        query: None,
        incomplete: false,
        notes: false,
        checklists: false,
        completed: false,
        canceled: false,
        any_status: false,
        tag_filters: Vec::new(),
        project_filters: Vec::new(),
        area_filters: Vec::new(),
        inbox: false,
        today: false,
        someday: false,
        evening: false,
        has_deadline: false,
        no_deadline: false,
        recurring: false,
        trashed: false,
        deadline: Vec::new(),
        scheduled: Vec::new(),
        created: Vec::new(),
        completed_on: Vec::new(),
    }
}

const TODAY: i32 = 739_700;

fn found(s: &ThingsStore, a: &FindArgs) -> Vec<(String, bool)> {
    let prepared = Prepared::new(a, TODAY).expect("prepared");
    let today = Instant { seconds: 1_774_396_800, nanos: 0 };
    let rows = s.find_tasks(a, &Vec::new(), &prepared, &today);
    order_found(rows).into_iter().map(|(t, only)| (t.title.clone(), only)).collect()
}

#[test]
fn an_instant_matches_the_day_it_falls_in_locally_and_a_day_stamp_its_own_day() {
    assert!(date_exists(2026, 3, 25));
    let day = parse_day("2026-03-25", "--created").expect("day");
    let on = DateFilter { op: DateOp::On, day };
    assert!(date_matches(Some(day), on));
    assert!(date_matches(Some(day), DateFilter { op: DateOp::OnOrAfter, day }));
    assert!(!date_matches(Some(day), DateFilter { op: DateOp::Before, day }));
    assert!(date_matches(Some(day + 1), DateFilter { op: DateOp::After, day }));
    assert!(!date_matches(None, on));
}

#[test]
fn date_expressions_read_an_operator_and_a_day() {
    assert_eq!(parse_date_expr("<today", "--deadline", TODAY), Ok(DateFilter { op: DateOp::Before, day: TODAY }));
    assert_eq!(parse_date_expr(" >= Tomorrow", "--deadline", TODAY), Ok(DateFilter { op: DateOp::OnOrAfter, day: TODAY + 1 }));
    assert_eq!(parse_date_expr("=yesterday", "--created", TODAY), Ok(DateFilter { op: DateOp::On, day: TODAY - 1 }));
    let day = parse_day("2026-01-01", "--x").expect("day");
    assert_eq!(parse_date_expr("<=2026-01-01", "--scheduled", TODAY), Ok(DateFilter { op: DateOp::OnOrBefore, day }));
    assert_eq!(
        parse_date_expr("2026-01-01", "--deadline", TODAY),
        Err("Invalid date expression for --deadline: \"2026-01-01\". Expected an operator prefix: >, <, >=, <=, or =  (e.g. '<=2026-03-31')".to_string())
    );
    assert_eq!(
        parse_date_expr(">soon", "--deadline", TODAY),
        Err("Invalid date for --deadline: \"soon\". Expected YYYY-MM-DD, 'today', 'tomorrow', or 'yesterday'.".to_string())
    );
}

#[test]
fn a_query_matches_titles_case_aside_and_checklists_when_asked() {
    let mut milk = task(1, "Buy MILK");
    milk.notes = Some("from the shop".to_string());
    let mut errands = task(2, "Errands");
    errands.checklist_items = vec![ChecklistItem {
        uuid: id(50),
        title: "milk and bread".to_string(),
        task_uuid: id(2),
        status: TaskStatus::Incomplete,
        index: 0,
    }];
    let mut done = task(3, "Milk yesterday");
    done.status = TaskStatus::Completed;
    let s = store(vec![errands.clone(), milk.clone(), done.clone()]);

    let query = FindArgs { query: Some("milk".to_string()), ..args() };
    assert_eq!(found(&s, &query), vec![("Buy MILK".to_string(), false)]);

    let with_checklists = FindArgs { query: Some("milk".to_string()), checklists: true, ..args() };
    assert_eq!(
        found(&s, &with_checklists),
        vec![("Buy MILK".to_string(), false), ("Errands".to_string(), true)]
    );

    let any = FindArgs { query: Some("MILK".to_string()), any_status: true, ..args() };
    assert_eq!(found(&s, &any).len(), 2);

    let shop = FindArgs { query: Some("shop".to_string()), notes: true, ..args() };
    assert_eq!(found(&s, &shop), vec![("Buy MILK".to_string(), false)]);
}

#[test]
fn filters_narrow_by_container_deadline_and_list() {
    let mut project = task(1, "Kitchen Remodel");
    project.item_type = TaskType::Project;
    let mut tiles = task(2, "Tiles");
    tiles.project = Some(id(1));
    tiles.deadline = Some(Instant { seconds: 1_774_396_800, nanos: 0 });
    let loose = task(3, "Loose");
    let s = store(vec![loose, tiles, project]);

    let in_project = FindArgs { project_filters: vec!["remodel".to_string()], ..args() };
    assert_eq!(found(&s, &in_project), vec![("Tiles".to_string(), false)]);

    let has_deadline = FindArgs { has_deadline: true, ..args() };
    assert_eq!(found(&s, &has_deadline), vec![("Tiles".to_string(), false)]);

    let all = found(&s, &args());
    assert_eq!(all[0].0, "Kitchen Remodel");
    assert_eq!(all.len(), 3);

    let bad = FindArgs { deadline: vec!["soon".to_string()], ..args() };
    assert!(Prepared::new(&bad, TODAY).is_err());
}
