use things::ids::things_id::ThingsId;
use things::purge::{purge, StateLinks, StateObject};

fn id(text: &str) -> ThingsId {
    text.parse::<ThingsId>().expect("id")
}

fn task(uuid: &str, projects: &[&str], headings: &[&str]) -> StateObject {
    StateObject {
        uuid: id(uuid),
        links: StateLinks::Task {
            parent_project_ids: projects.iter().map(|p| id(p)).collect(),
            action_group_ids: headings.iter().map(|h| id(h)).collect(),
        },
    }
}

#[test]
fn a_tombstone_removes_what_it_names_and_what_only_exists_through_it() {
    let mut state = vec![
        task("Pj11111111111111111111", &[], &[]),
        task("Hd11111111111111111111", &["Pj11111111111111111111"], &[]),
        task("Ta11111111111111111111", &["Pj11111111111111111111"], &[]),
        task("Tb11111111111111111111", &[], &["Hd11111111111111111111"]),
        StateObject {
            uuid: id("Ck11111111111111111111"),
            links: StateLinks::ChecklistItem { task_ids: vec![id("Ta11111111111111111111")] },
        },
        task("Tc11111111111111111111", &[], &[]),
        StateObject { uuid: id("Ar11111111111111111111"), links: StateLinks::Other },
        task("Td11111111111111111111", &[], &[]),
    ];
    purge(&mut state, &id("Pj11111111111111111111"));
    purge(&mut state, &id("Ar11111111111111111111"));
    let left: Vec<ThingsId> = state.iter().map(|o| o.uuid).collect();
    assert_eq!(left, vec![id("Tc11111111111111111111"), id("Td11111111111111111111")]);
}

#[test]
fn a_purge_of_an_unknown_id_or_a_cycle_ends() {
    let mut state = vec![
        task("Ta11111111111111111111", &["Tb11111111111111111111"], &[]),
        task("Tb11111111111111111111", &["Ta11111111111111111111"], &[]),
        task("Tc11111111111111111111", &[], &[]),
    ];
    purge(&mut state, &id("Nx11111111111111111111"));
    assert_eq!(state.len(), 3);
    purge(&mut state, &id("Ta11111111111111111111"));
    let left: Vec<ThingsId> = state.iter().map(|o| o.uuid).collect();
    assert_eq!(left, vec![id("Tc11111111111111111111")]);
}
