use things::ids::things_id::ThingsId;
use things::ordering::{allocate, slot_between};

fn id(n: u128) -> ThingsId {
    ThingsId::from_u128(n)
}

#[test]
fn a_gap_gives_a_slot_and_adjacent_neighbors_respace_the_run() {
    assert_eq!(slot_between(None, None), Some(0));
    assert_eq!(slot_between(None, Some(1024)), Some(1023));
    assert_eq!(slot_between(Some(1024), None), Some(1025));
    assert_eq!(slot_between(Some(1024), Some(2048)), Some(1536));
    assert_eq!(slot_between(Some(-5), Some(-2)), Some(-3));
    assert_eq!(slot_between(Some(1024), Some(1025)), None);
    assert_eq!(slot_between(Some(7), Some(7)), None);
    assert_eq!(slot_between(Some(i32::MAX), None), None);
    assert_eq!(slot_between(None, Some(i32::MIN)), None);
    assert_eq!(
        slot_between(Some(i32::MAX - 2), Some(i32::MAX)),
        Some(i32::MAX - 1)
    );

    let run = vec![(id(1), 1024), (id(2), 1025), (id(3), 1026)];
    let (slot, moved) = allocate(&run, 1);
    assert_eq!(slot, 2048);
    assert_eq!(moved, vec![(id(2), 3072), (id(3), 4096)]);

    let (slot, moved) = allocate(&run, 3);
    assert_eq!(slot, 1027);
    assert!(moved.is_empty());

    // no room above the last member
    // the whole run is rebalanced
    let (slot, moved) = allocate(&[(id(1), i32::MAX)], 1);
    assert_eq!(slot, 2048);
    assert_eq!(moved, vec![(id(1), 1024)]);
}

#[test]
fn a_rebalance_before_the_first_member_respaces_every_member() {
    let run = vec![(id(1), i32::MIN), (id(2), 1024)];
    let (slot, moved) = allocate(&run, 0);
    assert_eq!(slot, 1024);
    assert_eq!(moved, vec![(id(1), 2048), (id(2), 3072)]);
    assert_eq!(slot_between(Some(-7), Some(0)), Some(-3));
    assert_eq!(slot_between(Some(i32::MIN), Some(i32::MAX)), Some(0));
}
