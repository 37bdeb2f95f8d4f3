use things::ids::matching::{
    lcp_len, longest_shortest_unique_prefix_len, prefix_matches, shortest_unique_prefixes,
};
use things::ids::things_id::{base58_encode_fixed, ThingsId};

#[test]
fn shortest_unique_prefixes_are_actually_unique() {
    // Generate a set of random IDs and verify that each prefix matches
    // exactly one ID from the input set.
    let ids: Vec<ThingsId> = (0..200).map(|_| ThingsId::random()).collect();
    let prefixes = shortest_unique_prefixes(&ids);

    assert_eq!(prefixes.len(), ids.len());

    for (id, prefix) in &prefixes {
        let matches: Vec<&ThingsId> = ids
            .iter()
            .filter(|other| other.to_string().starts_with(prefix.as_str()))
            .collect();
        assert_eq!(
            matches.len(),
            1,
            "prefix {:?} for {:?} matched {} IDs: {:?}",
            prefix,
            id.to_string(),
            matches.len(),
            matches.iter().map(|m| m.to_string()).collect::<Vec<_>>()
        );
        assert_eq!(matches[0], id);
    }
}

#[test]
fn shortest_unique_prefixes_are_minimal() {
    // Each prefix should be the shortest possible: removing the last
    // character should make it match more than one ID.
    let ids: Vec<ThingsId> = (0..200).map(|_| ThingsId::random()).collect();
    let prefixes = shortest_unique_prefixes(&ids);

    for (_, prefix) in &prefixes {
        if prefix.len() <= 1 {
            continue; // can't shorten a 1-char prefix
        }
        let shorter = &prefix[..prefix.len() - 1];
        let matches: Vec<&ThingsId> = ids
            .iter()
            .filter(|other| other.to_string().starts_with(shorter))
            .collect();
        assert!(
            matches.len() > 1,
            "prefix {:?} is not minimal — {:?} (one char shorter) still only matches 1 ID",
            prefix,
            shorter
        );
    }
}

#[test]
fn every_id_with_the_prefix_is_found_whatever_its_encoded_length() {
    // byte order puts both 21 character ids before the 22 character one,
    // which separates the two ids starting with A by the one starting with z
    let short_a = "A11111111111111111111";
    let short_z = "z11111111111111111111";
    let long_a = "A111111111111111111111";
    let mut sorted: Vec<ThingsId> = [short_a, short_z, long_a]
        .iter()
        .map(|id| id.parse().expect("a valid id"))
        .collect();
    sorted.sort();
    assert_eq!(
        sorted.iter().map(|id| id.to_string()).collect::<Vec<_>>(),
        vec![short_a, short_z, long_a]
    );

    let matches = prefix_matches(&sorted, "A");
    assert_eq!(
        matches.iter().map(|id| id.to_string()).collect::<Vec<_>>(),
        vec![short_a, long_a]
    );
    assert_eq!(prefix_matches(&sorted, "z").len(), 1);
    assert_eq!(prefix_matches(&sorted, "A1111111111111111111111").len(), 0);
}

#[test]
fn single_id() {
    let ids = vec![ThingsId::random()];
    let prefixes = shortest_unique_prefixes(&ids);
    assert_eq!(prefixes.len(), 1);
    let prefix = &prefixes[0].1;
    assert_eq!(prefix.len(), 1, "single ID should have 1-char prefix");
}

#[test]
fn empty_input() {
    let prefixes = shortest_unique_prefixes(&[]);
    assert!(prefixes.is_empty());
}

#[test]
fn longest_shortest_prefix_len_drives_fixed_width_unique_rendering() {
    fn find_case_ids() -> Vec<ThingsId> {
        let mut a: Option<ThingsId> = None;
        let mut b_left: Option<ThingsId> = None;
        let mut b_right: Option<ThingsId> = None;

        for _ in 0..1_000_000 {
            let id = ThingsId::random();
            let (buf, len) = base58_encode_fixed(id.as_bytes());
            let s = std::str::from_utf8(&buf[..len]).unwrap().to_owned();

            if s.starts_with('A') {
                if a.is_none() {
                    a = Some(id);
                }
                continue;
            }

            if s.starts_with('B') {
                let second = s.chars().nth(1).unwrap_or('1');
                if let Some(left) = b_left.as_ref() {
                    let left_second = left.to_string().chars().nth(1).unwrap_or('1');
                    if second != left_second {
                        b_right = Some(id);
                    }
                } else {
                    b_left = Some(id);
                }
            }

            if a.is_some() && b_left.is_some() && b_right.is_some() {
                break;
            }
        }

        vec![
            a.expect("must find an A* id"),
            b_left.expect("must find first B* id"),
            b_right.expect("must find second B* id with different second char"),
        ]
    }

    let ids = find_case_ids();
    let width = longest_shortest_unique_prefix_len(&ids);
    assert_eq!(width, 2);

    for id in &ids {
        let prefix = id.to_string().chars().take(width).collect::<String>();
        let matches: Vec<&ThingsId> = ids
            .iter()
            .filter(|other| other.to_string().starts_with(prefix.as_str()))
            .collect();
        assert_eq!(
            matches.len(),
            1,
            "prefix {prefix:?} should identify exactly one id"
        );
        assert_eq!(matches[0], id);
    }
}

#[test]
fn duplicate_ids_share_one_entry_and_a_prefix_of_another_takes_its_whole_text() {
    let short_a: ThingsId = "A11111111111111111111".parse().unwrap();
    let long_a: ThingsId = "A111111111111111111111".parse().unwrap();
    let short_z: ThingsId = "z11111111111111111111".parse().unwrap();
    let prefixes = shortest_unique_prefixes(&[short_a, long_a, short_a, short_z]);
    assert_eq!(prefixes.len(), 3);
    assert_eq!(prefixes[0].0, short_a);
    assert_eq!(prefixes[0].1, "A11111111111111111111");
    assert_eq!(prefixes[1].0, long_a);
    assert_eq!(prefixes[1].1, "A111111111111111111111");
    assert_eq!(prefixes[2].0, short_z);
    assert_eq!(prefixes[2].1, "z");
    assert_eq!(longest_shortest_unique_prefix_len(&[short_a, long_a, short_z]), 22);
    assert_eq!(longest_shortest_unique_prefix_len(&[]), 0);
}

#[test]
fn the_common_prefix_counts_bytes() {
    assert_eq!(lcp_len("abcd", "abxy"), 2);
    assert_eq!(lcp_len("abc", "abc"), 3);
    assert_eq!(lcp_len("", "abc"), 0);
    assert_eq!(lcp_len("ab", "abc"), 2);
}

#[test]
fn a_repeated_id_changes_no_prefix() {
    let a: ThingsId = "A7h5eCi24RvAWKC3Hv3muf".parse().unwrap();
    let b: ThingsId = "A7h5eXXXXXXXXXXXXXXXXX".parse().unwrap();
    let c: ThingsId = "KGvAPpMrzHAKMdgMiERP1V".parse().unwrap();
    let once = shortest_unique_prefixes(&[a, b, c]);
    let twice = shortest_unique_prefixes(&[a, b, c, a]);
    assert_eq!(once, twice);
    assert_eq!(once[0].1, "A7h5eC");
    assert_eq!(once[2].1, "K");
    let alone = shortest_unique_prefixes(&[a, a]);
    assert_eq!(alone.len(), 1);
    assert_eq!(alone[0].1, "A");
}
