use std::collections::HashSet;

use things::ids::things_id::{base58_decode, base58_encode_fixed, ThingsId};

const COMPACT: &str = "A7h5eCi24RvAWKC3Hv3muf";

#[test]
fn parse_compact_preserved() {
    let id: ThingsId = COMPACT.parse().unwrap();
    assert_eq!(id.to_string(), COMPACT);
}

#[test]
fn empty_string_is_error() {
    let err = "".parse::<ThingsId>();
    assert!(err.is_err());
}

#[test]
fn display_roundtrip() {
    let id: ThingsId = COMPACT.parse().unwrap();
    let displayed = id.to_string();
    let reparsed: ThingsId = displayed.parse().unwrap();
    assert_eq!(id, reparsed);
}

#[test]
fn random_is_unique() {
    let ids: HashSet<String> = (0..20).map(|_| ThingsId::random().to_string()).collect();
    assert_eq!(ids.len(), 20, "random IDs should be unique");
}

#[test]
fn random_is_compact_length() {
    let id = ThingsId::random();
    let len = id.to_string().len();
    assert!((1..=22).contains(&len), "compact ID length must be 1..=22");
}

#[test]
fn rejects_invalid_compact_id() {
    assert!("not-a-things-id".parse::<ThingsId>().is_err());
    assert!("0OIl".parse::<ThingsId>().is_err());
    // ids from before base58 ids are not read
    for legacy in [
        "3C6BBD49-8D11-4FFF-8B0E-B8F33FA9C00A",
        "ACTIONGROUP-3C6BBD49-8D11-4FFF-8B0E-B8F33FA9C00A",
        "3C6BBD49-8D11-4FFF-8B0E-B8F33FA9C00A-20240131",
    ] {
        assert!(legacy.parse::<ThingsId>().is_err(), "{legacy}");
    }
    assert!(
        "123456789ABCDEFGHJKLMNPQRSTUVWXYZ"
            .parse::<ThingsId>()
            .is_err()
    );
}

#[test]
fn base58_roundtrip_for_internal_bytes() {
    let samples = [
        [0u8; 16],
        [255u8; 16],
        [0, 0, 7, 1, 2, 3, 4, 5, 6, 7, 8, 9, 10, 11, 12, 13],
    ];
    for sample in samples {
        let (buf, len) = base58_encode_fixed(&sample);
        let encoded = std::str::from_utf8(&buf[..len]).unwrap().to_owned();
        let decoded = base58_decode(&encoded).unwrap();
        assert_eq!(decoded, sample);
    }
}

#[test]
fn base58_encode_fixed_matches_display_encoding() {
    let mut samples: Vec<ThingsId> = vec![
        ThingsId([0u8; 16]),
        ThingsId([255u8; 16]),
        COMPACT.parse().unwrap(),
    ];
    for _ in 0..20 {
        samples.push(ThingsId::random());
    }

    for id in &samples {
        let (buf, len) = base58_encode_fixed(id.as_bytes());
        let fixed = std::str::from_utf8(&buf[..len]).unwrap().to_owned();
        let expected = id.to_string();
        assert_eq!(fixed, expected, "mismatch for {:?}", id.as_bytes());
    }
}

#[test]
fn base58_encode_fixed_preserves_sort_order() {
    let ids: Vec<ThingsId> = (0..50).map(|_| ThingsId::random()).collect();
    let mut by_fixed: Vec<String> = ids
        .iter()
        .map(|id| {
            let (buf, len) = base58_encode_fixed(id.as_bytes());
            std::str::from_utf8(&buf[..len]).unwrap().to_owned()
        })
        .collect();
    by_fixed.sort();

    let mut by_string: Vec<String> = ids.iter().map(|id| id.to_string()).collect();
    by_string.sort();

    assert_eq!(
        by_fixed, by_string,
        "base58_encode_fixed sort order != to_string sort order"
    );
}

#[test]
fn from_u128_spells_the_number_big_endian() {
    assert_eq!(ThingsId::from_u128(1).as_bytes(), &[0, 0, 0, 0, 0, 0, 0, 0, 0, 0, 0, 0, 0, 0, 0, 1]);
    assert_eq!(ThingsId::from_u128(0).to_string(), "1111111111111111");
    assert_eq!(ThingsId::from_u128(1).to_string(), "1111111111111112");
    assert_eq!(ThingsId::from_u128(58).to_string(), "11111111111111121");
}

#[test]
fn starts_with_reads_the_text() {
    let id: ThingsId = COMPACT.parse().unwrap();
    assert!(id.starts_with("A7h5"));
    assert!(id.starts_with(""));
    assert!(id.starts_with(COMPACT));
    assert!(!id.starts_with("A7h6"));
    assert!(!id.starts_with("A7h5eCi24RvAWKC3Hv3mufX"));
}

#[test]
fn a_refusal_names_the_text() {
    let error = "0OIl".parse::<ThingsId>().unwrap_err();
    assert_eq!(error.message(), "invalid Things ID: \"0OIl\"");
}

#[test]
fn decoding_stops_at_a_character_outside_the_alphabet() {
    assert_eq!(base58_decode(""), Some(Vec::new()));
    assert_eq!(base58_decode("11"), Some(vec![0, 0]));
    assert_eq!(base58_decode("2"), Some(vec![1]));
    assert_eq!(base58_decode("21"), Some(vec![58]));
    assert_eq!(base58_decode("5R"), Some(vec![1, 0]));
    assert_eq!(base58_decode("1O"), None);
    assert_eq!(base58_decode("é"), None);
}
