//! Card texts and trained policies.

use poker_ai::play::cards::{card_str, make_card, parse_card, parse_cards, rank_of, suit_of};
use poker_ai::play::policy::{read_u64, CompactPolicy, LoadError};
use std::collections::HashMap;

#[test]
fn round_trips_every_card() {
    for c in 0u8..52 {
        assert_eq!(parse_card(&card_str(c)).unwrap(), c);
    }
}

#[test]
fn known_cards() {
    assert_eq!(parse_card("2c").unwrap(), 0, "deuce of clubs is card 0");
    assert_eq!(parse_card("As").unwrap(), make_card(12, 3));
    assert!(parse_card("1c").is_err());
    assert!(parse_card("Ax").is_err());
    assert!(parse_card("Ac2").is_err());
}

#[test]
fn cards_are_rank_and_suit() {
    for c in 0u8..52 {
        assert_eq!(make_card(rank_of(c), suit_of(c)), c);
    }
    assert_eq!(card_str(0), "2c");
    assert_eq!(card_str(51), "As");
    assert_eq!(card_str(make_card(8, 2)), "Th");
}

#[test]
fn a_list_of_cards_is_parsed_or_its_first_error_told() {
    let strs = |v: &[&str]| -> Vec<String> { v.iter().map(|s| s.to_string()).collect() };
    assert_eq!(parse_cards(&strs(&["2c", "As"])), Ok(vec![0, 51]));
    assert_eq!(parse_cards(&[]), Ok(vec![]));
    let bad = parse_card("1c").unwrap_err();
    assert_eq!(parse_cards(&strs(&["2c", "1c", "zz"])), Err(bad));
}

fn bits(probs: &[f32]) -> Vec<u32> {
    probs.iter().map(|p| p.to_bits()).collect()
}

#[test]
fn load_round_trips_the_trainer_artifact_format() {
    // Serialize exactly what the trainer writes and read it back.
    let mut map: HashMap<u64, Vec<f32>> = HashMap::new();
    map.insert(7, vec![0.25, 0.75]);
    map.insert(42, vec![0.1, 0.2, 0.7]);
    map.insert(u64::MAX, vec![1.0]);
    let bytes = bincode::serialize(&map).unwrap();

    let p = CompactPolicy::from_bytes(&bytes).unwrap();
    assert_eq!(p.len(), 3);
    assert!(!p.is_empty());
    assert_eq!(p.get(7).unwrap(), &bits(&[0.25, 0.75])[..]);
    assert_eq!(p.get(42).unwrap(), &bits(&[0.1, 0.2, 0.7])[..]);
    assert_eq!(p.get(u64::MAX).unwrap(), &bits(&[1.0])[..]);
    assert_eq!(p.get(8), None);
}

#[test]
fn uniform_fallback_on_miss_and_width_mismatch() {
    let p = CompactPolicy::from_entries(&[(5, bits(&[0.9, 0.1]))]);
    let probs = |key: u64, n: usize| -> Vec<f64> {
        match p.probs_or_uniform(key, n) {
            Some(row) => row.iter().map(|&b| f32::from_bits(b) as f64).collect(),
            None => vec![1.0 / n as f64; n],
        }
    };
    assert_eq!(probs(5, 2), vec![0.9f32 as f64, 0.1f32 as f64]);
    assert_eq!(probs(6, 4), vec![0.25; 4], "miss is uniform");
    assert_eq!(probs(5, 3), vec![1.0 / 3.0; 3], "width mismatch is uniform");
}

#[test]
fn entries_are_found_in_any_order() {
    let list: Vec<(u64, Vec<u32>)> = [9u64, 1, 5, 3, 7].iter().map(|&k| (k, vec![k as u32; 2])).collect();
    let p = CompactPolicy::from_entries(&list);
    for k in 0u64..12 {
        let want = [9u64, 1, 5, 3, 7].contains(&k);
        assert_eq!(p.get(k).is_some(), want, "{k}");
        if want {
            assert_eq!(p.get(k).unwrap(), &[k as u32, k as u32][..]);
        }
    }
    let empty = CompactPolicy::from_entries(&[]);
    assert!(empty.is_empty());
    assert_eq!(empty.get(0), None);
}

#[test]
fn broken_artifacts_are_refused() {
    assert!(matches!(CompactPolicy::from_bytes(&[1, 0, 0]), Err(LoadError::Truncated)));
    let mut wide = Vec::new();
    wide.extend_from_slice(&1u64.to_le_bytes());
    wide.extend_from_slice(&7u64.to_le_bytes());
    wide.extend_from_slice(&16u64.to_le_bytes());
    wide.extend_from_slice(&[0; 64]);
    assert!(matches!(CompactPolicy::from_bytes(&wide), Err(LoadError::TooWide(16))));
    let mut short = Vec::new();
    short.extend_from_slice(&1u64.to_le_bytes());
    short.extend_from_slice(&7u64.to_le_bytes());
    short.extend_from_slice(&2u64.to_le_bytes());
    short.extend_from_slice(&[0; 7]);
    assert!(matches!(CompactPolicy::from_bytes(&short), Err(LoadError::Truncated)));
}

#[test]
fn an_artifact_cut_anywhere_is_refused() {
    let mut map: HashMap<u64, Vec<f32>> = HashMap::new();
    map.insert(7, vec![0.25, 0.75]);
    map.insert(42, vec![0.1, 0.2, 0.7]);
    let bytes = bincode::serialize(&map).unwrap();
    for n in 0..bytes.len() {
        assert!(matches!(CompactPolicy::from_bytes(&bytes[..n]), Err(LoadError::Truncated)), "{n}");
    }
    assert!(CompactPolicy::from_bytes(&bytes).is_ok());
    // Fifteen actions are the most.
    let mut row: HashMap<u64, Vec<f32>> = HashMap::new();
    row.insert(1, vec![0.0; 15]);
    assert!(CompactPolicy::from_bytes(&bincode::serialize(&row).unwrap()).is_ok());
    row.insert(1, vec![0.0; 16]);
    let wide = bincode::serialize(&row).unwrap();
    assert!(matches!(CompactPolicy::from_bytes(&wide), Err(LoadError::TooWide(16))));
}

#[test]
fn numbers_are_little_endian() {
    assert_eq!(read_u64(&[1, 2, 0, 0, 0, 0, 0, 0, 9], 0), Some(0x201));
    assert_eq!(read_u64(&[1, 2, 0, 0, 0, 0, 0, 0, 9], 1), Some(0x0900_0000_0000_0002));
    assert_eq!(read_u64(&[0; 8], 1), None);
}
