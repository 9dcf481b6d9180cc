//! Two-card hands, their numbering and card removal.

use poker_ai::resolving::belief_state::{
    combo_cards, combo_index, listed_combos, live_combos, remove_cards, surviving_combos, NUM_COMBOS,
};
use poker_ai::util::card_set::CardSet;

#[test]
fn combo_index_and_cards_round_trip() {
    let mut seen = 0;
    for a in 0u8..52 {
        for b in (a + 1)..52 {
            let i = combo_index(a, b);
            assert_eq!(combo_cards(i), [a, b], "round trip at ({a},{b})");
            assert_eq!(combo_index(b, a), i, "order-independent");
            seen += 1;
        }
    }
    assert_eq!(seen, NUM_COMBOS);
}

#[test]
fn card_removal_zeros_conflicting_hands() {
    let board = [0u8, 1, 2]; // remove every hand containing card 0, 1, or 2
    let live = surviving_combos(&board);
    assert!(!live[combo_index(0, 5)], "hand with a board card is impossible");
    assert!(live[combo_index(10, 11)], "non-conflicting hand survives");
    // Remaining combos = C(49, 2).
    assert_eq!(live.iter().filter(|&&l| l).count(), 49 * 48 / 2);

    let mut probs = vec![1.0 / NUM_COMBOS as f64; NUM_COMBOS];
    remove_cards(&mut probs, 0.0, &board);
    assert_eq!(probs[combo_index(0, 5)], 0.0, "hand with a board card is impossible");
    assert!(probs[combo_index(10, 11)] > 0.0, "non-conflicting hand survives");
    assert_eq!(probs.iter().filter(|&&p| p > 0.0).count(), 49 * 48 / 2);
}

#[test]
fn card_removal_keeps_the_other_weights() {
    let weights: Vec<u32> = (1..=NUM_COMBOS as u32).collect();
    let mut once = weights.clone();
    remove_cards(&mut once, 0, &[7, 30]);
    for i in 0..NUM_COMBOS {
        let blocked = combo_cards(i).iter().any(|c| [7, 30].contains(c));
        assert_eq!(once[i], if blocked { 0 } else { weights[i] });
    }
    // Again, in another order, with empty slots: nothing changes.
    let mut twice = once.clone();
    remove_cards(&mut twice, 0, &[7, 30]);
    assert_eq!(twice, once);
    let mut slots = weights;
    remove_cards(&mut slots, 0, &[0xFF, 30, 52, 7, 0xFF]);
    assert_eq!(slots, once);
}

#[test]
fn empty_board_slots_remove_nothing() {
    let live = surviving_combos(&[0xFF, 0xFF]);
    assert_eq!(live.iter().filter(|&&l| l).count(), NUM_COMBOS);
}

#[test]
fn dead_cards_are_dead_in_either_place() {
    let mut dead = CardSet::new();
    dead.insert(7);
    let live = live_combos(dead);
    for i in 0..NUM_COMBOS {
        let [a, b] = combo_cards(i);
        assert_eq!(live[i], a != 7 && b != 7);
    }
}

#[test]
fn a_range_is_the_hands_it_lists() {
    let listed = listed_combos(&[[11, 10], [20, 21], [10, 11]]);
    let held: Vec<usize> = (0..NUM_COMBOS).filter(|&i| listed[i]).collect();
    assert_eq!(held, vec![combo_index(10, 11), combo_index(20, 21)]);
}

#[test]
fn the_last_combo_is_the_two_highest_cards() {
    assert_eq!(combo_cards(0), [0, 1]);
    assert_eq!(combo_cards(50), [0, 51]);
    assert_eq!(combo_cards(51), [1, 2]);
    assert_eq!(combo_cards(NUM_COMBOS - 1), [50, 51]);
}
