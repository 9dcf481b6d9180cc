//! The cards behind all-in equity.

use poker_ai::play::cards::make_card;
use poker_ai::play::equity::{
    live_deck, next_unit, runouts, sampled_runout, seeded, PREFLOP_SAMPLES,
};
use poker_ai::resolving::belief_state::{
    combo_cards, combo_index, listed_combos, surviving_combos, NUM_COMBOS,
};

/// The strength of the best five of seven cards, by classes; higher wins.
fn strength(cards: &[u8]) -> u32 {
    let mut by_rank = [0u8; 13];
    let mut by_suit = [0u8; 4];
    let mut suited = [0u16; 4];
    let mut ranks = 0u16;
    for &card in cards {
        let (r, s) = ((card / 4) as usize, (card % 4) as usize);
        by_rank[r] += 1;
        by_suit[s] += 1;
        suited[s] |= 1 << r;
        ranks |= 1 << r;
    }
    fn run(mask: u16) -> Option<u32> {
        for top in (4..13u32).rev() {
            let five = 0b11111u16 << (top - 4);
            if mask & five == five {
                return Some(top);
            }
        }
        let wheel = 0b1_0000_0000_1111u16;
        if mask & wheel == wheel {
            Some(3)
        } else {
            None
        }
    }
    fn top(mask: u16, n: usize) -> u32 {
        let mut v = 0;
        let mut left = n;
        for r in (0..13u32).rev() {
            if left > 0 && mask & (1 << r) != 0 {
                v = v * 13 + r;
                left -= 1;
            }
        }
        v
    }
    const CLASS: u32 = 371_293; // 13^5
    let flush = (0..4usize).find(|&s| by_suit[s] >= 5);
    if let Some(s) = flush {
        if let Some(t) = run(suited[s]) {
            return 8 * CLASS + t;
        }
    }
    let pick = |n: u8, skip: Option<usize>| -> Option<usize> {
        (0..13usize).rev().find(|&r| by_rank[r] >= n && Some(r) != skip)
    };
    if let Some(q) = pick(4, None) {
        return 7 * CLASS + q as u32 * 13 + top(ranks & !(1 << q), 1);
    }
    let trips = pick(3, None);
    if let Some(t) = trips {
        if let Some(p) = pick(2, Some(t)) {
            return 6 * CLASS + t as u32 * 13 + p as u32;
        }
    }
    if let Some(s) = flush {
        return 5 * CLASS + top(suited[s], 5);
    }
    if let Some(t) = run(ranks) {
        return 4 * CLASS + t;
    }
    if let Some(t) = trips {
        return 3 * CLASS + t as u32 * 169 + top(ranks & !(1 << t), 2);
    }
    if let Some(p) = pick(2, None) {
        if let Some(q) = pick(2, Some(p)) {
            let rest = ranks & !(1 << p) & !(1 << q);
            return 2 * CLASS + (p as u32 * 13 + q as u32) * 13 + top(rest, 1);
        }
        return CLASS + p as u32 * 2197 + top(ranks & !(1 << p), 3);
    }
    top(ranks, 5)
}

/// The boards that an equity averages over.
fn boards(hole: [u8; 2], board: &[u8], rng: &mut u64) -> Vec<[u8; 5]> {
    let mut known = board.to_vec();
    known.extend_from_slice(&hole);
    let deck = live_deck(&known);
    if !board.is_empty() {
        return runouts(board, &deck);
    }
    let mut drawn = Vec::new();
    for _ in 0..PREFLOP_SAMPLES {
        let mut draws = [0usize; 5];
        for (i, slot) in draws.iter_mut().enumerate() {
            let unit = next_unit(rng) as f64 / (1u64 << 53) as f64;
            *slot = (unit * (deck.len() - i) as f64) as usize;
        }
        drawn.push(sampled_runout(&deck, &draws));
    }
    drawn
}

/// Equity against an equally weighted range, ties counted as a half win.
fn equity_vs_range(hole: [u8; 2], board: &[u8], range: &[bool], rng: &mut u64) -> f64 {
    let off_hole = surviving_combos(&hole);
    let mut sum = 0.0;
    let mut n = 0.0;
    for full in boards(hole, board, rng) {
        let live = surviving_combos(&full);
        let mut mine = full.to_vec();
        mine.extend_from_slice(&hole);
        let ours = strength(&mine);
        let (mut won, mut mass) = (0.0, 0.0);
        for h in 0..NUM_COMBOS {
            if range[h] && off_hole[h] && live[h] {
                let mut cards = full.to_vec();
                cards.extend_from_slice(&combo_cards(h));
                let theirs = strength(&cards);
                won += if ours > theirs { 1.0 } else if ours == theirs { 0.5 } else { 0.0 };
                mass += 1.0;
            }
        }
        sum += if mass > 0.0 { won / mass } else { 0.5 };
        n += 1.0;
    }
    sum / n
}

fn everything() -> Vec<bool> {
    vec![true; NUM_COMBOS]
}

#[test]
fn river_nuts_has_equity_one() {
    // Quad aces on A A 7 2 5; nothing in the deck beats it.
    let hole = [make_card(12, 0), make_card(12, 1)];
    let board = [
        make_card(12, 2),
        make_card(12, 3),
        make_card(5, 0),
        make_card(0, 1),
        make_card(3, 2),
    ];
    let mut rng = 1;
    let eq = equity_vs_range(hole, &board, &everything(), &mut rng);
    assert!(eq > 0.999, "nuts should be ~1.0, got {eq}");
}

#[test]
fn preflop_aces_beat_a_random_range() {
    // AA against a uniform opponent is ~85% preflop.
    let hole = [make_card(12, 0), make_card(12, 1)];
    let mut rng = 12345;
    let eq = equity_vs_range(hole, &[], &everything(), &mut rng);
    assert!((0.80..0.90).contains(&eq), "AA preflop equity {eq} outside [0.80, 0.90]");
}

#[test]
fn preflop_worst_hand_is_a_dog() {
    // 72o against a uniform opponent is ~35%.
    let hole = [make_card(5, 0), make_card(0, 1)];
    let mut rng = 999;
    let eq = equity_vs_range(hole, &[], &everything(), &mut rng);
    assert!((0.28..0.42).contains(&eq), "72o preflop equity {eq} outside [0.28, 0.42]");
}

#[test]
fn bottom_pair_folds_to_a_shoving_range_where_a_set_calls() {
    let board = [make_card(7, 0), make_card(1, 2), make_card(0, 0)]; // 9c 3h 2c
    let shoving = listed_combos(&[
        [make_card(7, 1), make_card(7, 3)],   // 99 -- top set
        [make_card(0, 1), make_card(0, 3)],   // 22 -- bottom set
        [make_card(12, 0), make_card(12, 1)], // AA
        [make_card(11, 0), make_card(11, 1)], // KK
        [make_card(10, 0), make_card(10, 1)], // QQ
    ]);
    let mut rng = 7;
    let bottom_pair = [make_card(10, 3), make_card(1, 1)]; // Qs 3d
    let set = [make_card(1, 0), make_card(1, 3)]; // 3c 3s

    let eq_weak = equity_vs_range(bottom_pair, &board, &shoving, &mut rng);
    let eq_set = equity_vs_range(set, &board, &shoving, &mut rng);
    assert!(eq_set > eq_weak, "set {eq_set} must beat bottom pair {eq_weak}");
    assert!(eq_weak < 0.45, "bottom pair {eq_weak} must not call a shove");
    assert!(eq_set > 0.45, "a set {eq_set} must call a shove");
}

#[test]
fn turn_enumerates_every_runout() {
    // 46 unseen cards on a 4-card board; the mean must be a proper average.
    let hole = [make_card(12, 0), make_card(11, 0)];
    let board = [make_card(12, 2), make_card(11, 3), make_card(5, 0), make_card(0, 1)];
    let mut rng = 3;
    assert_eq!(boards(hole, &board, &mut rng).len(), 46);
    let eq = equity_vs_range(hole, &board, &everything(), &mut rng);
    assert!((0.0..=1.0).contains(&eq), "equity {eq} out of range");
    assert!(eq > 0.9, "top two pair vs a random range should be strong, got {eq}");
}

#[test]
fn the_deck_is_what_is_not_known() {
    let deck = live_deck(&[0, 51, 7, 0xFF]);
    assert_eq!(deck.len(), 49);
    assert!(deck.windows(2).all(|w| w[0] < w[1]));
    assert!(!deck.contains(&0) && !deck.contains(&7) && !deck.contains(&51));
}

#[test]
fn a_flop_is_completed_by_every_pair_once() {
    let board = [10u8, 20, 30];
    let deck = live_deck(&[10, 20, 30, 40, 41]);
    let all = runouts(&board, &deck);
    assert_eq!(all.len(), 47 * 46 / 2);
    assert_eq!(all[0], [10, 20, 30, 0, 1]);
    assert_eq!(all[1], [10, 20, 30, 0, 2]);
    let mut pairs: Vec<usize> = all.iter().map(|b| combo_index(b[3], b[4])).collect();
    pairs.sort_unstable();
    pairs.dedup();
    assert_eq!(pairs.len(), all.len());
    assert_eq!(runouts(&[1, 2, 3, 4, 5], &deck), vec![[1, 2, 3, 4, 5]]);
}

#[test]
fn draws_take_distinct_cards_and_close_the_gap_with_the_last() {
    let deck: Vec<u8> = (0u8..8).collect();
    assert_eq!(sampled_runout(&deck, &[0, 0, 0, 0, 0]), [0, 7, 6, 5, 4]);
    // A draw beyond the deck takes the last card.
    assert_eq!(sampled_runout(&deck, &[99, 99, 1, 99, 0]), [7, 6, 1, 4, 0]);
}

#[test]
fn the_generator_steps_as_documented() {
    // xorshift64* from state 1.
    let mut rng = 1u64;
    let n = next_unit(&mut rng);
    assert_eq!(rng, 0x0000_0000_0200_0001);
    assert_eq!(n, 0x0200_0001u64.wrapping_mul(0x2545_F491_4F6C_DD1D) >> 11);
    assert_eq!(seeded(8), 9);
    assert_eq!(seeded(9), 9);
    let mut state = seeded(0);
    for _ in 0..1000 {
        assert!(next_unit(&mut state) < 1 << 53);
        assert_ne!(state, 0);
    }
}
