//! Luck adjustment: what chance moved, reveal by reveal.

use poker_ai::play::equity::live_deck;
use poker_ai::play::luck::{luck_reveals, pot_at_reveal, prefix_len};
use poker_ai::play::protocol::{parse_action, STACK_SIZE};

// Card numbers: rank * 4 + suit, rank 0 = deuce … 12 = ace.
fn c(rank: u8, suit: u8) -> u8 {
    rank * 4 + suit
}

/// The strength of the best five of seven cards; higher wins.
fn strength(cards: &[u8]) -> u32 {
    let mut by_rank = [0u8; 13];
    let mut by_suit = [0u8; 4];
    for &card in cards {
        by_rank[(card / 4) as usize] += 1;
        by_suit[(card % 4) as usize] += 1;
    }
    let straight = |has: &dyn Fn(usize) -> bool| -> Option<u32> {
        for top in (4..13usize).rev() {
            if (top - 4..=top).all(|r| has(r)) {
                return Some(top as u32);
            }
        }
        if has(12) && (0..4usize).all(|r| has(r)) {
            return Some(3);
        }
        None
    };
    let pack = |class: u32, ranks: &[usize]| -> u32 {
        let mut v = class;
        for i in 0..5 {
            v = v * 13 + if i < ranks.len() { ranks[i] as u32 } else { 0 };
        }
        v
    };
    let flush = (0..4usize).find(|&s| by_suit[s] >= 5);
    if let Some(s) = flush {
        let suited = |r: usize| cards.contains(&((r * 4 + s) as u8));
        if let Some(top) = straight(&suited) {
            return pack(8, &[top as usize]);
        }
    }
    let of = |n: u8| -> Vec<usize> { (0..13usize).rev().filter(|&r| by_rank[r] == n).collect() };
    let kickers = |used: &[usize], n: usize| -> Vec<usize> {
        (0..13usize).rev().filter(|r| by_rank[*r] > 0 && !used.contains(r)).take(n).collect()
    };
    let (quads, trips, pairs) = (of(4), of(3), of(2));
    let with = |mut head: Vec<usize>, tail: Vec<usize>| -> Vec<usize> {
        head.extend(tail);
        head
    };
    if !quads.is_empty() {
        return pack(7, &with(vec![quads[0]], kickers(&quads[..1], 1)));
    }
    if !trips.is_empty() && (trips.len() > 1 || !pairs.is_empty()) {
        let full = if trips.len() > 1 {
            if !pairs.is_empty() && pairs[0] > trips[1] { pairs[0] } else { trips[1] }
        } else {
            pairs[0]
        };
        return pack(6, &[trips[0], full]);
    }
    if let Some(s) = flush {
        let ranks: Vec<usize> = (0..13usize)
            .rev()
            .filter(|&r| cards.contains(&((r * 4 + s) as u8)))
            .take(5)
            .collect();
        return pack(5, &ranks);
    }
    if let Some(top) = straight(&|r| by_rank[r] > 0) {
        return pack(4, &[top as usize]);
    }
    if !trips.is_empty() {
        return pack(3, &with(vec![trips[0]], kickers(&trips[..1], 2)));
    }
    if pairs.len() >= 2 {
        return pack(2, &with(vec![pairs[0], pairs[1]], kickers(&pairs[..2], 1)));
    }
    if pairs.len() == 1 {
        return pack(1, &with(vec![pairs[0]], kickers(&pairs[..1], 3)));
    }
    pack(0, &kickers(&[], 5))
}

fn showdown(ours: [u8; 2], theirs: [u8; 2], board: &[u8]) -> f64 {
    let mut a = board.to_vec();
    a.extend_from_slice(&ours);
    let mut b = board.to_vec();
    b.extend_from_slice(&theirs);
    let (x, y) = (strength(&a), strength(&b));
    if x > y {
        1.0
    } else if x == y {
        0.5
    } else {
        0.0
    }
}

/// Exact equity from the flop on, the board completed in every way.
fn equity(ours: [u8; 2], theirs: [u8; 2], board: &[u8]) -> f64 {
    let mut known = board.to_vec();
    known.extend_from_slice(&ours);
    known.extend_from_slice(&theirs);
    let deck = live_deck(&known);
    let boards = poker_ai::play::equity::runouts(board, &deck);
    let total: f64 = boards.iter().map(|b| showdown(ours, theirs, b)).sum();
    total / boards.len() as f64
}

/// The luck of a hand, given the equity before the flop.
fn luck(ours: [u8; 2], theirs: [u8; 2], board: &[u8], action: &str, preflop: f64) -> f64 {
    let mut total = 0.0;
    let mut before = preflop;
    for reveal in luck_reveals(board.len(), action).unwrap() {
        let after = equity(ours, theirs, &board[..reveal.prefix]);
        total += reveal.pot as f64 * (after - before);
        before = after;
    }
    total
}

#[test]
fn preflop_fold_has_zero_luck() {
    let luck = luck([c(12, 0), c(12, 1)], [c(0, 2), c(5, 3)], &[], "f", 0.5);
    assert_eq!(luck, 0.0);
}

/// Preflop all-in + call: the whole board is luck.  The adjustment must
/// telescope so that `raw − luck = pot · (preflop equity − ½)` for EVERY
/// run-out.
#[test]
fn preflop_all_in_adjusts_to_equity_cashout() {
    let ours = [c(12, 0), c(12, 1)]; // AA
    let theirs = [c(11, 2), c(11, 3)]; // KK
    let pot = (2 * STACK_SIZE) as f64;
    let eq_pre = 0.8195;

    // A run-out we win and one we lose.
    let win_board = [c(2, 0), c(7, 1), c(9, 2), c(3, 3), c(4, 0)];
    let lose_board = [c(11, 0), c(7, 1), c(9, 2), c(3, 3), c(4, 0)];
    for (board, raw) in [(win_board, pot / 2.0), (lose_board, -pot / 2.0)] {
        let luck = luck(ours, theirs, &board, "b20000c", eq_pre);
        let adjusted = raw - luck;
        let cashout = pot * (eq_pre - 0.5);
        assert!((adjusted - cashout).abs() < 1e-6, "adjusted {adjusted} != cashout {cashout}");
    }
}

/// The correction at each reveal uses the pot at that moment, so betting
/// AFTER a reveal must scale later corrections but not earlier ones.
#[test]
fn corrections_use_pot_at_reveal_time() {
    let ours = [c(12, 0), c(12, 1)];
    let theirs = [c(4, 2), c(5, 3)];
    let board = [c(2, 0), c(7, 1), c(9, 2), c(3, 3), c(8, 0)];
    // Limped pot (200) sees the flop; flop bet 300 called → turn pot 800;
    // turn checked through; river checked through.
    let action = "ck/b300c/kk/kk";
    let eq0 = 0.77;
    let eq_f = equity(ours, theirs, &board[..3]);
    let eq_t = equity(ours, theirs, &board[..4]);
    let eq_r = equity(ours, theirs, &board);
    let expect = 200.0 * (eq_f - eq0) + 800.0 * (eq_t - eq_f) + 800.0 * (eq_r - eq_t);
    let luck = luck(ours, theirs, &board, action, eq0);
    assert!((luck - expect).abs() < 1e-9, "luck {luck} != {expect}");
}

/// Zero-mean check for one reveal: the turn correction summed over every
/// possible turn card is exactly zero (the tower property the estimator's
/// unbiasedness rests on).
#[test]
fn turn_correction_is_zero_mean_over_all_cards() {
    let ours = [c(12, 0), c(11, 1)];
    let theirs = [c(9, 2), c(9, 3)];
    let flop = [c(2, 0), c(7, 1), c(12, 2)];
    let eq_flop = equity(ours, theirs, &flop);
    let mut known = flop.to_vec();
    known.extend_from_slice(&ours);
    known.extend_from_slice(&theirs);
    let mut sum = 0.0;
    let mut count = 0;
    for card in live_deck(&known) {
        let board = [flop[0], flop[1], flop[2], card];
        sum += equity(ours, theirs, &board) - eq_flop;
        count += 1;
    }
    assert_eq!(count, 45);
    assert!(sum.abs() < 1e-9, "mean turn correction {} != 0", sum / 45.0);
}

#[test]
fn reveals_carry_the_pot_of_their_moment() {
    let pots: Vec<(usize, u32)> =
        luck_reveals(5, "ck/b300c/kk/kk").unwrap().iter().map(|r| (r.prefix, r.pot)).collect();
    assert_eq!(pots, vec![(3, 200), (4, 800), (5, 800)]);
    // A called shove runs the whole board out for the whole pot.
    let pots: Vec<u32> = luck_reveals(5, "b20000c").unwrap().iter().map(|r| r.pot).collect();
    assert_eq!(pots, vec![40_000; 3]);
    // Only what the board shows counts.
    assert_eq!(luck_reveals(3, "ck/b300f").unwrap().len(), 1);
    assert_eq!(luck_reveals(0, "f").unwrap().len(), 0);
    assert!(luck_reveals(3, "zz").is_err());
}

#[test]
fn pots_never_shrink_from_reveal_to_reveal() {
    let p = parse_action("b200c/kb400c/b600c/kk").unwrap();
    assert_eq!(prefix_len(1), 3);
    assert_eq!(prefix_len(2), 4);
    assert_eq!(prefix_len(3), 5);
    let pots: Vec<u32> = (1..=3).map(|s| pot_at_reveal(&p, s)).collect();
    assert_eq!(pots, vec![400, 1200, 2400]);
}
