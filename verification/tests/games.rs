//! The abstract games and their information sets.

use poker_ai::engine::{Action, GameState, NO_CARD};
use poker_ai::games::blueprint::cursor::BlueprintCursor;
use poker_ai::games::blueprint::indexing::{BettingTree, BucketCounts, Indexing};
use poker_ai::games::blueprint::walk::Skeleton;
use poker_ai::games::blueprint::{deal_cards, BlueprintHoldem, DEAL_CARDS};
use poker_ai::games::kuhn::{Kuhn, KuhnState};
use poker_ai::games::nlhe::{HeadsUpHoldem, NlheState};
use poker_ai::games::push_fold::{PushFoldCursor, PushFoldHoldem};
use poker_ai::games::IndexedGame;
use poker_ai::play::equity::{next_unit, seeded};
use std::collections::{HashMap, HashSet};

fn state(street: u8, to_act: u8, current_bet: u32) -> GameState {
    GameState {
        street,
        pot: 3,
        current_bet,
        min_raise: 2,
        to_act,
        stacks: [399, 398],
        street_bets: [1, 2],
        total_committed: [1, 2],
        hole_cards: [[48, 44], [21, 22]],
        board: [NO_CARD; 5],
        folded: 0,
        allin: 0,
        players_to_act: 2,
        last_aggressor: 1,
        visible: if street == 0 { 0 } else { street + 2 },
        terminal: false,
    }
}

fn walk_kuhn(game: &Kuhn, s: &KuhnState, keys: &mut HashSet<u64>) {
    if game.is_terminal(s) {
        assert_eq!(game.utility(s, 0) + game.utility(s, 1), 0, "zero-sum at {s:?}");
        return;
    }
    keys.insert(game.info_key(s));
    for a in 0..game.num_actions(s) {
        walk_kuhn(game, &game.apply(s, a), keys);
    }
}

#[test]
fn tree_has_12_info_sets() {
    // 2 decision points per player × 3 cards × 2 players = 12 info sets.
    let game = Kuhn;
    assert!(game.is_chance(&game.root()));
    let mut keys = HashSet::new();
    for s in game.chance_outcomes() {
        walk_kuhn(&game, &s, &mut keys);
    }
    assert_eq!(keys.len(), 12, "Kuhn has exactly 12 information sets");
}

#[test]
fn kuhn_pays_by_the_book() {
    let game = Kuhn;
    let at = |cards: [u8; 2], history: &[u8]| KuhnState { dealt: true, cards, history: history.to_vec() };
    // King over jack.
    let high = [2, 0];
    assert_eq!(game.utility(&at(high, &[0, 0]), 0), 1);
    assert_eq!(game.utility(&at(high, &[1, 1]), 0), 2);
    assert_eq!(game.utility(&at(high, &[1, 0]), 0), 1);
    assert_eq!(game.utility(&at(high, &[0, 1, 0]), 0), -1);
    assert_eq!(game.utility(&at(high, &[0, 1, 1]), 1), -2);
    assert_eq!(game.current_player(&at(high, &[0])), 1);
    assert_eq!(game.current_player(&at(high, &[0, 1])), 0);
    // Card in the high half, history in base 3 behind a leading 1.
    assert_eq!(game.info_key(&at(high, &[0, 1])), (2 << 32) | ((1 * 3 + 1) * 3 + 2));
}

#[test]
fn chance_root_expands_to_all_deals() {
    let game = HeadsUpHoldem::demo();
    let root = game.root();
    assert!(game.is_chance(&root));
    assert_eq!(game.deals.len(), 4, "demo game has 4 curated deals");
    for deal in &game.deals {
        let mut gs = state(0, 0, 2);
        gs.hole_cards = deal.holes;
        gs.board = deal.board;
        let st = game.dealt(gs);
        assert!(!game.is_chance(&st), "post-deal nodes are play nodes");
        assert!(!game.is_terminal(&st));
    }
}

#[test]
fn a_player_keys_on_its_own_cards() {
    let game = HeadsUpHoldem::demo();
    let node = |holes: [[u8; 2]; 2], history: &[u8]| {
        let mut gs = state(1, 0, 0);
        gs.hole_cards = holes;
        gs.board = [48, 45, 22, NO_CARD, NO_CARD];
        NlheState { gs: Some(gs), history: history.to_vec() }
    };
    let base = game.info_key(&node([[40, 41], [36, 37]], &[1, 0]));
    // The opponent's hand does not count, nor does the order of one's own.
    assert_eq!(base, game.info_key(&node([[40, 41], [6, 7]], &[1, 0])));
    assert_eq!(base, game.info_key(&node([[41, 40], [36, 37]], &[1, 0])));
    // One's own hand and the history do.
    assert_ne!(base, game.info_key(&node([[26, 27], [36, 37]], &[1, 0])));
    assert_ne!(base, game.info_key(&node([[40, 41], [36, 37]], &[0, 1])));
}

fn dealt_cards(seed: u64) -> Vec<u8> {
    let mut rng = seeded(seed);
    let draws: Vec<usize> = (0..DEAL_CARDS)
        .map(|i| {
            let unit = next_unit(&mut rng) as f64 / (1u64 << 53) as f64;
            (unit * (52 - i) as f64) as usize
        })
        .collect();
    let deal = deal_cards(&draws);
    let mut cards = Vec::new();
    cards.extend_from_slice(&deal.holes[0]);
    cards.extend_from_slice(&deal.holes[1]);
    cards.extend_from_slice(&deal.board);
    cards
}

fn check_deals() {
    let game = BlueprintHoldem::new(100, 2, 1, 0);
    assert!(game.is_chance(&game.root()));
    for seed in 0..200u64 {
        let mut cards = dealt_cards(seed);
        assert_eq!(cards.len(), DEAL_CARDS);
        assert!(cards.iter().all(|&c| c < 52), "every dealt card is a real card");
        cards.sort_unstable();
        cards.dedup();
        assert_eq!(cards.len(), DEAL_CARDS, "no card is dealt twice (seed {seed})");
    }
}

#[test]
fn blueprint_sampled_deal_uses_nine_distinct_real_cards() {
    check_deals();
}

#[test]
fn tests_sampled_deal_uses_nine_distinct_real_cards() {
    check_deals();
    // Whatever the draws, beyond the deck included.
    let deal = deal_cards(&[usize::MAX; 9]);
    assert_eq!(deal.holes[0], [51, 0]);
}

/// A deep-stacked opening menu.
fn opening_menu() -> Vec<Action> {
    vec![
        Action::Fold,
        Action::Call,
        Action::Raise(4),
        Action::Raise(6),
        Action::Raise(10),
        Action::AllIn,
    ]
}

fn check_cap(full: &[Action]) {
    let game = BlueprintHoldem::new(200, 2, 1, 0).with_raise_cap(1);

    // Below the cap (0 raises so far) the opening raise is still offered.
    let under = game.capped_actions(full, 0);
    assert!(
        under.iter().any(|a| matches!(a, Action::Raise(_))),
        "opening raise must be legal below the cap, got {under:?}"
    );

    // At the cap, sized raises are gone but all-in remains.
    let at = game.capped_actions(full, 1);
    assert!(
        at.iter().all(|a| !matches!(a, Action::Raise(_))),
        "no sized reraise at the cap, got {at:?}"
    );
    assert!(at.iter().any(|a| matches!(a, Action::AllIn)), "all-in must survive the cap, got {at:?}");
    assert!(
        at.iter().any(|a| matches!(a, Action::Fold | Action::Call | Action::Check)),
        "a passive action must remain, got {at:?}"
    );

    // The uncapped default never filters, however many raises have happened.
    let uncapped = BlueprintHoldem::new(200, 2, 1, 0);
    assert!(uncapped.capped_actions(full, 9).iter().any(|a| matches!(a, Action::Raise(_))));
}

#[test]
fn blueprint_raise_cap_removes_sized_raises_but_never_the_all_in() {
    check_cap(&opening_menu());
}

#[test]
fn tests_raise_cap_removes_sized_raises_but_never_the_all_in() {
    check_cap(&[Action::Check, Action::Raise(2), Action::AllIn]);
    assert_eq!(
        BlueprintHoldem::capped_legal_at(&opening_menu(), 1, 1),
        vec![Action::Fold, Action::Call, Action::AllIn]
    );
}

fn check_landing_spot(full: &[Action]) {
    let game = BlueprintHoldem::new(400, 2, 1, 0).with_raise_cap(3);
    for raises in 0..8u8 {
        let acts = game.capped_actions(full, raises);
        assert!(
            acts.iter().any(|a| matches!(a, Action::Raise(_) | Action::AllIn)),
            "no aggressive action after {raises} raises: {acts:?}"
        );
    }
}

#[test]
fn blueprint_aggression_always_has_a_landing_spot_at_the_cap() {
    check_landing_spot(&opening_menu());
}

#[test]
fn tests_aggression_always_has_a_landing_spot_at_the_cap() {
    check_landing_spot(&[Action::Check, Action::AllIn]);
}

#[test]
fn raises_count_per_street() {
    let mut gs = state(0, 1, 6);
    assert_eq!(BlueprintHoldem::next_raises(0, 0, 2, &gs), 1, "the level rose");
    assert_eq!(BlueprintHoldem::next_raises(2, 0, 6, &gs), 2, "a call raises nothing");
    assert_eq!(BlueprintHoldem::next_raises(255, 0, 2, &gs), 255, "the count saturates");
    gs.street = 1;
    assert_eq!(BlueprintHoldem::next_raises(3, 0, 2, &gs), 0, "a new street starts over");
}

#[test]
fn undoing_leads_back_step_by_step() {
    let mut c = BlueprintCursor::root();
    c.deal(state(0, 0, 2));
    c.apply(2, state(0, 1, 6));
    c.apply(1, state(1, 1, 0));
    assert_eq!(c.history, vec![2, 1]);
    assert_eq!(c.street_raises, 0);
    assert_eq!(c.depth(), 2);
    c.undo();
    assert_eq!(c.history, vec![2]);
    assert_eq!(c.street_raises, 1);
    assert_eq!(c.gs, Some(state(0, 1, 6)));
    c.undo();
    assert_eq!(c.gs, Some(state(0, 0, 2)));
    assert_eq!(c.street_raises, 0);
    c.undo_chance();
    assert_eq!(c.gs, None);

    let mut p = PushFoldCursor::root();
    p.deal(state(0, 0, 2));
    p.apply(1, state(0, 1, 400));
    assert_eq!(p.history, vec![1]);
    p.undo();
    assert_eq!(p.gs, Some(state(0, 0, 2)));
    p.undo_chance();
    assert!(p.gs.is_none());
}

/// Walk the same moves by copying nodes and in place.
fn check_paths(cap: u32) {
    let game = BlueprintHoldem::new(40, 2, 1, 0).with_raise_cap(cap);
    let moves: [(u8, GameState); 5] = [
        (2, state(0, 1, 6)),
        (3, state(0, 0, 14)),
        (1, state(1, 1, 0)),
        (0, state(1, 0, 0)),
        (2, state(1, 1, 9)),
    ];
    let mut node = game.play_state(state(0, 0, 2));
    let mut c = BlueprintCursor::root();
    c.deal(state(0, 0, 2));
    for (a, next) in moves {
        node = game.apply(&node, a, next);
        c.apply(a, next);
        assert_eq!(node.history, c.history);
        assert_eq!(node.gs, c.gs);
        assert_eq!(node.street_raises, c.street_raises);
        let menu = game.actions(&node, &opening_menu());
        assert_eq!(menu, game.capped_actions(&opening_menu(), c.street_raises));
        assert_eq!(
            game.info_key_with_hole(&node, 11, None, 999),
            game.key_for(next.current_player(), next.board_cards_count(), 11, None, 999, &c.history)
        );
    }
    assert_eq!(node.street_raises, 1);
}

#[test]
fn blueprint_capped_clone_and_cursor_paths_agree() {
    check_paths(1);
}

#[test]
fn tests_capped_clone_and_cursor_paths_agree() {
    check_paths(u32::MAX);
}

fn decision(visible: u8, to_act: u8, branches: Vec<Skeleton>) -> Skeleton {
    Skeleton::Decision { visible, to_act, branches }
}

/// With a stack of one big blind the small blind has one fold/all-in decision.
fn check_preflop_only_index() {
    let betting = decision(0, 0, vec![Skeleton::Over, Skeleton::Over]);
    let game = BlueprintHoldem::new(2, 2, 1, 0)
        .with_raise_cap(1)
        .with_street_bucket(0, 50)
        .with_street_bucket(1, 50)
        .with_street_bucket(2, 50)
        .with_indexing(&betting);
    let cap = game.info_set_capacity();
    assert!(cap >= 169 && cap % 169 == 0, "preflop-only capacity is a multiple of 169, got {cap}");

    // The dense index and the key induce the same partition, and info_key_at
    // inverts the index back to that key.
    let mut by_key: HashMap<u64, usize> = HashMap::new();
    let mut by_idx: HashMap<usize, u64> = HashMap::new();
    let mut rng = seeded(5);
    for _ in 0..500 {
        let class = (next_unit(&mut rng) % 169) as usize;
        let mut c = BlueprintCursor::root();
        c.deal(state(0, 0, 2));
        let key = game.key_for(0, 0, class as u64, None, 0, &c.history);
        let idx = game.info_set_index(&c, game.dense_bucket(0, class, None));
        assert!(idx < cap, "index in range");
        assert_eq!(game.actions_at(idx), 2, "fold/all-in menu");
        assert_eq!(game.info_key_at(idx), key, "info_key_at inverts the dense index");
        assert_eq!(*by_key.entry(key).or_insert(idx), idx, "key -> one index");
        assert_eq!(*by_idx.entry(idx).or_insert(key), key, "index -> one key");
    }
    assert!(by_key.len() > 100, "should see many distinct starting-hand classes");
}

#[test]
fn blueprint_indexed_preflop_only_partition_and_key_round_trip() {
    check_preflop_only_index();
}

#[test]
fn tests_indexed_preflop_only_partition_and_key_round_trip() {
    check_preflop_only_index();
}

/// Small blind opens; a call leads to the flop, where two may act.
fn small_tree() -> BettingTree {
    let mut tree = BettingTree::new();
    let root = tree.add_node(None, 0, 0, 0, 3);
    let flop = tree.add_node(Some(root), 1, 3, 1, 2);
    tree.add_node(Some(flop), 0, 3, 0, 2);
    tree.add_node(Some(root), 2, 0, 1, 2);
    tree
}

/// The betting that [`small_tree`] is the tree of.
fn small_betting() -> Skeleton {
    let second = decision(3, 0, vec![Skeleton::Over, Skeleton::Over]);
    let flop = decision(3, 1, vec![second, Skeleton::Over]);
    let shoved = decision(0, 1, vec![Skeleton::Over, Skeleton::Over]);
    decision(0, 0, vec![Skeleton::Over, flop, shoved])
}

#[test]
fn decisions_are_numbered_depth_first() {
    let tree = BettingTree::of(&small_betting());
    assert_eq!(tree.nodes, small_tree().nodes);
    assert_eq!(tree.children, small_tree().children);
    let histories: Vec<Vec<u8>> = (0..4).map(|id| tree.history(id)).collect();
    assert_eq!(histories, vec![vec![], vec![1], vec![1, 0], vec![2]]);

    let mut empty = BettingTree::new();
    assert_eq!(empty.walk(&Skeleton::Over, None, 0), None);
    assert!(empty.nodes.is_empty());
    assert_eq!(empty.walk(&small_betting(), None, 0), Some(0));
    assert_eq!(empty.walk(&decision(5, 1, vec![]), Some(3), 1), Some(4));
    assert_eq!(empty.find(&[2, 1]), 4);
}

#[test]
fn a_skeleton_measures_its_index() {
    let counts = BucketCounts { flop: 10, turn: 20, river: 30 };
    assert_eq!(small_betting().measure(&counts), Some((4, 169 + 10 + 10 + 169)));
    assert_eq!(Skeleton::Over.measure(&counts), Some((0, 0)));
    assert_eq!(decision(2, 0, vec![]).measure(&counts), None, "no street shows two cards");
    let wide = (0..9).map(|_| Skeleton::Over).collect();
    assert_eq!(decision(0, 0, wide).measure(&counts), None, "more actions than child slots");
    let huge = BucketCounts { flop: u32::MAX, turn: 1, river: 1 };
    assert_eq!(decision(3, 0, vec![]).measure(&huge), Some((1, u32::MAX)));
    assert_eq!(small_betting().measure(&huge), None, "the slots overflow");
}

#[test]
fn indices_partition_the_information_sets() {
    let counts = BucketCounts { flop: 10, turn: 20, river: 30 };
    let indexing = Indexing::new(small_tree(), counts);
    let nodes: [(&[u8], usize, usize); 4] = [(&[], 169, 3), (&[1], 10, 2), (&[1, 0], 10, 2), (&[2], 169, 2)];
    let mut seen = HashSet::new();
    let mut keys = HashSet::new();
    for (history, buckets, width) in nodes {
        for bucket in 0..buckets {
            let index = indexing.index(history, bucket);
            assert!(seen.insert(index), "one index per information set");
            assert_eq!(indexing.actions_at(index), width);
            keys.insert(indexing.info_key_at(index));
        }
    }
    assert_eq!(seen.len(), 169 + 10 + 10 + 169);
    assert_eq!(seen.iter().max(), Some(&(seen.len() - 1)));
    assert_eq!(keys.len(), seen.len());
}

#[test]
fn exported_keys_are_those_of_play() {
    let game = BlueprintHoldem::new(400, 2, 1, 0)
        .with_raise_cap(1)
        .with_street_bucket(0, 10)
        .with_street_bucket(1, 20)
        .with_street_bucket(2, 30)
        .with_indexing(&small_betting());
    assert_eq!(game.info_set_capacity(), 169 + 10 + 10 + 169);
    let mut c = BlueprintCursor::root();
    c.deal(state(0, 0, 2));
    for class in [0usize, 7, 168] {
        let index = game.info_set_index(&c, class);
        assert_eq!(game.info_key_at(index), game.key_from_bucket(0, 0, class as u64, &[]));
        assert_eq!(game.actions_at(index), 3);
    }
    c.apply(1, state(1, 1, 0));
    let index = game.info_set_index(&c, 4);
    assert_eq!(game.info_key_at(index), game.key_from_bucket(1, 3, 4, &[1]));
}

#[test]
fn a_history_finds_its_node_and_back() {
    let tree = small_tree();
    for (id, history) in [(0u32, vec![]), (1, vec![1u8]), (2, vec![1, 0]), (3, vec![2])] {
        assert_eq!(tree.find(&history), id);
        assert_eq!(tree.history(id), history);
    }
}

#[test]
fn push_or_fold_is_all_there_is() {
    assert_eq!(PushFoldHoldem::menu(&opening_menu()), [Action::Fold, Action::AllIn]);
    assert_eq!(PushFoldHoldem::menu(&[Action::Fold, Action::Call]), [Action::Fold, Action::Call]);

    let game = PushFoldHoldem::new(50, 2, 1, 0);
    assert_eq!(game.info_set_capacity(), 338);
    let mut indices = HashSet::new();
    let mut keys = HashSet::new();
    for class in 0..169usize {
        let bytes = (class as u64).to_le_bytes();
        let mut c = PushFoldCursor::root();
        c.deal(state(0, 0, 2));
        indices.insert(game.info_set_index(&c, class));
        keys.insert(PushFoldHoldem::preflop_key(0, &bytes, &[]));
        c.apply(1, state(0, 1, 50));
        indices.insert(game.info_set_index(&c, class));
        keys.insert(PushFoldHoldem::preflop_key(1, &bytes, &[1]));
    }
    assert_eq!(indices.len(), 338);
    assert_eq!(keys.len(), 338);
    assert_eq!(game.actions_at(0), 2);
}

#[test]
fn buckets_stand_in_for_cards() {
    let raw = BlueprintHoldem::new(400, 2, 1, 0);
    let bucketed = BlueprintHoldem::new(400, 2, 1, 0).with_street_bucket(0, 50);
    // Preflop is the class, whatever is loaded.
    assert_eq!(raw.situation_bucket(0, 11, None, 999), 11);
    // An abstracted street is its bucket, an unabstracted one the raw index.
    assert_eq!(bucketed.situation_bucket(3, 11, Some(7), 999), 7);
    assert_eq!(bucketed.situation_bucket(3, 11, None, 999), 999);
    assert_eq!(raw.situation_bucket(3, 11, Some(7), 999), 999);
    assert_eq!(bucketed.situation_bucket(4, 11, Some(7), 999), 999, "the turn has none");
    assert_eq!(bucketed.dense_bucket(0, 11, None), 11);
    assert_eq!(bucketed.dense_bucket(3, 11, Some(7)), 7);
    assert_eq!(bucketed.dense_bucket(3, 11, None), 0);
    assert_eq!(
        bucketed.key_for(1, 3, 11, Some(7), 999, &[2, 1]),
        bucketed.key_from_bucket(1, 3, 7, &[2, 1])
    );
    assert_eq!(raw.big_blind_chips(), 2);
    assert_eq!(raw.stack_chips(), 400);
}
