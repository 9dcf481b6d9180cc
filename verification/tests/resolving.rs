//! Subgames: deals, trees, gadgets and keys.

use poker_ai::engine::{Action, GameState, NO_CARD};
use poker_ai::play::cards::make_card;
use poker_ai::resolving::belief_state::{combo_cards, combo_index, NUM_COMBOS};
use poker_ai::resolving::continual::{by_seat, ContinualState, ResolveMode};
use poker_ai::resolving::gadget::{GadgetGame, GadgetState, FOLLOW, TERMINATE};
use poker_ai::resolving::leaf_eval::{equity_key, settled, visible_board};
use poker_ai::resolving::subgame::{
    compatible_deals, SolverKind, Subgame, SubgameNode, SubgameSolver,
};
use poker_ai::resolving::vector_cfr::keys::{
    info_key, subgame_info_key, MARKER_CONTINUATION, MARKER_GADGET, MARKER_NONE,
};
use poker_ai::resolving::vector_cfr::solve::{block_slot, traverser, VectorTree, Visit};
use poker_ai::resolving::vector_cfr::tree::{
    capped_legal, capped_root_actions, deal_river, point_kind, river_cards, subgame_raises,
    NodeKind, PointKind, PublicTree, TreeRules,
};
use std::collections::HashSet;

fn river_board() -> [u8; 5] {
    // A♣ K♦ 9♥ 4♠ 2♣
    [make_card(12, 0), make_card(11, 1), make_card(7, 2), make_card(2, 3), make_card(0, 0)]
}

fn turn_board() -> [u8; 5] {
    let mut board = river_board();
    board[4] = NO_CARD;
    board
}

/// A limped pot of 4 with `stack` chips behind, the big blind (seat 1) to act.
fn public_root(board: [u8; 5], stack: u32, street: u8) -> GameState {
    GameState {
        street,
        pot: 4,
        current_bet: 0,
        min_raise: 2,
        to_act: 1,
        stacks: [stack, stack],
        street_bets: [0, 0],
        total_committed: [2, 2],
        hole_cards: [[1, 2], [3, 4]],
        board,
        folded: 0,
        allin: 0,
        players_to_act: 2,
        last_aggressor: 1,
        visible: street + 2,
        terminal: false,
    }
}

/// A pot-sized raise or all the chips: a small engine to unfold trees with.
fn legal(gs: &GameState) -> Vec<Action> {
    let me = gs.to_act as usize;
    let to_call = gs.current_bet - gs.street_bets[me];
    let mut acts = Vec::new();
    if to_call > 0 {
        acts.push(Action::Fold);
        if gs.stacks[me] > to_call {
            acts.push(Action::Call);
        } else {
            acts.push(Action::AllIn);
            return acts;
        }
    } else {
        acts.push(Action::Check);
    }
    if gs.allin == 0 {
        let level = gs.current_bet + gs.pot + to_call;
        if level < gs.street_bets[me] + gs.stacks[me] {
            acts.push(Action::Raise(level));
        }
        acts.push(Action::AllIn);
    }
    acts
}

fn put(gs: &mut GameState, chips: u32) {
    let me = gs.to_act as usize;
    let chips = chips.min(gs.stacks[me]);
    gs.stacks[me] -= chips;
    gs.street_bets[me] += chips;
    gs.total_committed[me] += chips;
    gs.pot += chips;
    if gs.stacks[me] == 0 {
        gs.allin |= 1 << me;
    }
}

fn apply(gs: &GameState, act: Action) -> GameState {
    let mut next = *gs;
    let me = gs.to_act as usize;
    let to_call = gs.current_bet - gs.street_bets[me];
    let mut raised = false;
    match act {
        Action::Fold => {
            next.folded |= 1 << me;
            next.terminal = true;
            return next;
        }
        Action::Check => {}
        Action::Call => put(&mut next, to_call),
        Action::Raise(level) => put(&mut next, level - gs.street_bets[me]),
        Action::AllIn => put(&mut next, gs.stacks[me]),
    }
    if next.street_bets[me] > gs.current_bet {
        next.current_bet = next.street_bets[me];
        next.last_aggressor = me as u8;
        raised = true;
    }
    next.players_to_act = if raised { 1 } else { gs.players_to_act - 1 };
    next.to_act = 1 - gs.to_act;
    if next.players_to_act == 0 {
        if next.allin != 0 || next.street == 3 {
            next.terminal = true;
            next.visible = 5;
        } else {
            next.street += 1;
            next.visible += 1;
            next.street_bets = [0, 0];
            next.current_bet = 0;
            next.to_act = 1;
            next.players_to_act = 2;
        }
    }
    next
}

fn payoffs(gs: &GameState) -> [i64; 2] {
    settled(gs).unwrap_or([0, 0])
}

fn unfold(rules: &TreeRules, gs: &GameState, raises: u32) -> PublicTree {
    match point_kind(rules, gs) {
        PointKind::Bets => {
            let menu = legal(gs);
            let branches = capped_legal(&menu, raises, rules.raise_cap)
                .iter()
                .map(|&act| {
                    let next = apply(gs, act);
                    unfold(rules, &next, subgame_raises(raises, gs.current_bet, next.current_bet))
                })
                .collect();
            PublicTree::Bets { state: *gs, legal: menu, raises, branches }
        }
        PointKind::River => {
            let branches =
                river_cards(gs).iter().map(|&c| unfold(rules, &deal_river(gs, c), 0)).collect();
            PublicTree::River { state: *gs, branches }
        }
        _ => PublicTree::End { state: *gs, payoffs: payoffs(gs) },
    }
}

fn tree_of(root: &GameState, cap: u32, continuations: usize, full_river: bool) -> VectorTree {
    let rules = TreeRules::new(root, cap, continuations, full_river);
    let tree = unfold(&rules, root, 0);
    assert!(tree.unfolded(&rules), "the tree keeps to the rules");
    VectorTree::new(&rules, &tree)
}

fn choosers(tree: &VectorTree) -> usize {
    tree.arena
        .nodes
        .iter()
        .filter(|n| matches!(n, NodeKind::Decision { marker: MARKER_CONTINUATION, .. }))
        .count()
}

fn check_chooser(continuations: usize) {
    let root = public_root(turn_board(), 20, 2);
    let chooser = 1 - root.current_player();
    let tree = tree_of(&root, u32::MAX, continuations, false);
    for node in &tree.arena.nodes {
        let NodeKind::Decision { player, children, marker: MARKER_CONTINUATION, .. } = node else {
            continue;
        };
        assert_eq!(*player, chooser, "the opponent chooses the continuation");
        assert_eq!(children.len(), continuations, "one action per continuation");
        let scales: Vec<usize> = children
            .iter()
            .map(|&c| match &tree.arena.nodes[c] {
                NodeKind::RunoutShowdown { scale, .. } => *scale,
                _ => panic!("a continuation child must be a runout showdown"),
            })
            .collect();
        assert_eq!(scales, (0..continuations).collect::<Vec<usize>>());
    }
    assert!(choosers(&tree) > 0, "a K > 1 turn resolve must contain a continuation-choice node");

    // K = 1 stays a plain leaf — no chooser nodes.
    assert_eq!(choosers(&tree_of(&root, u32::MAX, 1, false)), 0);
}

#[test]
fn vector_cfr_k_continuation_inserts_a_chooser_node_owned_by_the_opponent() {
    check_chooser(4);
}

#[test]
fn tests_k_continuation_inserts_a_chooser_node_owned_by_the_opponent() {
    check_chooser(2);
}

fn check_cap_bounds_the_tree(stack: u32) {
    let root = public_root(river_board(), stack, 3);
    let count = |cap: u32| tree_of(&root, cap, 1, false).public_node_count();
    let (none, one, free) = (count(0), count(1), count(u32::MAX));
    assert!(none < one, "a cap of one raise allows more than none: {none} < {one}");
    assert!(one < free, "the cap bounds the tree: {one} < {free}");
    assert_eq!(count(1_000), free, "a cap the tree never reaches changes nothing");
    // The root menu is index-aligned with the tree's root.
    for cap in [0, 1, u32::MAX] {
        let tree = tree_of(&root, cap, 1, false);
        let NodeKind::Decision { children, .. } = &tree.arena.nodes[tree.root] else {
            panic!("root is a decision node");
        };
        assert_eq!(capped_root_actions(&legal(&root), cap).len(), children.len());
    }
    // Past the cap only passive actions remain at the root.
    assert_eq!(capped_root_actions(&legal(&root), 0), vec![Action::Check]);
    assert_eq!(capped_root_actions(&legal(&root), 1), legal(&root));
}

#[test]
fn vector_cfr_raise_cap_bounds_the_public_tree() {
    check_cap_bounds_the_tree(200);
}

#[test]
fn tests_raise_cap_bounds_the_public_tree() {
    check_cap_bounds_the_tree(2000);
}

#[test]
fn the_cap_keeps_a_forced_all_in() {
    let forced = [Action::Fold, Action::AllIn];
    assert_eq!(capped_legal(&forced, 3, 3), forced.to_vec());
    let free = [Action::Fold, Action::Call, Action::Raise(8), Action::AllIn];
    assert_eq!(capped_legal(&free, 3, 3), vec![Action::Fold, Action::Call]);
    assert_eq!(capped_legal(&free, 2, 3), free.to_vec());
    assert_eq!(subgame_raises(2, 4, 8), 3);
    assert_eq!(subgame_raises(2, 4, 4), 2);
}

#[test]
fn a_tree_that_miscounts_its_raises_is_told() {
    let root = public_root(turn_board(), 8, 2);
    for full_river in [false, true] {
        let rules = TreeRules::new(&root, 1, 2, full_river);
        assert!(unfold(&rules, &root, 0).unfolded(&rules));
        assert!(!unfold(&rules, &root, 1).unfolded(&rules), "no raise is made at the root");
        // Unfolded by other rules, it has other branches.
        let looser = TreeRules { raise_cap: 2, ..rules };
        assert!(!unfold(&looser, &root, 0).unfolded(&rules));
        assert!(unfold(&looser, &root, 0).unfolded(&looser));
    }
    let rules = TreeRules::new(&root, 1, 2, true);
    let PublicTree::Bets { state, legal, raises, mut branches } = unfold(&rules, &root, 0) else {
        panic!("a betting root")
    };
    // A missing branch, and a branch on another board.
    let last = branches.pop().unwrap();
    let cut = PublicTree::Bets { state, legal: legal.clone(), raises, branches };
    assert!(!cut.unfolded(&rules));
    let PublicTree::Bets { mut branches, .. } = cut else { panic!("a betting root") };
    branches.push(last);
    let whole = PublicTree::Bets { state, legal, raises, branches };
    assert!(whole.unfolded(&rules));
    let other = PublicTree::End { state: public_root(turn_board(), 8, 2), payoffs: [0, 0] };
    assert!(!other.unfolded(&rules), "the betting is still open there");
}

#[test]
fn points_become_what_the_board_allows() {
    let plain = TreeRules { raise_cap: 3, continuations: 1, full_river: false, chooser: 0 };
    let many = TreeRules { continuations: 4, ..plain };
    let full = TreeRules { full_river: true, ..many };
    let turn = public_root(turn_board(), 20, 2);
    assert_eq!(point_kind(&plain, &turn), PointKind::Bets);
    // The turn betting closed: the street wants the river.
    let closed = GameState { street: 3, visible: 5, ..turn };
    assert_eq!(point_kind(&plain, &closed), PointKind::Runout);
    assert_eq!(point_kind(&many, &closed), PointKind::Chooser);
    assert_eq!(point_kind(&full, &closed), PointKind::River);
    // An all-in run-out is exact without a chooser in full-river mode only.
    let shoved = GameState { terminal: true, ..closed };
    assert_eq!(point_kind(&many, &shoved), PointKind::Chooser);
    assert_eq!(point_kind(&full, &shoved), PointKind::Runout);
    let folded = GameState { terminal: true, folded: 2, ..turn };
    assert_eq!(point_kind(&full, &folded), PointKind::Fold);
    let river = GameState { terminal: true, ..public_root(river_board(), 20, 3) };
    assert_eq!(point_kind(&full, &river), PointKind::Showdown);
}

#[test]
fn a_full_river_tree_deals_every_live_card() {
    let root = public_root(turn_board(), 4, 2);
    let tree = tree_of(&root, 1, 1, true);
    let mut reveals = 0;
    for node in &tree.arena.nodes {
        if let NodeKind::Chance { children } = node {
            reveals += 1;
            assert_eq!(children.len(), 48);
            assert!(children.windows(2).all(|w| w[0].0 < w[1].0));
            for (card, _) in children {
                assert!(!turn_board().contains(card));
            }
        }
    }
    assert!(reveals > 0);
    assert_eq!(tree.arena.boards.len(), 48 * reveals);
    for node in &tree.arena.nodes {
        if let NodeKind::Showdown { prep, .. } = node {
            assert!(!tree.arena.boards[*prep].contains(&NO_CARD));
        }
    }
}

#[test]
fn children_come_first_and_blocks_are_private() {
    let tree = tree_of(&public_root(turn_board(), 20, 2), 2, 3, false);
    let mut stores = HashSet::new();
    let mut parents = vec![0; tree.arena.nodes.len()];
    for (id, node) in tree.arena.nodes.iter().enumerate() {
        if let NodeKind::Decision { store, children, .. } = node {
            assert!(stores.insert(*store), "a block of its own");
            assert_eq!(tree.arena.widths[*store], children.len());
            for &c in children {
                assert!(c < id);
                parents[c] += 1;
            }
        }
    }
    assert_eq!(stores.len(), tree.arena.widths.len());
    assert_eq!(parents.iter().filter(|&&n| n == 0).count(), 1, "one root");
    assert!(parents.iter().all(|&n| n <= 1), "a tree");
    assert_eq!(parents[tree.root], 0);
}

#[test]
fn no_two_decisions_share_a_key() {
    for full in [false, true] {
        let tree = tree_of(&public_root(turn_board(), 8, 2), 2, 3, full);
        let hand = combo_index(make_card(5, 1), make_card(6, 2));
        let mut keys = HashSet::new();
        let mut emitted = 0;
        for id in 0..tree.public_node_count() {
            if let Some(key) = tree.emitted_key(id, hand) {
                keys.insert(key);
                emitted += 1;
            }
        }
        assert_eq!(keys.len(), emitted);
        assert_eq!(tree.public_nodes(), emitted);
    }
}

#[test]
fn a_gadget_wraps_the_root_and_is_not_emitted() {
    let mut tree = tree_of(&public_root(river_board(), 20, 3), 2, 1, false);
    let (before, root) = (tree.public_node_count(), tree.root);
    let emitted = tree.public_nodes();
    let hand = combo_index(make_card(5, 1), make_card(6, 2));
    let keys = |tree: &VectorTree| -> HashSet<u64> {
        (0..tree.public_node_count()).filter_map(|id| tree.emitted_key(id, hand)).collect()
    };
    let plain = keys(&tree);
    tree.with_opponent_gadget();
    assert_eq!(keys(&tree), plain, "the gadget adds no key");
    assert_eq!(tree.public_node_count(), before + 2);
    assert_eq!(tree.inner_root, root);
    assert!(matches!(tree.arena.nodes[before], NodeKind::CfvTerminal));
    match &tree.arena.nodes[tree.root] {
        NodeKind::Decision { player, children, marker, .. } => {
            assert_eq!(*player, tree.chooser);
            assert_eq!(children, &vec![before, root]);
            assert_eq!(*marker, MARKER_GADGET);
        }
        _ => panic!("the gadget is a decision"),
    }
    assert_eq!(tree.emitted_key(tree.root, 0), None);
    assert_eq!(tree.public_nodes(), emitted);
    assert_eq!(tree.visit(before, tree.chooser, 0, 2), Visit::Carry { own: true });
    assert_eq!(tree.visit(before, 1 - tree.chooser, 0, 2), Visit::Carry { own: false });
}

#[test]
fn the_cutoff_only_moves_work() {
    let serial = |v: Visit| match v {
        Visit::Reveal { .. } => Visit::Reveal { parallel: false },
        Visit::OwnMove { .. } => Visit::OwnMove { parallel: false },
        Visit::OtherMove { .. } => Visit::OtherMove { parallel: false },
        other => other,
    };
    let tree = tree_of(&public_root(turn_board(), 8, 2), 2, 3, true);
    for id in 0..tree.public_node_count() {
        for who in [0, 1] {
            let plain = tree.visit(id, who, 0, 0);
            assert_eq!(plain, serial(plain));
            for (depth, cutoff) in [(0, 2), (1, 2), (5, 2), (0, usize::MAX)] {
                assert_eq!(serial(tree.visit(id, who, depth, cutoff)), plain);
            }
        }
    }
}

#[test]
fn visits_update_own_decisions_only() {
    let tree = tree_of(&public_root(turn_board(), 20, 2), 2, 3, false);
    for (id, node) in tree.arena.nodes.iter().enumerate() {
        for who in 0..2usize {
            let near = tree.visit(id, who, 0, 2);
            let far = tree.visit(id, who, 2, 2);
            match node {
                NodeKind::Decision { player, marker, children, .. } => {
                    let leaves = *marker == MARKER_CONTINUATION;
                    let parallel = children.len() > 1;
                    let want = |parallel: bool| match (*player == who, leaves) {
                        (true, true) => Visit::OwnChooser,
                        (true, false) => Visit::OwnMove { parallel },
                        (false, true) => Visit::OtherChooser,
                        (false, false) => Visit::OtherMove { parallel },
                    };
                    assert_eq!(near, want(parallel));
                    assert_eq!(far, want(false));
                }
                NodeKind::Fold { .. } => assert_eq!(near, Visit::Fold),
                NodeKind::RunoutShowdown { .. } => assert_eq!(far, Visit::Runout),
                _ => panic!("no such node in a cut tree"),
            }
        }
    }
    assert_eq!([traverser(1), traverser(2), traverser(3)], [0, 1, 0]);
}

#[test]
fn blocks_are_action_major() {
    assert_eq!(block_slot(3, 0, 0), 0);
    assert_eq!(block_slot(3, 0, NUM_COMBOS - 1), 1325);
    assert_eq!(block_slot(3, 2, 5), 2 * 1326 + 5);
}

#[test]
fn deals_respect_card_removal() {
    let b = river_board();
    // Ranges that include hands overlapping the board and each other.
    let range0 = [[make_card(12, 1), make_card(12, 2)], [b[0], b[1]]];
    let range1 = [[make_card(10, 0), make_card(10, 1)], [make_card(12, 1), make_card(8, 0)]];
    let deals = compatible_deals(&b, &range0, &range1);
    // No deal may reuse a board card or share a card across the two hands.
    let board_mask: u64 = b.iter().fold(0, |m, &c| m | (1 << c));
    for d in &deals {
        let (h0, h1) = (range0[d.first], range1[d.second]);
        let m0 = (1u64 << h0[0]) | (1u64 << h0[1]);
        let m1 = (1u64 << h1[0]) | (1u64 << h1[1]);
        assert_eq!(m0 & board_mask, 0, "hole on board");
        assert_eq!(m1 & board_mask, 0, "hole on board");
        assert_eq!(m0 & m1, 0, "hands share a card");
    }
    assert_eq!(deals.len(), 1);
    assert_eq!((deals[0].first, deals[0].second), (0, 0));
}

#[test]
fn multi_valued_leaf_inserts_a_chooser_node_and_stays_zero_sum() {
    let root = public_root(turn_board(), 20, 2);
    let game = Subgame::new(&root, 4);
    let chooser = 1 - root.current_player();
    fn walk(g: &Subgame, s: &SubgameNode, chooser: usize, saw_choice: &mut bool) {
        let gs = s.gs.unwrap();
        if g.is_terminal(s) {
            if let Some(v) = settled(&gs) {
                assert_eq!(v[0] + v[1], 0, "zero-sum at leaf");
            }
            return;
        }
        let n = g.num_actions(s, legal(&gs).len(), g.k);
        if g.pending_continuation(s) {
            *saw_choice = true;
            assert_eq!(g.current_player(s), chooser, "the opponent chooses the continuation");
            assert_eq!(n, 4, "one action per continuation");
            for a in 0..n {
                let after = g.choose_continuation(s, a as u8);
                assert!(g.is_terminal(&after));
                assert_eq!(g.scored_continuation(&after, 4), a);
            }
            return;
        }
        for (a, &act) in legal(&gs).iter().enumerate() {
            walk(g, &g.apply(s, a as u8, apply(&gs, act)), chooser, saw_choice);
        }
    }
    let mut saw_choice = false;
    let dealt = SubgameNode::deal(&root, [[48, 40], [30, 31]]);
    assert_eq!(dealt.hole_cards(1), Some([30, 31]));
    assert!(game.is_chance(&game.root()));
    assert_eq!(game.root().hole_cards(0), None);
    walk(&game, &dealt, chooser, &mut saw_choice);
    assert!(saw_choice, "the subgame must contain at least one continuation-choice node");
}

#[test]
fn check_raise_line_is_in_the_subgame_tree() {
    let root = public_root(river_board(), 40, 3);
    let game = Subgame::new(&root, 1);
    let deal = SubgameNode::deal(&root, [[40, 41], [30, 31]]);
    let acts = |s: &SubgameNode| legal(&s.gs.unwrap());
    let play = |s: &SubgameNode, i: usize| {
        let act = acts(s)[i];
        game.apply(s, i as u8, apply(&s.gs.unwrap(), act))
    };
    let check = acts(&deal).iter().position(|&a| a == Action::Check).expect("first player can check");
    let after_check = play(&deal, check);
    let bet = acts(&after_check)
        .iter()
        .position(|&a| matches!(a, Action::Raise(_)) || a == Action::AllIn)
        .expect("second player can bet into the check");
    let after_bet = play(&after_check, bet);
    assert!(
        acts(&after_bet).iter().any(|&a| matches!(a, Action::Raise(_)) || a == Action::AllIn),
        "the checker can raise over the bet"
    );
    assert_eq!(after_bet.history, vec![check as u8, bet as u8]);
}

#[test]
fn explicit_and_vectorized_keys_are_the_same() {
    let root = public_root(turn_board(), 20, 2);
    let tree = tree_of(&root, u32::MAX, 3, false);
    let game = Subgame::new(&root, 3);
    let mut keys = HashSet::new();
    let hand = combo_index(30, 40);
    for id in 0..tree.public_node_count() {
        if let Some(key) = tree.emitted_key(id, hand) {
            keys.insert(key);
        }
    }
    fn walk(g: &Subgame, s: &SubgameNode, keys: &HashSet<u64>, seen: &mut usize) {
        let gs = s.gs.unwrap();
        if g.is_terminal(s) {
            return;
        }
        *seen += 1;
        assert!(keys.contains(&g.info_key(s)), "history {:?}", s.history);
        if g.pending_continuation(s) {
            return;
        }
        for (a, &act) in legal(&gs).iter().enumerate() {
            walk(g, &g.apply(s, a as u8, apply(&gs, act)), keys, seen);
        }
    }
    let mut seen = 0;
    // Both players hold the hand, in either order, so every actor's key is asked for.
    walk(&game, &SubgameNode::deal(&root, [[40, 30], [30, 40]]), &keys, &mut seen);
    assert_eq!(seen, keys.len());
}

#[test]
fn markers_keep_keys_apart() {
    let b = river_board();
    let hole = [3, 9];
    let plain = info_key(0, hole, &b, &[1], MARKER_NONE);
    assert_eq!(plain, subgame_info_key(0, hole, &b, &[1]));
    let all: HashSet<u64> = [
        plain,
        info_key(0, hole, &b, &[1], MARKER_CONTINUATION),
        info_key(0, hole, &b, &[1], MARKER_GADGET),
        info_key(1, hole, &b, &[1], MARKER_NONE),
        info_key(0, hole, &b, &[1, 0], MARKER_NONE),
        info_key(0, hole, &turn_board(), &[1], MARKER_NONE),
        info_key(0, [3, 10], &b, &[1], MARKER_NONE),
    ]
    .into_iter()
    .collect();
    assert_eq!(all.len(), 7);
}

#[test]
fn keys_hash_the_documented_bytes() {
    // FNV-1a over player, hand, dealt board, separator, history.
    let mut h: u64 = 0xcbf2_9ce4_8422_2325;
    for b in [1u8, 3, 9, 50, 45, 30, 0xFF, 2, 0, 0xFE] {
        h ^= b as u64;
        h = h.wrapping_mul(0x0000_0100_0000_01b3);
    }
    let board = [50, 45, 30, NO_CARD, NO_CARD];
    assert_eq!(info_key(1, [3, 9], &board, &[2, 0], MARKER_CONTINUATION), h);
}

#[test]
fn the_gadget_keeps_hands_that_can_follow() {
    let root = public_root(river_board(), 20, 3);
    let b = river_board();
    let mine = [[make_card(10, 0), make_card(9, 1)], [make_card(8, 0), make_card(8, 1)]];
    let theirs = [
        [make_card(12, 1), make_card(12, 2)], // follows against both
        [b[0], make_card(3, 3)],              // blocked by the board
        [make_card(6, 0), make_card(5, 0)],   // no guarantee carried
        [make_card(8, 1), make_card(10, 0)],  // blocks every hand of ours
        [make_card(8, 0), make_card(2, 0)],   // blocks one of ours
    ];
    let game = GadgetGame::new(&root, &mine, &theirs, &[true, true, false, true, true], 1);
    assert_eq!(game.me(), 1);
    assert_eq!(game.opp(), 0);
    assert_eq!(game.opp_hands(), vec![0, 4]);
    assert_eq!(game.hands[0].deals, vec![0, 1]);
    assert_eq!(game.hands[1].deals, vec![0]);
}

#[test]
fn gadget_is_well_formed_and_zero_sum() {
    let root = public_root(river_board(), 20, 3);
    let mine = [[make_card(8, 0), make_card(8, 1)], [make_card(10, 0), make_card(9, 1)]];
    let theirs = [[make_card(12, 1), make_card(12, 2)], [make_card(6, 0), make_card(5, 0)]];
    let game = GadgetGame::new(&root, &mine, &theirs, &[true, true], 1);
    assert_eq!(game.opp(), 1 - root.current_player());
    assert!(!game.opp_hands().is_empty(), "gadget has opponent choice hands");
    assert!(game.is_chance(&game.root()));
    for &h in &game.opp_hands() {
        let choice = GadgetState::Choice(theirs[h]);
        assert_eq!(game.current_player(&choice), game.opp(), "the opponent chooses");
        assert_eq!(game.num_actions(&choice, 9, 7), 2);
        assert!(!game.is_terminal(&choice) && !game.is_chance(&choice));
        let gone = game.decide(theirs[h], TERMINATE);
        assert!(game.is_terminal(&gone));
        // What one player banks the other pays.
        assert!(game.banks(game.opp()) && !game.banks(game.me()));
        assert!(game.is_chance(&game.decide(theirs[h], FOLLOW)));
        for &d in &game.hands[h].deals {
            let play = game.follow(&root, mine[d], theirs[h]);
            match &play {
                GadgetState::Play(n) => {
                    assert_eq!(n.hole_cards(game.me()), Some(mine[d]));
                    assert_eq!(n.hole_cards(game.opp()), Some(theirs[h]));
                    // Play keys are those of the plain subgame.
                    assert_eq!(game.info_key(&play), game.inner.info_key(n));
                }
                _ => panic!("following leads to play"),
            }
            assert_ne!(game.info_key(&play), game.info_key(&choice));
            assert_eq!(game.num_actions(&play, 3, 7), 3);
            assert_eq!(game.current_player(&play), game.me());
        }
    }
    assert_ne!(
        game.info_key(&GadgetState::Choice(theirs[0])),
        game.info_key(&GadgetState::Choice(theirs[1]))
    );
}

#[test]
fn folds_settle_in_chips() {
    let mut gs = public_root(river_board(), 20, 3);
    gs.total_committed = [10, 4];
    gs.pot = 14;
    assert_eq!(settled(&gs), None, "both are in");
    gs.folded = 2;
    assert_eq!(settled(&gs), Some([4, -4]));
    gs.folded = 1;
    assert_eq!(settled(&gs), Some([-10, 10]));
}

#[test]
fn equities_are_cached_by_cards() {
    let board = visible_board(&public_root(turn_board(), 20, 2));
    assert_eq!(board, turn_board()[..4].to_vec());
    let key = equity_key([3, 9], [20, 7], &board);
    assert_eq!(key, equity_key([9, 3], [7, 20], &board));
    assert_ne!(key, equity_key([20, 7], [3, 9], &board));
    assert_ne!(key, equity_key([3, 9], [20, 7], &board[..3]));
}

#[test]
fn the_first_resolve_bootstraps_and_later_ones_are_constrained() {
    let mut state = ContinualState::new();
    assert_eq!(state.resolve(), ResolveMode::Bootstrap);
    assert_eq!(state.resolve(), ResolveMode::Gadget { warm: true });
    let mut seeded = ContinualState::new().with_cfv();
    assert_eq!(seeded.resolve(), ResolveMode::Gadget { warm: false });
    assert_eq!(by_seat(0, "me", "them"), ["me", "them"]);
    assert_eq!(by_seat(1, "me", "them"), ["them", "me"]);
}

#[test]
fn solvers_are_predictive_unless_told() {
    let solver = SubgameSolver::new(1, 50);
    assert_eq!(solver.kind, SolverKind::Predictive);
    assert_eq!(solver.with_solver(SolverKind::Dcfr).kind, SolverKind::Dcfr);
    assert!(solver.keeps_training(49));
    assert!(!solver.keeps_training(50));
}

#[test]
fn rivers_per_pair_are_44() {
    let gs = public_root(turn_board(), 20, 2);
    let rivers = river_cards(&gs);
    assert_eq!(rivers.len(), 48);
    let (mine, theirs) = (combo_cards(combo_index(1, 2)), combo_cards(combo_index(3, 4)));
    let both = rivers.iter().filter(|&&c| !mine.contains(&c) && !theirs.contains(&c)).count();
    assert_eq!(both, 44);
}
