//! Tracking a real hand in the abstract game.

use poker_ai::engine::{Action, GameState, NO_CARD};
use poker_ai::games::blueprint::BlueprintHoldem;
use poker_ai::play::cards::make_card;
use poker_ai::play::protocol::EventKind;
use poker_ai::play::tracker::{
    bracket, holes_with_placeholder, pad_board, spare_cards, AbstractHand, Candidate, MapOutcome,
    RealMove,
};

/// 200 bb abstract game (bb = 2), raise cap 3, no card abstraction.
fn game() -> BlueprintHoldem {
    BlueprintHoldem::new(400, 2, 1, 0).with_raise_cap(3)
}

/// Blinds 1/2 and stacks of 400: the small blind is to act.
fn opening(holes: [[u8; 2]; 2], board: [u8; 5]) -> GameState {
    GameState {
        street: 0,
        pot: 3,
        current_bet: 2,
        min_raise: 2,
        to_act: 0,
        stacks: [399, 398],
        street_bets: [1, 2],
        total_committed: [1, 2],
        hole_cards: holes,
        board,
        folded: 0,
        allin: 0,
        players_to_act: 2,
        last_aggressor: 1,
        visible: 0,
        terminal: false,
    }
}

/// A small engine: call, two raise sizes, or all the chips.
fn legal(gs: &GameState) -> Vec<Action> {
    let me = gs.to_act as usize;
    let to_call = gs.current_bet - gs.street_bets[me];
    let mut acts = Vec::new();
    if to_call > 0 {
        acts.push(Action::Fold);
        if gs.stacks[me] > to_call {
            acts.push(Action::Call);
        } else {
            acts.push(Action::AllIn);
            return acts;
        }
    } else {
        acts.push(Action::Check);
    }
    if gs.allin == 0 {
        let pot = gs.pot + gs.current_bet;
        for level in [gs.current_bet + pot * 2 / 5, gs.current_bet + pot] {
            if level < gs.street_bets[me] + gs.stacks[me] {
                acts.push(Action::Raise(level));
            }
        }
        acts.push(Action::AllIn);
    }
    acts
}

fn step(gs: &GameState, act: Action) -> GameState {
    let mut next = *gs;
    let me = gs.to_act as usize;
    let put = match act {
        Action::Fold => {
            next.folded |= 1 << me;
            next.terminal = true;
            return next;
        }
        Action::Check => 0,
        Action::Call => gs.current_bet - gs.street_bets[me],
        Action::Raise(level) => level - gs.street_bets[me],
        Action::AllIn => gs.stacks[me],
    };
    next.stacks[me] -= put;
    next.street_bets[me] += put;
    next.total_committed[me] += put;
    next.pot += put;
    if next.stacks[me] == 0 {
        next.allin |= 1 << me;
    }
    let raised = next.street_bets[me] > gs.current_bet;
    if raised {
        next.current_bet = next.street_bets[me];
        next.last_aggressor = me as u8;
    }
    next.players_to_act = if raised { 1 } else { gs.players_to_act - 1 };
    next.to_act = 1 - gs.to_act;
    if next.players_to_act == 0 {
        if next.allin != 0 || next.street == 3 {
            next.terminal = true;
            next.visible = 5;
        } else {
            next.street += 1;
            next.visible = next.street + 2;
            next.street_bets = [0, 0];
            next.current_bet = 0;
            next.to_act = 1;
            next.players_to_act = 2;
        }
    }
    next
}

/// We are the small blind with ace-king suited.
fn hand() -> AbstractHand {
    let ours = [make_card(12, 0), make_card(11, 0)];
    let holes = holes_with_placeholder(0, ours, &[NO_CARD; 5]);
    AbstractHand::new(holes, opening(holes, [NO_CARD; 5]))
}

fn actions(h: &AbstractHand) -> Vec<Action> {
    h.actions(&game(), &legal(h.gs()))
}

fn place(h: &AbstractHand, wanted: impl Fn(&Action) -> bool) -> Option<u8> {
    actions(h).iter().position(wanted).map(|i| i as u8)
}

fn play(h: &mut AbstractHand, index: u8) {
    let next = step(h.gs(), actions(h)[index as usize]);
    h.apply(index, next);
}

fn reveal_board(h: &mut AbstractHand, board: &[u8]) {
    h.set_board(board, 0);
    let first = opening(h.holes, h.board);
    let mut node = game().play_state(first);
    let mut after = Vec::new();
    for &i in &h.state.history {
        let gs = *game().game_state(&node);
        let act = game().actions(&node, &legal(&gs))[i as usize];
        let next = step(&gs, act);
        node = game().apply(&node, i, next);
        after.push(next);
    }
    h.replayed(first, &after);
    assert_eq!(h.state.street_raises, node.street_raises);
}

/// A stand-in for the card abstraction: class and raw index of a hand.
fn lookup(hole: [u8; 2], board: &[u8]) -> (u64, u64) {
    let (lo, hi) = (hole[0].min(hole[1]) as u64, hole[0].max(hole[1]) as u64);
    let class = lo * 64 + hi;
    (class, board.iter().fold(class, |acc, &c| acc * 64 + c as u64))
}

fn key_with(h: &AbstractHand, hole: [u8; 2]) -> u64 {
    let gs = h.gs();
    let (class, raw) = lookup(hole, &gs.board[..gs.board_cards_count()]);
    h.key_with_hole(&game(), class, None, raw)
}

fn own_key(h: &AbstractHand) -> u64 {
    let gs = h.gs();
    let hole = gs.hole_cards[gs.current_player()];
    let (class, raw) = lookup(hole, &gs.board[..gs.board_cards_count()]);
    h.info_key(&game(), class, None, raw)
}

/// The fraction of the pot that a bet comes to, called chips included.
fn fraction(to: f64, bet: f64, pot: f64) -> f64 {
    (to - bet) / (pot + bet)
}

/// Translate a real bet as an agent does: the lower neighbour with the
/// pseudo-harmonic probability.
fn map(h: &AbstractHand, menu: &[Action], kind: EventKind, pot: u32, bet: u32, draw: f64) -> MapOutcome {
    let EventKind::BetTo(to) = kind else {
        return h.map_real(menu, kind, pot, bet, false);
    };
    let cands = h.bet_candidates(menu);
    let below = cands.len() > 1 && {
        let gs = h.gs();
        let share =
            |c: &Candidate| fraction(c.level as f64, gs.current_bet as f64, gs.pot as f64);
        let x = fraction(to as f64, bet as f64, pot as f64);
        let (lo, hi) = h.bet_bracket(&cands, to, pot, bet);
        let (a, b) = (share(&cands[lo]), share(&cands[hi]));
        let weight = if b > a { ((b - x) * (1.0 + a)) / ((b - a) * (1.0 + x)) } else { 1.0 };
        draw < weight
    };
    h.map_real(menu, kind, pot, bet, below)
}

#[test]
fn tracks_streets_and_actors_through_a_scripted_hand() {
    let mut h = hand();
    assert!(h.expects(0, 0), "SB (engine seat 0) opens preflop");

    // SB raises (some aggressive index), BB calls, flop comes.
    let raise = place(&h, |a| matches!(a, Action::Raise(_))).unwrap();
    play(&mut h, raise);
    assert!(h.expects(1, 0), "BB to act facing the raise");
    let call = place(&h, |a| matches!(a, Action::Call)).unwrap();
    play(&mut h, call);

    let flop = [make_card(7, 2), make_card(2, 3), make_card(0, 0)];
    reveal_board(&mut h, &flop);
    assert!(h.expects(1, 1), "BB first to act on the flop");
    assert!(!h.expects(0, 1));
    assert!(!h.expects(1, 0), "street guard rejects stale events");
    assert!(!h.is_terminal());
    assert_eq!(h.state.history, vec![raise, call]);
    assert_eq!(h.board, pad_board(&flop));
    assert_eq!(h.holes[0], [make_card(12, 0), make_card(11, 0)]);
}

#[test]
fn board_rebuild_preserves_the_replayed_key() {
    // Replaying the same history after a board patch must key identically to a
    // hand built with the full board up front.
    let mut incremental = hand();
    let raise = place(&incremental, |a| matches!(a, Action::Raise(_))).unwrap();
    play(&mut incremental, raise);
    let call = place(&incremental, |a| matches!(a, Action::Call)).unwrap();
    play(&mut incremental, call);
    let flop = [make_card(7, 2), make_card(2, 3), make_card(0, 0)];
    reveal_board(&mut incremental, &flop);

    let mut upfront = hand();
    reveal_board(&mut upfront, &flop);
    play(&mut upfront, raise);
    play(&mut upfront, call);

    assert_eq!(own_key(&incremental), own_key(&upfront));
    let fives = [make_card(5, 1), make_card(5, 2)];
    assert_eq!(key_with(&incremental, fives), key_with(&upfront, fives));
    // Another hand has another key.
    assert_ne!(key_with(&incremental, fives), key_with(&incremental, [make_card(5, 1), make_card(6, 2)]));
}

#[test]
fn real_bets_map_pseudo_harmonically_never_passively() {
    let h = hand();
    // Real: SB opens to 250 into blinds 50/100.
    // Fraction = (250 - 100) / (150 + 100) = 0.6.
    let acts = actions(&h);
    let MapOutcome::Index(i) = map(&h, &acts, EventKind::BetTo(250), 150, 100, 0.0) else {
        panic!("bet must map")
    };
    assert!(
        matches!(acts[i as usize], Action::Raise(_)),
        "an opening raise maps to an abstract raise, got {:?}",
        acts[i as usize]
    );

    // A min-bet never maps to a passive action (the desync trap).
    let MapOutcome::Index(i) = map(&h, &acts, EventKind::BetTo(200), 150, 100, 0.5) else {
        panic!("min-bet must map")
    };
    assert!(matches!(acts[i as usize], Action::Raise(_) | Action::AllIn));

    // A shove maps to the all-in end of the menu.
    let MapOutcome::Index(i) = map(&h, &acts, EventKind::BetTo(20_000), 150, 100, 0.999) else {
        panic!("shove must map")
    };
    assert!(matches!(acts[i as usize], Action::AllIn));
}

#[test]
fn mapping_is_deterministic_at_exact_abstract_sizes() {
    // A real bet whose fraction equals an abstract size maps to it with
    // probability 1 regardless of the random draw.
    let h = hand();
    let acts = actions(&h);
    let (pot, cb) = (h.gs().pot as f64, h.gs().current_bet as f64);
    for (i, &a) in acts.iter().enumerate() {
        let Action::Raise(level) = a else { continue };
        // The same fraction in real chips (pot 150, bet 100).
        let real_to = 100.0 + fraction(level as f64, cb, pot) * 250.0;
        for draw in [0.0, 0.5, 0.999_999] {
            let m = map(&h, &acts, EventKind::BetTo(real_to.round() as u32), 150, 100, draw);
            assert_eq!(m, MapOutcome::Index(i as u8), "exact size at draw {draw}");
        }
    }
}

#[test]
fn cap_overflow_maps_to_call_and_reports_none_after() {
    let mut h = hand();
    // Drive the preflop to the cap: raise, reraise, reraise (3 = cap).
    for _ in 0..3 {
        let i = place(&h, |a| matches!(a, Action::Raise(_)))
            .unwrap_or_else(|| place(&h, |a| matches!(a, Action::AllIn)).unwrap());
        play(&mut h, i);
    }
    // At the cap no sized raise remains; a further real raise maps to Call or
    // the all-in.
    let acts = actions(&h);
    assert!(acts.iter().all(|a| !matches!(a, Action::Raise(_))), "cap reached");
    let m = map(&h, &acts, EventKind::BetTo(5_000), 3_000, 2_000, 0.5);
    let MapOutcome::Index(i) = m else { panic!("cap overflow maps to the passive close") };
    assert!(matches!(acts[i as usize], Action::Call | Action::AllIn));
    // On a passive menu it is the call, and with nothing to land on it is
    // skipped.
    let passive = [Action::Fold, Action::Call];
    assert_eq!(
        map(&h, &passive, EventKind::BetTo(5_000), 3_000, 2_000, 0.5),
        MapOutcome::Index(1)
    );
    assert_eq!(
        map(&h, &[Action::Fold], EventKind::BetTo(5_000), 3_000, 2_000, 0.5),
        MapOutcome::Skip
    );
}

/// The size that an abstract raise comes to by pot fraction.
fn wish(h: &AbstractHand, level: u32, real_pot: f64, real_bet: f64) -> i64 {
    let frac = fraction(level as f64, h.gs().current_bet as f64, h.gs().pot as f64);
    (frac * (real_pot + real_bet)).round() as i64
}

#[test]
fn abstract_raise_translates_to_a_legal_real_size() {
    let h = hand();
    let acts = actions(&h);
    let raise = acts.iter().find(|a| matches!(a, Action::Raise(_))).copied().unwrap();
    let Action::Raise(level) = raise else { panic!("a raise") };
    // Real preflop: pot 150, outstanding 100, min raise 100, remaining 19900.
    let m = h.abstract_to_real(raise, wish(&h, level, 150.0, 100.0), 100, true, 100, 19_900);
    let RealMove::BetTo(to) = m else { panic!("raise stays a raise") };
    assert!(to >= 200, "at least a min-raise, got {to}");
    assert!(to <= 20_000, "never beyond the stack");

    // Passive and fold translations respect the real context.
    assert_eq!(h.abstract_to_real(Action::Fold, 0, 100, true, 100, 19_900), RealMove::Fold);
    assert_eq!(h.abstract_to_real(Action::Call, 0, 100, true, 100, 19_900), RealMove::Call);
    assert_eq!(
        h.abstract_to_real(Action::Fold, 0, 0, false, 0, 19_900),
        RealMove::Check,
        "no bet to fold to"
    );
    // All-in translates to the full remaining size.
    assert_eq!(
        h.abstract_to_real(Action::AllIn, 0, 100, true, 100, 19_900),
        RealMove::BetTo(20_000)
    );
}

#[test]
fn wished_sizes_are_clamped() {
    let h = hand();
    let bet = |wished: i64| h.abstract_to_real(Action::Raise(4), wished, 100, true, 100, 19_900);
    assert_eq!(bet(7), RealMove::BetTo(200));
    assert_eq!(bet(-5), RealMove::BetTo(200));
    assert_eq!(bet(333), RealMove::BetTo(433));
    assert_eq!(bet(50_000), RealMove::BetTo(20_000));
    assert_eq!(bet(1 << 32), RealMove::BetTo(20_000), "no size is too large to clamp");
    assert_eq!(bet(i64::MAX), RealMove::BetTo(20_000));
    assert_eq!(bet(i64::MIN), RealMove::BetTo(200));
}

#[test]
fn passive_events_prefer_their_own_kind() {
    let h = hand();
    let by = |acts: &[Action], kind: EventKind| h.map_real(acts, kind, 150, 100, false);
    assert_eq!(by(&[Action::Fold, Action::Call], EventKind::Check), MapOutcome::Index(1));
    assert_eq!(by(&[Action::Check], EventKind::Call), MapOutcome::Index(0));
    assert_eq!(by(&[Action::Check], EventKind::Fold), MapOutcome::Skip);
    assert_eq!(by(&[Action::Fold, Action::Call], EventKind::Fold), MapOutcome::Index(0));
}

#[test]
fn bets_land_beside_their_pot_fraction() {
    // Abstract pot 3 with 2 to call: fractions 2/5 and 5/5, and the all-in.
    let h = hand();
    let menu = [Action::Fold, Action::Call, Action::Raise(4), Action::Raise(7), Action::AllIn];
    let cands = h.bet_candidates(&menu);
    assert_eq!(cands.iter().map(|c| (c.index, c.level)).collect::<Vec<_>>(), [(2, 4), (3, 7), (4, 400)]);
    // Real pot 150 with 100 to call: 200 is exactly 2/5, 350 exactly 5/5.
    assert_eq!(h.bet_bracket(&cands, 150, 150, 100), (0, 0));
    assert_eq!(h.bet_bracket(&cands, 200, 150, 100), (0, 0));
    assert_eq!(h.bet_bracket(&cands, 201, 150, 100), (0, 1));
    assert_eq!(h.bet_bracket(&cands, 350, 150, 100), (0, 1));
    assert_eq!(h.bet_bracket(&cands, 351, 150, 100), (1, 2));
    assert_eq!(h.bet_bracket(&cands, u32::MAX, 150, 100), (2, 2));
    let at = |to: u32, below: bool| h.map_real(&menu, EventKind::BetTo(to), 150, 100, below);
    for below in [false, true] {
        assert_eq!(at(200, below), MapOutcome::Index(2), "an exact size, whatever is drawn");
        assert_eq!(at(350, below), MapOutcome::Index(3), "an exact size, whatever is drawn");
        assert_eq!(at(u32::MAX, below), MapOutcome::Index(4));
    }
    assert_eq!(at(300, true), MapOutcome::Index(2));
    assert_eq!(at(300, false), MapOutcome::Index(3));
    // A menu with one size has nothing to draw.
    let one = [Action::Fold, Action::Call, Action::Raise(7)];
    assert_eq!(h.map_real(&one, EventKind::BetTo(201), 150, 100, true), MapOutcome::Index(2));
}

#[test]
fn no_bet_is_taken_for_a_passive_action() {
    let h = hand();
    let menu = [Action::Fold, Action::Call, Action::Raise(4), Action::Raise(7), Action::AllIn];
    for to in [0, 100, 101, 200, 275, 350, 9_999, 20_000, u32::MAX] {
        for below in [false, true] {
            let MapOutcome::Index(i) = h.map_real(&menu, EventKind::BetTo(to), 150, 100, below) else {
                panic!("a bet to {to} maps")
            };
            assert!(matches!(menu[i as usize], Action::Raise(_) | Action::AllIn), "a bet to {to}");
        }
    }
}

#[test]
fn brackets_are_neighbours() {
    assert_eq!(bracket(3, Some(0)), (0, 0));
    assert_eq!(bracket(3, Some(2)), (1, 2));
    assert_eq!(bracket(3, None), (2, 2));
}

#[test]
fn placeholders_are_the_lowest_spare_cards() {
    assert_eq!(spare_cards(&[]), [0, 1]);
    assert_eq!(spare_cards(&[0, 2, 3, NO_CARD]), [1, 4]);
    let holes = holes_with_placeholder(1, [0, 1], &[2, 3, 4, NO_CARD, NO_CARD]);
    assert_eq!(holes, [[5, 6], [0, 1]]);
}

#[test]
fn moves_have_their_wire_text() {
    assert_eq!(RealMove::Fold.to_incr(), "f");
    assert_eq!(RealMove::Check.to_incr(), "k");
    assert_eq!(RealMove::Call.to_incr(), "c");
    assert_eq!(RealMove::BetTo(1250).to_incr(), "b1250");
}
