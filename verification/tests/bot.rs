//! The playing agent's decisions.

use poker_ai::engine::{Action, GameState, NO_CARD};
use poker_ai::games::blueprint::BlueprintHoldem;
use poker_ai::play::bot::{
    blueprint_move, call_price, check_turn, desynced_move, fallback_regime, opening_holes,
    range_plan, regime, resolve_root, resolved_move, root_key, BotConfig, HandState, HandUpdate,
    Observed, Price, Regime, SolverMode,
};
use poker_ai::play::cards::parse_card;
use poker_ai::play::equity::{next_unit, seeded};
use poker_ai::play::protocol::{
    parse_action, Event, EventKind, Parsed, BIG_BLIND, STACK_SIZE,
};
use poker_ai::play::tracker::{MapOutcome, RealMove};
use poker_ai::resolving::belief_state::{combo_cards, combo_index, surviving_combos, NUM_COMBOS};
use poker_ai::resolving::vector_cfr::keys::subgame_info_key;

fn cards(texts: &[&str]) -> Vec<u8> {
    texts.iter().map(|t| parse_card(t).unwrap()).collect()
}

fn abstract_state(street: u8, to_act: u8) -> GameState {
    GameState {
        street,
        pot: 3,
        current_bet: 2,
        min_raise: 2,
        to_act,
        stacks: [399, 398],
        street_bets: [1, 2],
        total_committed: [1, 2],
        hole_cards: [[48, 44], [0, 1]],
        board: [NO_CARD; 5],
        folded: 0,
        allin: 0,
        players_to_act: 2,
        last_aggressor: 1,
        visible: if street == 0 { 0 } else { street + 2 },
        terminal: false,
    }
}

fn start(pos: u8) -> HandState {
    HandState::start_hand(pos, [48, 44], abstract_state(0, 0))
}

#[test]
fn streets_resolve_on_their_own_boards_only() {
    let cfg = BotConfig::default();
    let board = [0u8, 1, 2, 3, 4];
    for street in 0..4u8 {
        for len in 0..=5usize {
            let want = (street, len) == (1, 3) || (street, len) == (2, 4) || (street, len) == (3, 5);
            assert_eq!(cfg.should_resolve(street, &board[..len]), want, "street {street}, {len} cards");
        }
    }
    let off = BotConfig { resolve_turn: false, ..cfg };
    assert!(!off.should_resolve(2, &board[..4]));
    assert!(off.should_resolve(3, &board));
}

#[test]
fn solvers_fit_the_board() {
    let cfg = BotConfig::default();
    let board = [0u8, 1, 2, 3, 4];
    assert_eq!(cfg.solver_plan(&board), (SolverMode::River, 1500));
    assert_eq!(cfg.solver_plan(&board[..4]), (SolverMode::Cut, 500));
    assert_eq!(cfg.solver_plan(&board[..3]), (SolverMode::Cut, 500));
    let full = BotConfig { turn_full_river: true, ..cfg };
    assert_eq!(full.solver_plan(&board[..4]), (SolverMode::FullRiver, 500));
    assert_eq!(full.solver_plan(&board[..3]), (SolverMode::Cut, 500));
}

#[test]
fn events_are_consumed_once_and_own_echoes_skipped() {
    let mut hs = start(1);
    let parsed = parse_action("b200b600").unwrap();
    hs.decided(Some(MapOutcome::Index(2)));
    assert_eq!(hs.pending_self, Some(Some(2)));
    let ours = hs.next_event(&parsed).unwrap();
    assert_eq!(hs.consume(ours), Observed::Echo);
    assert_eq!(hs.pending_self, None);
    hs.hand.apply(2, abstract_state(0, 1));
    let theirs = hs.next_event(&parsed).unwrap();
    assert_eq!(theirs.kind, EventKind::BetTo(600));
    assert_eq!(hs.consume(theirs), Observed::Translate(1));
    assert!(hs.next_event(&parsed).is_none());
    assert_eq!(hs.processed, 2);
}

#[test]
fn events_without_a_node_are_left_out() {
    let mut hs = start(1);
    let late = Event { street: 1, pos: 0, kind: EventKind::Check, pot_before: 200, bet_before: 0 };
    assert_eq!(hs.consume(late), Observed::Unexpected);
    // Our own action observed without having been decided here is translated.
    let own = Event { street: 0, pos: 1, kind: EventKind::Call, pot_before: 150, bet_before: 100 };
    assert_eq!(hs.consume(own), Observed::Translate(0));
    hs.decided(None);
    assert_eq!(hs.pending_self, Some(None));
    hs.decided(Some(MapOutcome::Skip));
    assert_eq!(hs.pending_self, Some(None));
}

#[test]
fn boards_are_noted_when_they_grow() {
    let mut hs = start(0);
    assert!(!hs.see_board(&[]));
    assert!(hs.see_board(&[0, 1, 2]));
    assert_eq!(hs.board_seen, 3);
    assert_eq!(hs.hand.board, [0, 1, 2, NO_CARD, NO_CARD]);
    assert_eq!(hs.hand.holes[1], [48, 44]);
    assert_eq!(hs.hand.holes[0], [3, 4], "the placeholder avoids the board");
    assert!(!hs.see_board(&[0, 1, 2]));
}

#[test]
fn acting_out_of_turn_is_an_error() {
    let parsed = parse_action("b200").unwrap();
    assert_eq!(
        check_turn(&parsed, 1),
        Err("act() called but next to act is 0 (we are 1)".to_string())
    );
    assert_eq!(check_turn(&parsed, 0), Ok(()));
    let over = parse_action("b200f").unwrap();
    assert_eq!(
        check_turn(&over, 0),
        Err("act() called but next to act is -1 (we are 0)".to_string())
    );
}

#[test]
fn decisions_go_to_their_regime() {
    let cfg = BotConfig::default();
    let mut hs = start(1);
    let parsed = parse_action("").unwrap();
    assert_eq!(regime(&cfg, &hs, &parsed, &[]), Ok(Regime::Blueprint));
    hs.hand.apply(1, abstract_state(0, 1));
    assert_eq!(regime(&cfg, &hs, &parsed, &[]), Ok(Regime::Desynced));
    assert_eq!(fallback_regime(&hs, &parsed), Regime::Desynced);
    let flop = parse_action("ck/k").unwrap();
    assert_eq!(regime(&cfg, &hs, &flop, &[0, 1, 2]), Ok(Regime::Resolve));
    assert!(regime(&cfg, &hs, &parse_action("ck/").unwrap(), &[0, 1, 2]).is_err());
}

#[test]
fn a_desynced_bot_never_raises() {
    // The opponent shoves 13250 into 26750 on the flop.
    let parsed = parse_action("b250b750b1657b6750c/b13250").unwrap();
    let price = call_price(&parsed, 1);
    assert_eq!(price, Some(Price { to_call: 13_250, pot: 26_750 }));
    assert_eq!(desynced_move(price, true), RealMove::Call);
    assert_eq!(desynced_move(price, false), RealMove::Fold);
    let free = parse_action("ck/").unwrap();
    assert_eq!(call_price(&free, 0), None);
    assert_eq!(desynced_move(None, false), RealMove::Check);
}

fn is_legal(action: &str, mv: RealMove) -> bool {
    parse_action(&format!("{action}{}", mv.to_incr())).is_ok()
}

#[test]
fn blueprint_moves_are_always_legal() {
    let acts = [Action::Fold, Action::Check, Action::Call, Action::Raise(6), Action::AllIn];
    for action in ["", "c", "b200", "b200b600", "b200c/", "b200c/k", "b200c/kb400", "b20000"] {
        let parsed: Parsed = parse_action(action).unwrap();
        for act in acts {
            if parsed.total_last_bet_to == 20_000 && matches!(act, Action::Raise(_)) {
                continue;
            }
            for wished in [-1i64, 0, 150, 1_000, 1_000_000, 1 << 32, i64::MAX] {
                let mv = blueprint_move(&parsed, &start(1).hand, act, wished);
                assert!(is_legal(action, mv), "{act:?} wishing {wished} after {action:?} became {mv:?}");
            }
        }
    }
}

#[test]
fn the_resolve_root_is_the_real_state() {
    let board = cards(&["2c", "7h", "9s", "Kd", "3c"]);
    let mut hs = start(1);
    hs.my_hole = [parse_card("Ac").unwrap(), parse_card("Ad").unwrap()];
    let parsed = parse_action("b300c/kk/b500c/b700").unwrap();
    let root = resolve_root(&hs, &parsed, &board);
    assert_eq!(root.street, 3);
    assert_eq!(root.pot, 2300);
    assert_eq!(root.total_committed, [800, 1500]);
    assert_eq!(root.stacks, [19_200, 18_500]);
    assert_eq!(root.street_bets, [0, 700]);
    assert_eq!(root.current_bet, 700);
    assert_eq!(root.min_raise, 700);
    assert_eq!(root.to_act, 0);
    assert_eq!(root.players_to_act, 1);
    assert_eq!(root.last_aggressor, 1);
    assert_eq!(root.allin, 0);
    assert_eq!(root.visible, 5);
    assert_eq!(root.hole_cards[0], hs.my_hole);
    assert_eq!(root.hole_cards[1], [1, 2], "placeholders off the board");
    assert_eq!(&root.board[..], &board[..]);

    // A fresh street has both to act; a shove leaves the shover all-in.
    let bb = start(0);
    let fresh = resolve_root(&bb, &parse_action("ck/").unwrap(), &board[..3]);
    assert_eq!(fresh.players_to_act, 2);
    assert_eq!(fresh.min_raise, 100);
    assert_eq!(fresh.last_aggressor, 1, "nobody bet: the actor");
    assert_eq!(fresh.board[3], NO_CARD);
    let shoved = resolve_root(&start(1), &parse_action("ck/b19900").unwrap(), &board[..3]);
    assert_eq!(shoved.allin, 2);
}

#[test]
fn resolved_actions_are_played_in_real_chips() {
    let hs = start(1);
    let action = "b300c/kk/b500c/b700";
    let parsed = parse_action(action).unwrap();
    let root = resolve_root(&hs, &parsed, &[0, 1, 2, 3, 4]);
    assert_eq!(resolved_move(&root, 0, Action::Raise(1400), true), RealMove::BetTo(1400));
    let shove = resolved_move(&root, 0, Action::AllIn, true);
    assert_eq!(shove, RealMove::BetTo(19_200));
    assert!(is_legal(action, shove));
    // Facing a shove, an all-in is a call.
    let facing = "b300c/kk/b500c/b19200";
    let root = resolve_root(&hs, &parse_action(facing).unwrap(), &[0, 1, 2, 3, 4]);
    let call = resolved_move(&root, 0, Action::AllIn, true);
    assert_eq!(call, RealMove::Call);
    assert!(is_legal(facing, call));
    assert_eq!(resolved_move(&root, 0, Action::Fold, true), RealMove::Fold);
}

#[test]
fn root_keys_are_the_solvers_own() {
    let board = [5u8, 9, 13];
    let padded = [5u8, 9, 13, NO_CARD, NO_CARD];
    assert_eq!(root_key(1, [40, 3], &board), subgame_info_key(1, [3, 40], &padded, &[]));
}

#[test]
fn opponents_start_with_placeholders() {
    assert_eq!(opening_holes(0, [0, 5]), [[0, 5], [1, 2]]);
    let hs = start(0);
    assert_eq!(hs.my_seat, 1);
    assert_eq!(hs.hand.holes[1], [48, 44]);
}

/// Blinds 1/2 and stacks of 400.
fn first_state(holes: [[u8; 2]; 2], board: [u8; 5]) -> GameState {
    GameState { hole_cards: holes, board, ..abstract_state(0, 0) }
}

/// A small engine: call, two raise sizes, or all the chips.
fn legal(gs: &GameState) -> Vec<Action> {
    let me = gs.to_act as usize;
    let to_call = gs.current_bet - gs.street_bets[me];
    let mut acts = Vec::new();
    if to_call > 0 {
        acts.push(Action::Fold);
        if gs.stacks[me] > to_call {
            acts.push(Action::Call);
        } else {
            acts.push(Action::AllIn);
            return acts;
        }
    } else {
        acts.push(Action::Check);
    }
    if gs.allin == 0 {
        let pot = gs.pot + gs.current_bet;
        for level in [gs.current_bet + pot / 2, gs.current_bet + pot] {
            if level < gs.street_bets[me] + gs.stacks[me] {
                acts.push(Action::Raise(level));
            }
        }
        acts.push(Action::AllIn);
    }
    acts
}

fn step(gs: &GameState, act: Action) -> GameState {
    let mut next = *gs;
    let me = gs.to_act as usize;
    let put = match act {
        Action::Fold => {
            next.folded |= 1 << me;
            next.terminal = true;
            return next;
        }
        Action::Check => 0,
        Action::Call => gs.current_bet - gs.street_bets[me],
        Action::Raise(level) => level - gs.street_bets[me],
        Action::AllIn => gs.stacks[me],
    };
    next.stacks[me] -= put;
    next.street_bets[me] += put;
    next.total_committed[me] += put;
    next.pot += put;
    if next.stacks[me] == 0 {
        next.allin |= 1 << me;
    }
    let raised = next.street_bets[me] > gs.current_bet;
    if raised {
        next.current_bet = next.street_bets[me];
        next.last_aggressor = me as u8;
    }
    next.players_to_act = if raised { 1 } else { gs.players_to_act - 1 };
    next.to_act = 1 - gs.to_act;
    if next.players_to_act == 0 {
        if next.allin != 0 || next.street == 3 {
            next.terminal = true;
            next.visible = 5;
        } else {
            next.street += 1;
            next.visible = next.street + 2;
            next.street_bets = [0, 0];
            next.current_bet = 0;
            next.to_act = 1;
            next.players_to_act = 2;
        }
    }
    next
}

/// An agent that plays every abstract menu uniformly.
struct Agent {
    game: BlueprintHoldem,
    cfg: BotConfig,
    rng: u64,
}

impl Agent {
    fn new() -> Agent {
        Agent {
            game: BlueprintHoldem::new(400, 2, 1, 0).with_raise_cap(3),
            cfg: BotConfig {
                resolve_river: false,
                resolve_turn: false,
                resolve_flop: false,
                ..BotConfig::default()
            },
            rng: seeded(42),
        }
    }

    fn unit(&mut self) -> f64 {
        next_unit(&mut self.rng) as f64 / (1u64 << 53) as f64
    }

    fn start_hand(&self, pos: u8, hole: [u8; 2]) -> HandState {
        let holes = opening_holes(1 - pos as usize, hole);
        HandState::start_hand(pos, hole, first_state(holes, [NO_CARD; 5]))
    }

    fn menu(&self, hs: &HandState) -> Vec<Action> {
        hs.hand.actions(&self.game, &legal(hs.hand.gs()))
    }

    fn advance(&self, hs: &mut HandState, index: u8) {
        let next = step(hs.hand.gs(), self.menu(hs)[index as usize]);
        hs.hand.apply(index, next);
    }

    fn map_real(&mut self, hs: &HandState, ev: Event) -> MapOutcome {
        let menu = self.menu(hs);
        let (pot, bet) = (ev.pot_before, ev.bet_before);
        let below = match ev.kind {
            EventKind::BetTo(to) => {
                let cands = hs.hand.bet_candidates(&menu);
                cands.len() > 1 && {
                    let gs = hs.hand.gs();
                    let (p, cb) = (gs.pot as f64, gs.current_bet as f64);
                    let share = |level: u32| (level as f64 - cb) / (p + cb);
                    let x = (to as f64 - bet as f64) / (pot as f64 + bet as f64);
                    let (lo, hi) = hs.hand.bet_bracket(&cands, to, pot, bet);
                    let (a, b) = (share(cands[lo].level), share(cands[hi].level));
                    let weight =
                        if b > a { ((b - x) * (1.0 + a)) / ((b - a) * (1.0 + x)) } else { 1.0 };
                    self.unit() < weight
                }
            }
            _ => false,
        };
        hs.hand.map_real(&menu, ev.kind, pot, bet, below)
    }

    fn sync(&mut self, hs: &mut HandState, parsed: &Parsed, board: &[u8]) {
        if hs.see_board(board) {
            let opening = first_state(hs.hand.holes, hs.hand.board);
            let mut node = self.game.play_state(opening);
            let mut after = Vec::new();
            for &i in &hs.hand.state.history {
                let gs = *self.game.game_state(&node);
                let next = step(&gs, self.game.actions(&node, &legal(&gs))[i as usize]);
                node = self.game.apply(&node, i, next);
                after.push(next);
            }
            hs.hand.replayed(opening, &after);
        }
        while let Some(ev) = hs.next_event(parsed) {
            if let Observed::Translate(_) = hs.consume(ev) {
                if let MapOutcome::Index(i) = self.map_real(hs, ev) {
                    self.advance(hs, i);
                }
            }
        }
    }

    fn act(&mut self, hs: &mut HandState, action: &str, board: &[u8]) -> Result<String, String> {
        let parsed = parse_action(action).unwrap();
        self.sync(hs, &parsed, board);
        let mv = match regime(&self.cfg, hs, &parsed, board)? {
            Regime::Blueprint => {
                let menu = self.menu(hs);
                let i = ((self.unit() * menu.len() as f64) as usize).min(menu.len() - 1);
                let wished = match menu[i] {
                    Action::Raise(level) => {
                        let gs = hs.hand.gs();
                        let (p, cb) = (gs.pot as f64, gs.current_bet as f64);
                        let real = parsed.pot() as f64 + parsed.street_last_bet_to as f64;
                        ((level as f64 - cb) / (p + cb) * real).round() as i64
                    }
                    _ => 0,
                };
                let mv = blueprint_move(&parsed, &hs.hand, menu[i], wished);
                self.advance(hs, i as u8);
                hs.decided(Some(MapOutcome::Index(i as u8)));
                mv
            }
            _ => {
                hs.decided(None);
                let worth = self.unit() < 0.5;
                desynced_move(call_price(&parsed, hs.my_pos), worth)
            }
        };
        Ok(mv.to_incr())
    }
}

/// Drive the agent through whole hands against a random opponent: every emitted
/// increment is legal per the protocol parser.
fn play_random_hands() {
    let mut b = Agent::new();
    let mut rng = 0xBADC_0FFEu64;
    let mut unit = move || next_unit(&mut rng) as f64 / (1u64 << 53) as f64;
    let full_board = cards(&["Qs", "4s", "3h", "Th", "8c"]);
    for hand_no in 0..40u32 {
        let client_pos = (hand_no % 2) as u8;
        let hole = if hand_no % 3 == 0 {
            [parse_card("Ac").unwrap(), parse_card("Kd").unwrap()]
        } else {
            [parse_card("7h").unwrap(), parse_card("2c").unwrap()]
        };
        let mut hs = b.start_hand(client_pos, hole);
        let mut action = String::new();
        loop {
            let parsed = parse_action(&action).expect("running action string stays legal");
            if parsed.next_pos < 0 {
                break; // hand over
            }
            let street = parsed.street as usize;
            let board = &full_board[..[0usize, 3, 4, 5][street]];
            let before_street = parsed.street;
            if parsed.next_pos == hs.my_pos as i8 {
                let incr = b.act(&mut hs, &action, board).expect("bot acts");
                action.push_str(&incr);
            } else {
                let facing = parsed.last_bet_size > 0;
                let remaining = STACK_SIZE - parsed.total_last_bet_to;
                let choice = unit();
                let mv = if facing {
                    if choice < 0.55 {
                        "c".to_string()
                    } else if choice < 0.7 && remaining > 0 {
                        let min = parsed.last_bet_size.max(BIG_BLIND).min(remaining);
                        let more = (remaining as f64 * unit() * 0.4) as u32;
                        format!("b{}", parsed.street_last_bet_to + min.max(more).min(remaining))
                    } else {
                        "f".to_string()
                    }
                } else if choice < 0.6 || remaining == 0 {
                    "k".to_string()
                } else {
                    let min = BIG_BLIND.min(remaining);
                    let more = (remaining as f64 * unit() * 0.3) as u32;
                    format!("b{}", parsed.street_last_bet_to + min.max(more).min(remaining))
                };
                action.push_str(&mv);
            }
            // Close a finished street with the slash that the server inserts.
            let reparsed = parse_action(&action).expect("every appended move stays legal");
            if reparsed.next_pos >= 0 && reparsed.street > before_street && !action.ends_with('/') {
                action.push('/');
            }
        }
    }
}

#[test]
fn bot_emits_legal_increments_over_random_hands() {
    play_random_hands();
}

#[test]
fn tests_emits_legal_increments_over_random_hands() {
    play_random_hands();
}

/// A preflop raise war does not desync: the all-in survives the cap, so the
/// opponent's 5-bet maps onto it and the tracker keeps up.
#[test]
fn a_post_cap_five_bet_maps_onto_the_all_in() {
    let mut b = Agent::new();
    let h = [parse_card("Ac").unwrap(), parse_card("Ad").unwrap()];
    let mut hs = b.start_hand(1, h);

    let action = "b250b750b1657b12000";
    let parsed = parse_action(action).expect("legal action string");
    b.sync(&mut hs, &parsed, &[]);
    assert!(
        hs.hand.expects(hs.my_seat, 0),
        "the 5-bet must translate onto the abstract all-in, not desync"
    );
}

/// Once the abstraction is all-in but the real stacks are not, later streets
/// have no node.
#[test]
fn an_all_in_abstraction_over_live_stacks_is_desynced() {
    let mut b = Agent::new();
    let h = [parse_card("3d").unwrap(), parse_card("4d").unwrap()];
    let mut hs = b.start_hand(1, h);
    let action = "b250b750b1657b6750c/b13250";
    let board = cards(&["2c", "7h", "9s"]);
    let parsed = parse_action(action).expect("legal action string");
    b.sync(&mut hs, &parsed, &board);
    assert!(!hs.hand.expects(hs.my_seat, 1));
    assert_eq!(regime(&b.cfg, &hs, &parsed, &board), Ok(Regime::Desynced));
}

#[test]
fn hands_on_the_board_never_reach_the_lookup() {
    let board = cards(&["Qs", "4s", "3h"]);
    let hole = cards(&["Ac", "Kd"]);
    let alive = surviving_combos(&hole);
    let plan = range_plan(&alive, &board);
    assert_eq!(plan.len(), NUM_COMBOS);
    for (i, update) in plan.iter().enumerate() {
        let [a, b] = combo_cards(i);
        let want = if hole.contains(&a) || hole.contains(&b) {
            HandUpdate::Keep
        } else if board.contains(&a) || board.contains(&b) {
            HandUpdate::RuleOut
        } else {
            HandUpdate::Lookup
        };
        assert_eq!(*update, want, "hand {a} {b}");
    }
    assert_eq!(plan[combo_index(hole[0], hole[1])], HandUpdate::Keep);
}
