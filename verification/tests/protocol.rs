//! The wire protocol: action strings in, public states out.

use poker_ai::play::protocol::{
    parse_action, ActionError, Event, EventKind, BIG_BLIND, SMALL_BLIND, STACK_SIZE,
};

#[test]
fn empty_action_is_sb_to_act_preflop() {
    let p = parse_action("").unwrap();
    assert_eq!(p.street, 0);
    assert_eq!(p.next_pos, 1, "small blind acts first preflop");
    assert_eq!(p.street_last_bet_to, BIG_BLIND);
    assert_eq!(p.last_bet_size, BIG_BLIND - SMALL_BLIND);
    assert_eq!(p.total_committed, [BIG_BLIND, SMALL_BLIND]);
    assert_eq!(p.pot(), 150);
}

#[test]
fn docstring_example_pot_size_flop_bet() {
    // "b200c/kb400": preflop raise to 200 called (pot 400), flop check then
    // a pot-size bet of 400.
    let p = parse_action("b200c/kb400").unwrap();
    assert_eq!(p.street, 1);
    assert_eq!(p.next_pos, 0, "BB faces the flop bet");
    assert_eq!(p.street_last_bet_to, 400);
    assert_eq!(p.last_bet_size, 400);
    assert_eq!(p.last_bettor, 1);
    assert_eq!(p.total_committed, [200, 600]);
    assert_eq!(p.pot(), 800);
    assert_eq!(
        p.events,
        vec![
            Event {
                street: 0,
                pos: 1,
                kind: EventKind::BetTo(200),
                pot_before: 150,
                bet_before: 100,
            },
            Event { street: 0, pos: 0, kind: EventKind::Call, pot_before: 300, bet_before: 200 },
            Event { street: 1, pos: 0, kind: EventKind::Check, pot_before: 400, bet_before: 0 },
            Event {
                street: 1,
                pos: 1,
                kind: EventKind::BetTo(400),
                pot_before: 400,
                bet_before: 0,
            },
        ]
    );
}

#[test]
fn checked_down_hand_reaches_showdown() {
    let p = parse_action("b200c/kk/kk/kk").unwrap();
    assert_eq!(p.street, 3);
    assert_eq!(p.next_pos, -1, "river checks through = showdown");
    assert_eq!(p.total_committed, [200, 200]);
}

#[test]
fn preflop_limp_check_advances_to_flop() {
    let p = parse_action("ck/").unwrap();
    assert_eq!(p.street, 1);
    assert_eq!(p.next_pos, 0, "BB first to act postflop");
    assert_eq!(p.total_committed, [100, 100]);
    assert_eq!(p.street_committed, [0, 0]);
    // Same string without the trailing slash parses identically.
    assert_eq!(parse_action("ck").unwrap(), p);
}

#[test]
fn allin_call_short_circuits_to_river() {
    for s in ["b20000c", "b20000c///"] {
        let p = parse_action(s).unwrap();
        assert_eq!(p.street, 3, "runout to the river");
        assert_eq!(p.next_pos, -1);
        assert_eq!(p.total_committed, [20_000, 20_000]);
        assert_eq!(p.last_bet_size, 0);
    }
}

#[test]
fn fold_ends_the_hand() {
    let p = parse_action("b300f").unwrap();
    assert_eq!(p.next_pos, -1);
    assert_eq!(p.total_committed, [100, 300]);
    assert_eq!(p.events.last().unwrap().kind, EventKind::Fold);
}

#[test]
fn raise_accounting_tracks_street_levels() {
    // SB to 300, BB reraises to 900, SB calls; turn: BB bets 500, SB raises
    // to 1500, BB calls; river pending.
    let p = parse_action("b300b900c/kk/b500b1500c/").unwrap();
    assert_eq!(p.street, 3);
    assert_eq!(p.next_pos, 0);
    assert_eq!(p.total_committed, [2400, 2400]);
    assert_eq!(p.street_committed, [0, 0]);
    assert_eq!(p.last_bet_size, 0);
}

#[test]
fn illegal_actions_are_rejected() {
    assert!(parse_action("k").is_err(), "check facing the blind");
    assert!(parse_action("cc").is_err(), "call with no outstanding bet");
    assert!(parse_action("ff").is_err(), "fold with nothing to fold to");
    assert!(parse_action("b120b130").is_err(), "raise below min raise");
    assert!(parse_action("b90").is_err(), "open below the big blind");
    assert!(parse_action("b30000").is_err(), "bet beyond the stack");
    assert!(parse_action("b200x").is_err(), "unknown character");
}

#[test]
fn min_raise_is_the_last_bet_size() {
    // Raise to 300 (size 200); the minimum reraise is to 500 (another 200).
    assert!(parse_action("b300b499").is_err());
    assert!(parse_action("b300b500").is_ok());
}

#[test]
fn every_error_has_its_text() {
    let cases = [
        ("k", "illegal check facing a bet"),
        ("ckc", "missing street separator"),
        ("ck/c", "illegal call with no outstanding bet"),
        ("ck/f", "illegal fold with no outstanding bet"),
        ("b20000cx", "missing street separator"),
        ("b20000c/", "missing street separator at end"),
        ("b20000c///x", "extra characters after an all-in call"),
        ("b300fx", "extra characters after a fold"),
        ("b200c/kk/kk/kkk", "unexpected action after the river"),
        ("b", "missing bet size"),
        ("b99999999999", "bet size not an integer"),
        ("b90", "bet too small (0 < 100)"),
        ("b199", "bet too small (99 < 100)"),
        ("b30000", "bet too big (29900 > 19900)"),
        ("b200x", "unexpected character 'x' in action"),
    ];
    for (action, text) in cases {
        let got = parse_action(action);
        assert_eq!(got, Err(text.to_string()), "{action}");
    }
    assert_eq!(ActionError::Unexpected(b'\n').message(), "unexpected character '\\n' in action");
}

#[test]
fn a_trailing_separator_changes_nothing() {
    for s in ["ck", "b200c", "b200c/kk", "b200c/kk/kk", "b300b900c/kk/b500b1500c"] {
        let with = format!("{s}/");
        assert_eq!(parse_action(&with), parse_action(s), "{s}");
    }
}

#[test]
fn legal_moves_extend_a_hand_and_illegal_ones_do_not() {
    // Facing the flop bet of 400 into 800: fold, call, or raise to 800..=19800.
    let s = "b200c/kb400";
    let before = parse_action(s).unwrap();
    for (mv, ok) in [
        ("f", true),
        ("c", true),
        ("k", false),
        ("b799", false),
        ("b800", true),
        ("b19800", true),
        ("b19801", false),
    ] {
        let after = parse_action(&format!("{s}{mv}"));
        assert_eq!(after.is_ok(), ok, "{mv}");
        if let Ok(after) = after {
            assert_eq!(after.events.len(), before.events.len() + 1);
            assert_eq!(after.events[..before.events.len()], before.events[..]);
            assert_eq!(after.events[before.events.len()].pot_before, before.pot());
        }
    }
}

#[test]
fn stacks_and_pots_add_up() {
    let p = parse_action("b300b900c/kk/b500").unwrap();
    assert_eq!(p.pot(), 2300);
    assert_eq!(p.stack(0), STACK_SIZE - 1400);
    assert_eq!(p.stack(1), STACK_SIZE - 900);
}

#[test]
fn a_called_all_in_runs_out_with_all_separators_or_none() {
    let bare = parse_action("ck/b19900c").unwrap();
    assert_eq!(parse_action("ck/b19900c//"), Ok(bare.clone()));
    assert!(parse_action("ck/b19900c/").is_err());
    assert!(parse_action("ck/b19900c///").is_err());
    assert_eq!(bare.street, 3);
    assert_eq!(bare.total_committed, [20_000, 20_000]);
}

#[test]
fn a_called_all_in_leaves_nothing_outstanding() {
    for s in ["b20000c", "b20000c///", "ck/b19900c", "ck/kk/kk/b19900c"] {
        let p = parse_action(s).unwrap();
        assert_eq!(p.last_bettor, -1, "{s}");
        assert_eq!(p.last_bet_size, 0, "{s}");
        assert_eq!(p.total_last_bet_to, 20_000, "{s}");
    }
    // No chips go in on the streets that are run out.
    let early = parse_action("b20000c").unwrap();
    assert_eq!((early.street_last_bet_to, early.street_committed), (0, [0, 0]));
    // Called on the river, the river is where they went in.
    let river = parse_action("ck/kk/kk/b19900c").unwrap();
    assert_eq!((river.street_last_bet_to, river.street_committed), (19_900, [19_900, 19_900]));
    // While the all-in is outstanding, there is a bettor.
    assert_eq!(parse_action("b20000").unwrap().last_bettor, 1);
    // A raise by nothing is no bet.
    assert_eq!(parse_action("b20000b20000").unwrap().last_bettor, -1);
}

#[test]
fn events_are_the_actions_of_the_string() {
    let p = parse_action("b300b900c/kk/b500b01500c/kb2000f").unwrap();
    check_turns(&p.events);
    let kinds: Vec<EventKind> = p.events.iter().map(|e| e.kind).collect();
    assert_eq!(
        kinds,
        vec![
            EventKind::BetTo(300),
            EventKind::BetTo(900),
            EventKind::Call,
            EventKind::Check,
            EventKind::Check,
            EventKind::BetTo(500),
            EventKind::BetTo(1500),
            EventKind::Call,
            EventKind::Check,
            EventKind::BetTo(2000),
            EventKind::Fold,
        ]
    );
    // Blinds 150; then 250, 800, 600 more; checks; 500, 1500, 1000 more; 2000.
    let pots: Vec<u32> = p.events.iter().map(|e| e.pot_before).collect();
    assert_eq!(pots, vec![150, 400, 1200, 1800, 1800, 1800, 2300, 3800, 4800, 4800, 6800]);
    assert_eq!(p.pot(), 6800, "a fold puts nothing in");
    assert_eq!(parse_action("").unwrap().pot(), 150);
}

/// Players take turns, the small blind first preflop and the big blind later.
fn check_turns(events: &[Event]) {
    for (k, e) in events.iter().enumerate() {
        let opens = k == 0 || events[k - 1].street != e.street;
        let turn = if opens { u8::from(e.street == 0) } else { 1 - events[k - 1].pos };
        assert_eq!(e.pos, turn, "event {k}");
    }
}

#[test]
fn the_turn_passes_until_the_hand_is_over() {
    for (s, street, next) in [
        ("", 0, 1),
        ("c", 0, 0),
        ("ck", 1, 0),
        ("ck/k", 1, 1),
        ("ck/kb200", 1, 0),
        ("b200c", 1, 0),
        ("b200b400", 0, 1),
        ("b200f", 0, -1),
        ("ck/kk/kk/k", 3, 1),
        ("ck/kk/kk/kk", 3, -1),
        ("ck/kk/kk/b200c", 3, -1),
        ("b20000", 0, 0),
        ("b20000c", 3, -1),
    ] {
        let p = parse_action(s).unwrap();
        assert_eq!((p.street, p.next_pos), (street, next), "{s}");
        check_turns(&p.events);
        let most = p.total_committed[0].max(p.total_committed[1]);
        assert_eq!(p.total_last_bet_to, most, "{s}");
    }
}
