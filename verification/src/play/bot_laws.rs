//! Laws of the agent's decisions, told in chips and turns: what a decision costs
//! at the table, what the resolve root takes over from it, and where a decision
//! is made.

use crate::engine::{Action, GameState};
use crate::play::bot::{
    bet_floor, hand_update, is_resolve_root, lookup_regime, out_of_turn_text, resolved_real, BotConfig,
    HandState, HandUpdate, Observed, Regime, SolverMode,
};
use crate::play::protocol::{Event, ParsedModel};
use crate::play::tracker::RealMove;
use crate::util::decimal::decimal;
use vstd::prelude::*;

verus! {

/// The chips that a move of the player to act puts in at the table.
pub open spec fn table_cost(p: ParsedModel, mv: RealMove) -> int {
    let me = p.next_pos as int;
    match mv {
        RealMove::Call => p.total_committed[1 - me] - p.total_committed[me],
        RealMove::BetTo(to) => to - p.street_committed[me],
        RealMove::Check | RealMove::Fold => 0,
    }
}

/// The chips that an action of `seat` puts in in an engine's game.
pub open spec fn engine_cost(gs: GameState, seat: int, action: Action) -> int {
    match action {
        Action::Call => gs.current_bet - gs.street_bets@[seat],
        Action::Raise(level) => level - gs.street_bets@[seat],
        Action::AllIn => gs.stacks@[seat] as int,
        Action::Check | Action::Fold => 0,
    }
}

/// A resolved action is the same act at the table as in the root's game: it
/// costs the same chips, and only a fold gives the hand up.
pub proof fn law_resolved_actions_cost_the_same(
    root: GameState,
    p: ParsedModel,
    seat: int,
    action: Action,
)
    requires
        p.wf(),
        0 <= seat < 2,
        p.next_pos == 1 - seat,
        is_resolve_root(root, p, seat),
    ensures
        ({
            let mv = resolved_real(root, seat, action, p.last_bet_size > 0);
            &&& table_cost(p, mv) == engine_cost(root, seat, action)
            &&& mv is Fold <==> action is Fold
            &&& action is Call ==> mv is Call
            &&& action is Check ==> mv is Check
        }),
{
    assert(root.total_committed[seat] == p.total_committed[1 - seat]);
    assert(root.total_committed[1 - seat] == p.total_committed[seat]);
}

/// Played in any state, a resolved action keeps its kind: a call calls, a check
/// checks, a raise bets to its level, and an all-in bets everything where that
/// is more than the current bet, and else calls a bet or checks.
pub proof fn law_resolved_actions_keep_their_kind(
    root: GameState,
    seat: int,
    action: Action,
    facing: bool,
)
    requires
        0 <= seat < 2,
        root.street_bets@[seat] + root.stacks@[seat] <= u32::MAX,
    ensures
        ({
            let mv = resolved_real(root, seat, action, facing);
            let everything = root.street_bets@[seat] + root.stacks@[seat];
            &&& mv is Fold <==> action is Fold
            &&& mv is BetTo <==> action is Raise || action is AllIn && everything
                > root.current_bet
            &&& mv matches RealMove::BetTo(to) ==> (action matches Action::Raise(level) ==> to
                == level) && (action is AllIn ==> to == everything)
            &&& mv is Call <==> action is Call || action is AllIn && everything <= root.current_bet
                && facing
        }),
{
}

/// The resolve root is the table: the pot is what both have put in, each stack
/// what is left of 20 000 chips, and the player to act owes what it owes there.
pub proof fn law_resolve_root_mirrors_the_table(root: GameState, p: ParsedModel, my_seat: int)
    requires
        p.wf(),
        0 <= my_seat < 2,
        p.next_pos == 1 - my_seat,
        is_resolve_root(root, p, my_seat),
    ensures
        root.pot == p.total_committed[0] + p.total_committed[1],
        root.stacks@[0] == 20_000 - p.total_committed[1],
        root.stacks@[1] == 20_000 - p.total_committed[0],
        root.total_committed@[0] == p.total_committed[1],
        root.total_committed@[1] == p.total_committed[0],
        root.street_bets@[0] == p.street_committed[1],
        root.street_bets@[1] == p.street_committed[0],
        root.pot + root.stacks@[0] + root.stacks@[1] == 40_000,
        root.current_bet == root.street_bets@[1 - my_seat],
        root.current_bet - root.street_bets@[my_seat] == p.last_bet_size,
        root.min_raise >= 100,
        root.min_raise >= p.last_bet_size,
        root.min_raise == 100 || root.min_raise == p.last_bet_size,
        root.to_act == my_seat,
        root.street == p.street,
        root.visible == if p.street == 0 {
            0
        } else {
            p.street + 2
        },
        !root.terminal,
        root.folded == 0,
        root.allin % 2 == 1 <==> root.stacks@[0] == 0,
        root.allin / 2 == 1 <==> root.stacks@[1] == 0,
        root.allin < 4,
        root.players_to_act == 2 <==> root.current_bet == 0 && forall|k: int|
            0 <= k < p.events.len() ==> (#[trigger] p.events[k]).street < p.street,
        root.players_to_act == 1 || root.players_to_act == 2,
        p.last_bet_size > 0 ==> root.last_aggressor == 1 - p.last_bettor,
        p.last_bet_size == 0 ==> root.last_aggressor == my_seat,
{
    assert(root.total_committed[0] == p.total_committed[1]);
    assert(root.total_committed[1] == p.total_committed[0]);
    assert forall|k: int| 0 <= k < p.events.len() implies (#[trigger] p.events[k]).street
        <= p.street by {}
}

/// A street is re-solved exactly where it is switched on and its board is out:
/// three cards on the flop, four on the turn, five on the river.  Preflop never
/// is.
pub proof fn law_streets_are_resolved_on_their_board(cfg: BotConfig, street: u8, cards: nat)
    ensures
        cfg.resolves(street, cards) <==> {
            &&& 1 <= street <= 3
            &&& cards == street + 2
            &&& street == 1 ==> cfg.resolve_flop
            &&& street == 2 ==> cfg.resolve_turn
            &&& street == 3 ==> cfg.resolve_river
        },
        cfg.mode(cards) == SolverMode::River <==> cards == 5,
        cfg.mode(cards) == SolverMode::FullRiver <==> cards == 4 && cfg.turn_full_river,
        cfg.mode(cards) == SolverMode::Cut <==> cards != 5 && (cards != 4 || !cfg.turn_full_river),
{
}

/// The blueprint answers exactly where the abstract hand awaits us on the real
/// street.
pub proof fn law_blueprint_answers_where_awaited(hs: HandState, street: u8)
    requires
        hs.wf(),
    ensures
        ({
            let gs = hs.hand.state.gs->0;
            let awaited = !gs.terminal && gs.street == street && gs.to_act == 1 - hs.my_pos;
            &&& lookup_regime(hs, street) == Regime::Blueprint <==> awaited
            &&& lookup_regime(hs, street) == Regime::Desynced <==> !awaited
        }),
{
}

/// An event of ours is an echo exactly while one is pending; any other event is
/// translated, for the seat of the player who made it, exactly where the
/// abstract hand awaits that player on that street.
pub proof fn law_events_are_translated_where_awaited(hs: HandState, ev: Event)
    requires
        hs.wf(),
        ev.pos < 2,
    ensures
        ({
            let gs = hs.hand.state.gs->0;
            let echo = ev.pos == hs.my_pos && hs.pending_self is Some;
            let awaited = !gs.terminal && gs.street == ev.street && gs.to_act == 1 - ev.pos;
            &&& hs.observes(ev) == Observed::Echo <==> echo
            &&& hs.observes(ev) == Observed::Unexpected <==> !echo && !awaited
            &&& hs.observes(ev) is Translate <==> !echo && awaited
            &&& hs.observes(ev) matches Observed::Translate(seat) ==> seat == 1 - ev.pos
        }),
{
}

/// The smallest raise that the agent makes is the smallest that the table takes:
/// the outstanding bet's size and a big blind at least, or else all that is
/// left.
pub proof fn law_smallest_raise(p: ParsedModel)
    requires
        p.wf(),
    ensures
        ({
            let left = 20_000 - p.total_last_bet_to;
            let floor = bet_floor(p);
            &&& floor <= left
            &&& floor < left ==> floor >= p.last_bet_size && floor >= 100 && (floor == 100 || floor
                == p.last_bet_size)
            &&& floor == left ==> left <= p.last_bet_size || left <= 100
        }),
{
}

/// An observed action touches only hands with weight: one that the board rules
/// out loses it, any other is looked up.
pub proof fn law_only_live_hands_are_looked_up(alive: bool, on_board: bool)
    ensures
        hand_update(alive, on_board) == HandUpdate::Keep <==> !alive,
        hand_update(alive, on_board) == HandUpdate::RuleOut <==> alive && on_board,
        hand_update(alive, on_board) == HandUpdate::Lookup <==> alive && !on_board,
{
}

/// Whose turn it is not: the error names the position to act, with a minus sign
/// for nobody, and ours.
pub proof fn law_out_of_turn_names_both(next_pos: i8, my_pos: u8)
    requires
        -1 <= next_pos <= 1,
        my_pos < 2,
    ensures
        out_of_turn_text(next_pos, my_pos) == "act() called but next to act is "@ + (if next_pos
            == -1 {
            "-"@ + decimal(1)
        } else {
            decimal(next_pos as nat)
        }) + " (we are "@ + decimal(my_pos as nat) + ")"@,
{
}

/// The big blind, position 0, sits in seat 1, and the small blind in seat 0.
pub proof fn law_seats_mirror_positions(hs: HandState)
    requires
        hs.wf(),
    ensures
        hs.my_pos == 0 <==> hs.my_seat == 1,
        hs.my_pos == 1 <==> hs.my_seat == 0,
        hs.my_pos + hs.my_seat == 1,
        hs.hand.wf(),
{
}

} // verus!
