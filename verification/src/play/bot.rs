//! The playing agent's decisions: blueprint policy, belief tracking, postflop
//! re-solving.
//!
//! * **Preflop** — play directly from the trained blueprint: translate the real
//!   hand into the abstract game ([`AbstractHand`]), look up the average
//!   strategy, sample, and translate back ([`blueprint_move`]).
//! * **Flop / turn / river** — full-range re-solve of the *actual* public state:
//!   the resolve root carries the real pot and stacks, off-tree bets included
//!   ([`resolve_root`]), and the resolved distribution is played directly in
//!   real chips ([`resolved_move`]).
//! * **Desynced** — where the abstraction has no node for the spot, hand-vs-range
//!   equity against the price of a call ([`call_price`]).
//!
//! The numbers — strategies, ranges, equities, the sampled index — come from the
//! numeric side; everything that is decided from them is decided here.

use crate::engine::{Action, GameState, DECK_SIZE, NO_CARD};
use crate::play::protocol::{Event, Parsed, ParsedModel, BIG_BLIND, STACK_SIZE};
use crate::play::protocol_laws::allowed;
use crate::play::tracker::{
    holes_with_placeholder, lowest_spares, pad_board, padded_board, real_move,
    AbstractHand, MapOutcome, RealMove,
};
use crate::resolving::belief_state::{
    combo_rank, is_combo, law_combo_rank_injective, surviving_combos, NUM_COMBOS,
};
use crate::resolving::vector_cfr::keys::{info_bytes, subgame_info_key, MARKER_NONE};
use crate::resolving::subgame::sorted_hand;
use crate::games::nlhe::ascending;
use crate::util::decimal::{decimal, push_decimal};
use crate::util::hash::fnv_hash;
use vstd::prelude::*;
use vstd::string::*;

verus! {

/// Tunables for the playing agent's decisions.
#[derive(Debug, Clone, Copy, PartialEq, Eq, Structural)]
pub struct BotConfig {
    /// Re-solve river decisions; otherwise blueprint throughout.
    pub resolve_river: bool,
    /// Re-solve turn decisions.
    pub resolve_turn: bool,
    /// Re-solve flop decisions.
    pub resolve_flop: bool,
    /// CFR⁺ iterations per river resolve.
    pub river_iters: u64,
    /// CFR⁺ iterations per turn/flop resolve — kept lower than `river_iters`
    /// because runout leaves make each iteration far costlier.
    pub turn_iters: u64,
    /// Raise cap inside a resolve (bounds the public tree; used at every street).
    pub river_cap: u32,
    /// Turn resolves deal the river as an explicit chance node and solve the
    /// real river betting.  Off = cut at the reveal with the continuation leaf;
    /// flop resolves always use the cut.
    pub turn_full_river: bool,
    /// Runout completions evaluated per iteration at each depth-cut leaf
    /// (`0` = exact).
    pub runout_sample: usize,
    /// Carry the opponent's counterfactual values from each resolve and
    /// constrain the next one with the gadget.
    pub continual: bool,
    /// Seed for action sampling and bet-mapping randomization.
    pub seed: u64,
}

impl Default for BotConfig {
    fn default() -> (cfg: Self)
        ensures
            cfg == (BotConfig {
                resolve_river: true,
                resolve_turn: true,
                resolve_flop: true,
                river_iters: 1_500,
                turn_iters: 500,
                river_cap: 3,
                turn_full_river: false,
                runout_sample: 64,
                continual: true,
                seed: 1,
            }),
    {
        BotConfig {
            resolve_river: true,
            resolve_turn: true,
            resolve_flop: true,
            river_iters: 1_500,
            turn_iters: 500,
            river_cap: 3,
            turn_full_river: false,
            runout_sample: 64,
            continual: true,
            seed: 1,
        }
    }
}

/// Which solver a re-solve runs.
#[derive(Debug, Clone, Copy, PartialEq, Eq, Structural)]
pub enum SolverMode {
    /// Exact showdown terminals.
    River,
    /// The river dealt as a chance node, the real river betting below.
    FullRiver,
    /// Cut at the undealt street with the continuation leaf.
    Cut,
}

impl BotConfig {
    /// Whether a street is re-solved: it is switched on, and the board has the
    /// right number of cards for it.  Preflop is always blueprint.
    pub open spec fn resolves(self, street: u8, board_len: nat) -> bool {
        ||| street == 3 && self.resolve_river && board_len == 5
        ||| street == 2 && self.resolve_turn && board_len == 4
        ||| street == 1 && self.resolve_flop && board_len == 3
    }

    /// Whether to re-solve this street, given the enabled flags and a board with
    /// the right number of revealed cards for the street.
    pub fn should_resolve(&self, street: u8, board: &[u8]) -> (resolve: bool)
        ensures
            resolve == self.resolves(street, board@.len()),
    {
        match street {
            3 => self.resolve_river && board.len() == 5,
            2 => self.resolve_turn && board.len() == 4,
            1 => self.resolve_flop && board.len() == 3,
            _ => false,
        }
    }

    /// Which solver a board of this size gets.
    pub open spec fn mode(self, board_len: nat) -> SolverMode {
        if board_len == 5 {
            SolverMode::River
        } else if board_len == 4 && self.turn_full_river {
            SolverMode::FullRiver
        } else {
            SolverMode::Cut
        }
    }

    /// Which solver to run on this board, and for how many iterations.
    pub fn solver_plan(&self, board: &[u8]) -> (plan: (SolverMode, u64))
        ensures
            plan.0 == self.mode(board@.len()),
            plan.1 == if board@.len() == 5 {
                self.river_iters
            } else {
                self.turn_iters
            },
    {
        if board.len() == 5 {
            (SolverMode::River, self.river_iters)
        } else if board.len() == 4 && self.turn_full_river {
            (SolverMode::FullRiver, self.turn_iters)
        } else {
            (SolverMode::Cut, self.turn_iters)
        }
    }
}

/// Per-hand state.
pub struct HandState {
    /// Slumbot position (0 = big blind, 1 = small blind).
    pub my_pos: u8,
    /// Engine seat (0 = small blind / button, 1 = big blind) = `1 − my_pos`.
    pub my_seat: usize,
    pub my_hole: [u8; 2],
    pub hand: AbstractHand,
    /// Events already consumed from the (cumulative) action string.
    pub processed: usize,
    /// Board cards already applied to the abstract state.
    pub board_seen: usize,
    /// Our next echoed event was already applied at decision time:
    /// `Some(Some(i))` = applied index `i`; `Some(None)` = deliberately skipped
    /// (no abstract node existed).  `None` = nothing pending.
    pub pending_self: Option<Option<u8>>,
}

/// What to do with an observed event.
#[derive(Debug, Clone, Copy, PartialEq, Eq, Structural)]
pub enum Observed {
    /// Our own echoed action: already applied (or deliberately skipped) when it
    /// was decided.
    Echo,
    /// The abstract game has no node for it.
    Unexpected,
    /// Translate it as an action of this engine seat, update that seat's range
    /// and apply it.
    Translate(usize),
}

impl HandState {
    /// The two views of our place agree, and there is an abstract hand.
    pub open spec fn wf(&self) -> bool {
        &&& self.my_pos < 2
        &&& self.my_seat == 1 - self.my_pos
        &&& self.hand.wf()
    }

    /// Begin a hand as `client_pos` (Slumbot convention) holding `hole`, from
    /// the engine's opening state `opening` for [`opening_holes`].
    pub fn start_hand(client_pos: u8, hole: [u8; 2], opening: GameState) -> (hs: HandState)
        requires
            client_pos < 2,
            opening.wf(),
        ensures
            hs.wf(),
            hs.my_pos == client_pos,
            hs.my_hole == hole,
            hs.hand.holes[hs.my_seat as int] == hole,
            lowest_spares(
                hole@ + hs.hand.board@,
                hs.hand.holes[1 - hs.my_seat as int][0],
                hs.hand.holes[1 - hs.my_seat as int][1],
            ),
            hs.hand.board@ == seq![NO_CARD, NO_CARD, NO_CARD, NO_CARD, NO_CARD],
            hs.hand.now() == opening,
            hs.hand.state.street_raises == 0,
            hs.hand.state.history@ == Seq::<u8>::empty(),
            hs.processed == 0,
            hs.board_seen == 0,
            hs.pending_self is None,
    {
        let my_seat: usize = 1 - client_pos as usize;
        let holes: [[u8; 2]; 2] = opening_holes(my_seat, hole);
        HandState {
            my_pos: client_pos,
            my_seat,
            my_hole: hole,
            hand: AbstractHand::new(holes, opening),
            processed: 0,
            board_seen: 0,
            pending_self: None,
        }
    }

    /// Note the revealed board.  Says whether anything new was revealed: then
    /// the abstract history is to be replayed on the new cards, and hands that
    /// overlap the board leave both ranges.
    pub fn see_board(&mut self, board: &[u8]) -> (fresh: bool)
        requires
            old(self).wf(),
            board@.len() <= 5,
        ensures
            final(self).wf(),
            fresh == (board@.len() != old(self).board_seen),
            final(self).board_seen == board@.len(),
            final(self).my_pos == old(self).my_pos,
            final(self).my_hole == old(self).my_hole,
            final(self).processed == old(self).processed,
            final(self).pending_self == old(self).pending_self,
            final(self).hand.state == old(self).hand.state,
            fresh ==> final(self).hand.board@ == padded_board(board@),
            fresh ==> final(self).hand.holes[final(self).my_seat as int] == old(
                self,
            ).hand.holes[old(self).my_seat as int],
            fresh ==> lowest_spares(
                old(self).hand.holes[old(self).my_seat as int]@ + final(self).hand.board@,
                final(self).hand.holes[1 - final(self).my_seat as int][0],
                final(self).hand.holes[1 - final(self).my_seat as int][1],
            ),
            !fresh ==> *final(self) == *old(self),
    {
        if board.len() != self.board_seen {
            self.hand.set_board(board, self.my_seat);
            self.board_seen = board.len();
            true
        } else {
            false
        }
    }

    /// The next event that has not been consumed, which then counts as consumed.
    pub fn next_event(&mut self, parsed: &Parsed) -> (event: Option<Event>)
        requires
            old(self).wf(),
            old(self).processed <= parsed.events@.len(),
        ensures
            final(self).wf(),
            event == if old(self).processed < parsed.events@.len() {
                Some(parsed.events@[old(self).processed as int])
            } else {
                None
            },
            *final(self) == (HandState {
                processed: if old(self).processed < parsed.events@.len() {
                    (old(self).processed + 1) as usize
                } else {
                    old(self).processed
                },
                ..*old(self)
            }),
    {
        if self.processed < parsed.events.len() {
            let event: Event = parsed.events[self.processed];
            self.processed += 1;
            Some(event)
        } else {
            None
        }
    }

    /// What becomes of an observed event.
    pub open spec fn observes(&self, ev: Event) -> Observed {
        if ev.pos == self.my_pos && self.pending_self is Some {
            Observed::Echo
        } else if !self.hand.now().terminal && self.hand.now().to_act == 1 - ev.pos
            && self.hand.now().street == ev.street {
            Observed::Translate((1 - ev.pos) as usize)
        } else {
            Observed::Unexpected
        }
    }

    /// Decide what becomes of one observed event; an echo of our own action is
    /// no longer pending afterwards.
    pub fn consume(&mut self, ev: Event) -> (observed: Observed)
        requires
            old(self).wf(),
            ev.pos < 2,
        ensures
            final(self).wf(),
            observed == old(self).observes(ev),
            *final(self) == (HandState {
                pending_self: if observed == Observed::Echo {
                    None
                } else {
                    old(self).pending_self
                },
                ..*old(self)
            }),
    {
        let seat: usize = 1 - ev.pos as usize;
        if ev.pos == self.my_pos && self.pending_self.is_some() {
            self.pending_self = None;
            return Observed::Echo;
        }
        if self.hand.expects(seat, ev.street) {
            Observed::Translate(seat)
        } else {
            Observed::Unexpected
        }
    }

    /// Note what became of our own decision in the abstract game: the applied
    /// index, or that there was nothing to apply.
    pub fn decided(&mut self, mapped: Option<MapOutcome>)
        requires
            old(self).wf(),
        ensures
            *final(self) == (HandState {
                pending_self: Some(
                    match mapped {
                        Some(MapOutcome::Index(i)) => Some(i),
                        _ => None,
                    },
                ),
                ..*old(self)
            }),
    {
        self.pending_self = Some(
            match mapped {
                Some(MapOutcome::Index(i)) => Some(i),
                _ => None,
            },
        );
    }
}

/// Hole cards by seat for the opening state of a hand: ours, and placeholders
/// for the opponent.
pub fn opening_holes(my_seat: usize, hole: [u8; 2]) -> (holes: [[u8; 2]; 2])
    requires
        my_seat < 2,
    ensures
        holes[my_seat as int] == hole,
        lowest_spares(
            hole@ + seq![NO_CARD, NO_CARD, NO_CARD, NO_CARD, NO_CARD],
            holes[1 - my_seat as int][0],
            holes[1 - my_seat as int][1],
        ),
{
    let board: [u8; 5] = [NO_CARD, NO_CARD, NO_CARD, NO_CARD, NO_CARD];
    assert(board@ =~= seq![NO_CARD, NO_CARD, NO_CARD, NO_CARD, NO_CARD]);
    holes_with_placeholder(my_seat, hole, &board)
}

/// What an observed action does to the weight of a hand.
#[derive(Debug, Clone, Copy, PartialEq, Eq, Structural)]
pub enum HandUpdate {
    /// The hand has no weight to lose: leave it.
    Keep,
    /// The hand shares a card with the board: it cannot be held.
    RuleOut,
    /// Multiply by the blueprint's probability of the action with this hand.
    Lookup,
}

/// What an observed action does to a hand; a hand on the board must never
/// reach the hand indexer.
pub open spec fn hand_update(alive: bool, on_board: bool) -> HandUpdate {
    if !alive {
        HandUpdate::Keep
    } else if on_board {
        HandUpdate::RuleOut
    } else {
        HandUpdate::Lookup
    }
}

/// What an observed action does to each hand of the actor's range, on a board
/// that shows these cards.
pub fn range_plan(alive: &[bool], board: &[u8]) -> (plan: Vec<HandUpdate>)
    requires
        alive@.len() == NUM_COMBOS,
    ensures
        plan@.len() == NUM_COMBOS,
        forall|a: u8, b: u8|
            is_combo(a, b) ==> plan@[#[trigger] combo_rank(a, b)] == hand_update(
                alive@[combo_rank(a, b)],
                board@.contains(a) || board@.contains(b),
            ),
{
    let live: Vec<bool> = surviving_combos(board);
    let mut plan: Vec<HandUpdate> = Vec::new();
    let mut i: usize = 0;
    while i < NUM_COMBOS
        invariant
            i <= NUM_COMBOS,
            alive@.len() == NUM_COMBOS,
            live@.len() == NUM_COMBOS,
            plan@.len() == i,
            forall|k: int|
                0 <= k < i ==> #[trigger] plan@[k] == hand_update(alive@[k], !live@[k]),
        decreases NUM_COMBOS - i,
    {
        plan.push(
            if !alive[i] {
                HandUpdate::Keep
            } else if !live[i] {
                HandUpdate::RuleOut
            } else {
                HandUpdate::Lookup
            },
        );
        i += 1;
    }
    assert forall|a: u8, b: u8| is_combo(a, b) implies plan@[#[trigger] combo_rank(a, b)]
        == hand_update(
        alive@[combo_rank(a, b)],
        board@.contains(a) || board@.contains(b),
    ) by {
        law_combo_rank_injective(a, b, a, b);
    }
    plan
}

/// A position as text, `-1` for nobody.
pub open spec fn position_text(pos: i8) -> Seq<char> {
    if pos < 0 {
        "-"@ + decimal((-pos) as nat)
    } else {
        decimal(pos as nat)
    }
}

/// The error of being asked to act out of turn.
pub open spec fn out_of_turn_text(next_pos: i8, my_pos: u8) -> Seq<char> {
    "act() called but next to act is "@ + position_text(next_pos) + " (we are "@ + decimal(
        my_pos as nat,
    ) + ")"@
}

/// Whether it is our turn; an error says whose it is.
pub fn check_turn(parsed: &Parsed, my_pos: u8) -> (r: Result<(), String>)
    requires
        my_pos < 2,
    ensures
        r is Ok <==> parsed.next_pos == my_pos,
        r matches Err(text) ==> text@ == out_of_turn_text(parsed.next_pos, my_pos),
{
    if parsed.next_pos == my_pos as i8 {
        return Ok(());
    }
    let mut text: String = "act() called but next to act is ".to_owned();
    if parsed.next_pos < 0 {
        text.append("-");
        push_decimal(&mut text, (-(parsed.next_pos as i64)) as u64);
    } else {
        push_decimal(&mut text, parsed.next_pos as u64);
    }
    text.append(" (we are ");
    push_decimal(&mut text, my_pos as u64);
    text.append(")");
    proof {
        assert(text@ =~= out_of_turn_text(parsed.next_pos, my_pos));
    }
    Err(text)
}

/// The price of a call: the chips it takes, and the pot it contests.
#[derive(Debug, Clone, Copy, PartialEq, Eq, Structural)]
pub struct Price {
    pub to_call: u32,
    pub pot: u32,
}

/// The price of a call when the abstract game has no node for the spot; none
/// where there is nothing to call.
pub fn call_price(parsed: &Parsed, my_pos: u8) -> (price: Option<Price>)
    requires
        parsed.wf(),
        parsed.next_pos == my_pos,
    ensures
        price is Some <==> parsed.last_bet_size > 0,
        price matches Some(p) ==> p.to_call == parsed.last_bet_size && p.pot == parsed@.pot(),
{
    let me: usize = my_pos as usize;
    let stack: u32 = parsed.stack(me);
    let owed: u32 = parsed.street_last_bet_to - parsed.street_committed[me];
    let to_call: u32 = if owed < stack {
        owed
    } else {
        stack
    };
    if to_call == 0 {
        None
    } else {
        Some(Price { to_call, pot: parsed.pot() })
    }
}

/// The move when the abstract game has no node for the spot: a check where it
/// is free, a call where `worth` it, else a fold.  Never a raise.
pub fn desynced_move(price: Option<Price>, worth: bool) -> (mv: RealMove)
    ensures
        mv == match price {
            None => RealMove::Check,
            Some(_) => if worth {
                RealMove::Call
            } else {
                RealMove::Fold
            },
        },
{
    match price {
        None => RealMove::Check,
        Some(_) => {
            if worth {
                RealMove::Call
            } else {
                RealMove::Fold
            }
        },
    }
}

/// What a desynced agent does is always a legal move, and never a raise.
pub proof fn law_desynced_moves_are_allowed(p: ParsedModel, price: Option<Price>, worth: bool)
    requires
        price is Some <==> p.last_bet_size > 0,
    ensures
        ({
            let mv = match price {
                None => RealMove::Check,
                Some(_) => if worth {
                    RealMove::Call
                } else {
                    RealMove::Fold
                },
            };
            allowed(p, mv.kind()) && !(mv is BetTo)
        }),
{
}

/// Where a decision is made.
#[derive(Debug, Clone, Copy, PartialEq, Eq, Structural)]
pub enum Regime {
    /// Re-solve the real public state.
    Resolve,
    /// Look the abstract node up in the blueprint.
    Blueprint,
    /// The abstraction has no node for the spot.
    Desynced,
}

/// Where a decision is made that is not re-solved.
pub open spec fn lookup_regime(hs: HandState, street: u8) -> Regime {
    if !hs.hand.now().terminal && hs.hand.now().to_act == hs.my_seat && hs.hand.now().street
        == street {
        Regime::Blueprint
    } else {
        Regime::Desynced
    }
}

/// Where a decision is made that is not re-solved (or whose re-solve offers
/// nothing for our hand).
pub fn fallback_regime(hs: &HandState, parsed: &Parsed) -> (regime: Regime)
    requires
        hs.wf(),
    ensures
        regime == lookup_regime(*hs, parsed.street),
{
    if hs.hand.expects(hs.my_seat, parsed.street) {
        Regime::Blueprint
    } else {
        Regime::Desynced
    }
}

/// Where our next decision is made, once the hand is in step with `parsed`; an
/// error where it is not our turn.
pub fn regime(cfg: &BotConfig, hs: &HandState, parsed: &Parsed, board: &[u8]) -> (r: Result<
    Regime,
    String,
>)
    requires
        hs.wf(),
    ensures
        match r {
            Ok(regime) => parsed.next_pos == hs.my_pos && regime == if cfg.resolves(
                parsed.street,
                board@.len(),
            ) {
                Regime::Resolve
            } else {
                lookup_regime(*hs, parsed.street)
            },
            Err(text) => parsed.next_pos != hs.my_pos && text@ == out_of_turn_text(
                parsed.next_pos,
                hs.my_pos,
            ),
        },
{
    match check_turn(parsed, hs.my_pos) {
        Err(text) => Err(text),
        Ok(_) => {
            if cfg.should_resolve(parsed.street, board) {
                Ok(Regime::Resolve)
            } else {
                Ok(fallback_regime(hs, parsed))
            }
        },
    }
}

/// The smallest raise size that is bet: the outstanding bet's, at least a big
/// blind, at most what remains.
pub open spec fn bet_floor(p: ParsedModel) -> u32 {
    let size = if p.last_bet_size > BIG_BLIND {
        p.last_bet_size
    } else {
        BIG_BLIND
    };
    let remaining = (STACK_SIZE - p.total_last_bet_to) as u32;
    if size < remaining {
        size
    } else {
        remaining
    }
}

/// Play one of our abstract actions in real chips.  `hand` is the abstract hand
/// that offers it, and `wished` the size that an abstract raise comes to by pot
/// fraction.
pub fn blueprint_move(parsed: &Parsed, hand: &AbstractHand, action: Action, wished: i64) -> (mv:
    RealMove)
    requires
        parsed.wf(),
        hand.wf(),
        hand.max_bet() <= u32::MAX,
    ensures
        mv == real_move(
            hand.now(),
            action,
            wished,
            parsed.street_last_bet_to,
            parsed.last_bet_size > 0,
            bet_floor(parsed@),
            (STACK_SIZE - parsed.total_last_bet_to) as u32,
        ),
{
    let facing: bool = parsed.last_bet_size > 0;
    let size: u32 = if parsed.last_bet_size > BIG_BLIND {
        parsed.last_bet_size
    } else {
        BIG_BLIND
    };
    let remaining: u32 = STACK_SIZE - parsed.total_last_bet_to;
    let floor: u32 = if size < remaining {
        size
    } else {
        remaining
    };
    hand.abstract_to_real(
        action,
        wished,
        parsed.street_last_bet_to,
        facing,
        floor,
        remaining,
    )
}

/// Whatever abstract action is sampled, and whatever size is wished for, the
/// real move is one that the table accepts.
pub proof fn law_blueprint_moves_are_allowed(p: ParsedModel, gs: GameState, action: Action, wished: i64)
    requires
        p.wf(),
        p.next_pos >= 0,
    ensures
        allowed(
            p,
            real_move(
                gs,
                action,
                wished,
                p.street_last_bet_to,
                p.last_bet_size > 0,
                bet_floor(p),
                (STACK_SIZE - p.total_last_bet_to) as u32,
            ).kind(),
        ),
{
}

/// The cards that a street shows.
pub open spec fn street_cards(street: u8) -> u8 {
    if street == 0 {
        0
    } else {
        (street + 2) as u8
    }
}

/// The seats without chips behind, one bit each.
pub open spec fn broke_seats(stacks: Seq<u32>) -> u8 {
    if stacks[0] == 0 {
        if stacks[1] == 0 {
            3
        } else {
            1
        }
    } else if stacks[1] == 0 {
        2
    } else {
        0
    }
}

/// Whether nobody has acted on the current street.
pub open spec fn street_fresh(p: ParsedModel) -> bool {
    forall|i: int| 0 <= i < p.events.len() ==> (#[trigger] p.events[i]).street != p.street
}

/// Whether `root` is the real public state of a hand, with us to act: chips by
/// seat (`1 − pos`), the level to match, and who may still act.
pub open spec fn is_resolve_root(root: GameState, p: ParsedModel, my_seat: int) -> bool {
    &&& root.street == p.street
    &&& root.pot == p.pot()
    &&& root.current_bet == p.street_last_bet_to
    &&& root.min_raise == if p.last_bet_size > BIG_BLIND {
        p.last_bet_size
    } else {
        BIG_BLIND
    }
    &&& root.to_act == my_seat
    &&& forall|seat: int|
        0 <= seat < 2 ==> {
            &&& #[trigger] root.total_committed[seat] == p.total_committed[1 - seat]
            &&& root.stacks[seat] == STACK_SIZE - p.total_committed[1 - seat]
            &&& root.street_bets[seat] == p.street_committed[1 - seat]
        }
    &&& root.folded == 0
    &&& root.allin == broke_seats(root.stacks@)
    &&& root.players_to_act == if street_fresh(p) && root.current_bet == 0 {
        2
    } else {
        1u8
    }
    &&& root.last_aggressor == if p.last_bettor >= 0 {
        1 - p.last_bettor
    } else {
        my_seat
    }
    &&& root.visible == street_cards(p.street)
    &&& !root.terminal
}

/// Synthesize the real postflop public state (Slumbot chips) as an engine state
/// — the resolve root.  The board is padded past the revealed cards, which the
/// solver reads as the depth cut; the opponent's cards are placeholders.
pub fn resolve_root(hs: &HandState, parsed: &Parsed, board: &[u8]) -> (root: GameState)
    requires
        hs.wf(),
        parsed.wf(),
        parsed.next_pos == hs.my_pos,
        board@.len() <= 5,
        forall|i: int| 0 <= i < board@.len() ==> #[trigger] board@[i] < DECK_SIZE,
    ensures
        root.wf(),
        is_resolve_root(root, parsed@, hs.my_seat as int),
        root.board@ == padded_board(board@),
        root.hole_cards[hs.my_seat as int] == hs.my_hole,
        lowest_spares(
            hs.my_hole@ + root.board@,
            root.hole_cards[1 - hs.my_seat as int][0],
            root.hole_cards[1 - hs.my_seat as int][1],
        ),
{
    let board5: [u8; 5] = pad_board(board);
    let holes: [[u8; 2]; 2] = holes_with_placeholder(hs.my_seat, hs.my_hole, &board5);
    let stacks: [u32; 2] = [
        STACK_SIZE - parsed.total_committed[1],
        STACK_SIZE - parsed.total_committed[0],
    ];
    let mut allin: u8 = 0;
    if stacks[0] == 0 {
        allin = 1;
    }
    if stacks[1] == 0 {
        allin = allin + 2;
    }
    let current_bet: u32 = if parsed.street_committed[0] > parsed.street_committed[1] {
        parsed.street_committed[0]
    } else {
        parsed.street_committed[1]
    };
    let mut fresh: bool = true;
    let mut i: usize = 0;
    while i < parsed.events.len()
        invariant
            i <= parsed.events@.len(),
            fresh <==> forall|k: int|
                0 <= k < i ==> (#[trigger] parsed.events@[k]).street != parsed.street,
        decreases parsed.events@.len() - i,
    {
        if parsed.events[i].street == parsed.street {
            fresh = false;
        }
        i += 1;
    }
    let root = GameState {
        street: parsed.street,
        pot: parsed.pot(),
        current_bet,
        min_raise: if parsed.last_bet_size > BIG_BLIND {
            parsed.last_bet_size
        } else {
            BIG_BLIND
        },
        to_act: hs.my_seat as u8,
        stacks,
        street_bets: [parsed.street_committed[1], parsed.street_committed[0]],
        total_committed: [parsed.total_committed[1], parsed.total_committed[0]],
        hole_cards: holes,
        board: board5,
        folded: 0,
        allin,
        players_to_act: if fresh && current_bet == 0 {
            2
        } else {
            1
        },
        last_aggressor: if parsed.last_bettor >= 0 {
            (1 - parsed.last_bettor) as u8
        } else {
            hs.my_seat as u8
        },
        visible: if parsed.street == 0 {
            0
        } else {
            parsed.street + 2
        },
        terminal: false,
    };
    assert(fresh == street_fresh(parsed@));
    root
}

/// How a resolved action is played: an engine raise level already is the
/// table's bet level, and an all-in that raises nothing is a call or a check.
pub open spec fn resolved_real(root: GameState, seat: int, action: Action, facing: bool) -> RealMove {
    let all_in = root.street_bets[seat] + root.stacks[seat];
    match action {
        Action::Fold => RealMove::Fold,
        Action::Check => RealMove::Check,
        Action::Call => RealMove::Call,
        Action::Raise(level) => RealMove::BetTo(level),
        Action::AllIn => if all_in <= root.current_bet {
            if facing {
                RealMove::Call
            } else {
                RealMove::Check
            }
        } else {
            RealMove::BetTo(all_in as u32)
        },
    }
}

/// Play a resolved action of the root's menu in real chips.
pub fn resolved_move(root: &GameState, seat: usize, action: Action, facing: bool) -> (mv: RealMove)
    requires
        seat < 2,
        root.street_bets[seat as int] + root.stacks[seat as int] <= u32::MAX,
    ensures
        mv == resolved_real(*root, seat as int, action, facing),
{
    match action {
        Action::Fold => RealMove::Fold,
        Action::Check => RealMove::Check,
        Action::Call => RealMove::Call,
        Action::Raise(level) => RealMove::BetTo(level),
        Action::AllIn => {
            let level: u32 = root.street_bets[seat] + root.stacks[seat];
            if level <= root.current_bet {
                if facing {
                    RealMove::Call
                } else {
                    RealMove::Check
                }
            } else {
                RealMove::BetTo(level)
            }
        },
    }
}

/// A resolved all-in puts in exactly what is left — a call or check where that
/// raises nothing — and the table accepts it.
pub proof fn law_resolved_all_in_is_allowed(root: GameState, p: ParsedModel, my_seat: int)
    requires
        p.wf(),
        0 <= my_seat < 2,
        p.next_pos == 1 - my_seat,
        is_resolve_root(root, p, my_seat),
    ensures
        allowed(p, resolved_real(root, my_seat, Action::AllIn, p.last_bet_size > 0).kind()),
{
    assert(root.total_committed[my_seat] == p.total_committed[1 - my_seat]);
}

/// The key under which a resolve emits our hand's strategy at its root.
pub fn root_key(seat: usize, hole: [u8; 2], board: &[u8]) -> (key: u64)
    requires
        board@.len() <= 5,
    ensures
        key == fnv_hash(
            info_bytes(
                seat as u8,
                ascending(hole@),
                padded_board(board@),
                Seq::empty(),
                MARKER_NONE,
            ),
        ),
{
    let history: [u8; 0] = [];
    let board5: [u8; 5] = pad_board(board);
    assert(history@ =~= Seq::<u8>::empty());
    subgame_info_key(seat, sorted_hand(hole), &board5, &history)
}

} // verus!
