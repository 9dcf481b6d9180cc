//! Dual-state tracking: mirror a **real** hand inside the **abstract** game the
//! blueprint was trained on.
//!
//! The real table (20 000-chip stacks, arbitrary bet sizes) and the blueprint's
//! abstract game (small integer chips, pot-fraction raise menu, raise cap) drift
//! apart the moment an opponent uses an off-tree size.  Both states are tracked
//! and actions translated between them:
//!
//! * an observed real bet maps to one of the two abstract aggressive actions
//!   that bracket its pot fraction ([`AbstractHand::map_real`]);
//! * our own abstract raise translates back to a real amount, clamped to the
//!   real game's legal range ([`AbstractHand::abstract_to_real`]).
//!
//! A real bet is **never mapped to a passive abstract action** while an
//! aggressive one exists: mapping a tiny bet to "check" would close the abstract
//! street while the real one stays open, which corrupts every later key in the
//! hand.  The one exception is aggression past the abstract raise cap, where no
//! aggressive action exists: the bet maps to `Call` (exactly how the cap was
//! trained).

use crate::engine::{Action, GameState, DECK_SIZE, NO_CARD};
use crate::games::blueprint::cursor::{law_nodes_remember, node_after};
use crate::games::blueprint::{capped_menu, raises_after, BlueprintHoldem, BlueprintState};
use crate::play::protocol::EventKind;
use crate::play::protocol_laws::wire;
use crate::util::card_set::CardSet;
use crate::util::decimal::{decimal, lemma_decimal_bytes, push_decimal};
use vstd::prelude::*;
use vstd::string::*;
use vstd::utf8::*;

verus! {

/// Result of translating one real event into the abstract game.
#[derive(Debug, Clone, Copy, PartialEq, Eq, Structural)]
pub enum MapOutcome {
    /// Apply this abstract action index.
    Index(u8),
    /// The abstract game has no node for this event (post-cap aggression
    /// follow-ups) — skip it; the states re-align at the next street.
    Skip,
}

/// A move in the real game, ready to serialize to the wire.
#[derive(Debug, Clone, Copy, PartialEq, Eq, Structural)]
pub enum RealMove {
    Fold,
    Check,
    Call,
    /// Bet/raise **to** this street level (real chips).
    BetTo(u32),
}

impl RealMove {
    /// The event that the move will be observed as.
    pub open spec fn kind(self) -> EventKind {
        match self {
            RealMove::Fold => EventKind::Fold,
            RealMove::Check => EventKind::Check,
            RealMove::Call => EventKind::Call,
            RealMove::BetTo(n) => EventKind::BetTo(n),
        }
    }

    /// The move's text on the wire.
    pub open spec fn text(self) -> Seq<char> {
        match self {
            RealMove::Fold => "f"@,
            RealMove::Check => "k"@,
            RealMove::Call => "c"@,
            RealMove::BetTo(n) => "b"@ + decimal(n as nat),
        }
    }

    /// The event that the move will be observed as.
    pub fn event_kind(self) -> (kind: EventKind)
        ensures
            kind == self.kind(),
    {
        match self {
            RealMove::Fold => EventKind::Fold,
            RealMove::Check => EventKind::Check,
            RealMove::Call => EventKind::Call,
            RealMove::BetTo(n) => EventKind::BetTo(n),
        }
    }

    /// Slumbot wire encoding.
    pub fn to_incr(self) -> (incr: String)
        ensures
            incr@ == self.text(),
            encode_utf8(incr@) == wire(self.kind()),
    {
        proof {
            lemma_wire_bytes(self);
        }
        match self {
            RealMove::Fold => "f".to_owned(),
            RealMove::Check => "k".to_owned(),
            RealMove::Call => "c".to_owned(),
            RealMove::BetTo(n) => {
                let mut incr: String = "b".to_owned();
                push_decimal(&mut incr, n as u64);
                incr
            },
        }
    }
}

proof fn lemma_wire_bytes(mv: RealMove)
    ensures
        encode_utf8(mv.text()) == wire(mv.kind()),
{
    reveal_strlit("f");
    reveal_strlit("k");
    reveal_strlit("c");
    reveal_strlit("b");
    match mv {
        RealMove::BetTo(n) => {
            lemma_decimal_bytes(n as nat);
            is_ascii_chars_encode_utf8(decimal(n as nat));
        },
        _ => {},
    }
    assert(is_ascii_chars(mv.text()));
    is_ascii_chars_encode_utf8(mv.text());
    assert(encode_utf8(mv.text()) =~= wire(mv.kind()));
}

/// `a < b` are the two lowest cards outside `known`.
pub open spec fn lowest_spares(known: Seq<u8>, a: u8, b: u8) -> bool {
    &&& a < b < DECK_SIZE
    &&& !known.contains(a)
    &&& !known.contains(b)
    &&& forall|c: u8| c < b && c != a ==> #[trigger] known.contains(c)
}

/// The two lowest cards that are not among `known`: placeholders for cards that
/// nobody reads.
pub fn spare_cards(known: &[u8]) -> (spares: [u8; 2])
    requires
        known@.len() <= 50,
    ensures
        lowest_spares(known@, spares[0], spares[1]),
{
    let used = CardSet::of_cards(known);
    let ghost all = known@.to_set();
    proof {
        known@.lemma_cardinality_of_set();
        vstd::seq_lib::seq_to_set_is_finite(known@);
    }
    let mut first: Option<u8> = None;
    let mut c: u8 = 0;
    let ghost mut hit = Set::<u8>::empty();
    while c < DECK_SIZE
        invariant
            c <= DECK_SIZE,
            all == known@.to_set(),
            all.finite(),
            all.len() <= 50,
            forall|card: u8| used.has(card) <==> card < DECK_SIZE && known@.contains(card),
            hit.finite(),
            hit.subset_of(all),
            forall|card: u8| hit.contains(card) ==> card < c,
            forall|card: u8| card < c && first != Some(card) ==> hit.contains(card),
            hit.len() + if first is Some { 1int } else { 0 } == c,
            first matches Some(a) ==> a < c && !known@.contains(a),
        decreases DECK_SIZE - c,
    {
        if !used.contains(c) {
            match first {
                None => {
                    first = Some(c);
                },
                Some(a) => {
                    assert forall|card: u8| card < c && card != a implies #[trigger] known@.contains(
                        card,
                    ) by {
                        assert(hit.contains(card));
                        assert(all.contains(card));
                    }
                    return [a, c];
                },
            }
        } else {
            proof {
                assert(all.contains(c));
                hit = hit.insert(c);
            }
        }
        c += 1;
    }
    proof {
        vstd::set_lib::lemma_len_subset(hit, all);
        assert(false);
    }
    [0, 1]
}

/// Hole cards by seat for tracking a hand: ours where we sit, and for the
/// opponent the two lowest cards not colliding with our hand or the board.
pub fn holes_with_placeholder(my_seat: usize, my_hole: [u8; 2], board: &[u8; 5]) -> (holes: [[u8; 2]; 2])
    requires
        my_seat < 2,
    ensures
        holes[my_seat as int] == my_hole,
        lowest_spares(
            my_hole@ + board@,
            holes[1 - my_seat as int][0],
            holes[1 - my_seat as int][1],
        ),
{
    let known: [u8; 7] = [
        my_hole[0],
        my_hole[1],
        board[0],
        board[1],
        board[2],
        board[3],
        board[4],
    ];
    assert(known@ =~= my_hole@ + board@);
    let opp: [u8; 2] = spare_cards(&known);
    if my_seat == 0 {
        [my_hole, opp]
    } else {
        [opp, my_hole]
    }
}

/// The first place at or after `i` where `pred` holds.
pub open spec fn first_from(menu: Seq<Action>, pred: spec_fn(Action) -> bool, i: int) -> Option<int>
    decreases menu.len() - i,
{
    if i < 0 || i >= menu.len() {
        None
    } else if pred(menu[i]) {
        Some(i)
    } else {
        first_from(menu, pred, i + 1)
    }
}

/// What stands first in a menu under a predicate.
pub open spec fn first_where(menu: Seq<Action>, pred: spec_fn(Action) -> bool) -> Option<int> {
    first_from(menu, pred, 0)
}

/// Being the action `wanted`.
pub open spec fn same_as(wanted: Action) -> spec_fn(Action) -> bool {
    |a: Action| a == wanted
}

/// Where `wanted` stands first in a menu.
pub open spec fn first_of(menu: Seq<Action>, wanted: Action) -> Option<int> {
    first_where(menu, same_as(wanted))
}

/// Whether an action is a call; the call of an all-in appears as `AllIn`.
pub open spec fn is_call(a: Action) -> bool {
    a == Action::Call || a == Action::AllIn
}

/// Whether an action puts in more than a call: a raise or an all-in.
pub open spec fn is_aggressive(a: Action) -> bool {
    a is Raise || a == Action::AllIn
}

/// Index a menu entry, or skip.
pub open spec fn outcome_of(place: Option<int>) -> MapOutcome {
    match place {
        Some(i) => MapOutcome::Index(i as u8),
        None => MapOutcome::Skip,
    }
}

/// The first of two choices that is there.
pub open spec fn or_else(first: Option<int>, second: Option<int>) -> Option<int> {
    if first is Some {
        first
    } else {
        second
    }
}

fn find_action(menu: &[Action], wanted: Action) -> (place: Option<usize>)
    ensures
        match place {
            Some(i) => first_of(menu@, wanted) == Some(i as int) && i < menu@.len(),
            None => first_of(menu@, wanted) is None,
        },
{
    let mut i: usize = 0;
    while i < menu.len()
        invariant
            i <= menu@.len(),
            first_of(menu@, wanted) == first_from(menu@, same_as(wanted), i as int),
        decreases menu@.len() - i,
    {
        if menu[i] == wanted {
            return Some(i);
        }
        i += 1;
    }
    None
}

fn find_call(menu: &[Action]) -> (place: Option<usize>)
    ensures
        match place {
            Some(i) => first_where(menu@, |a: Action| is_call(a)) == Some(i as int) && i
                < menu@.len(),
            None => first_where(menu@, |a: Action| is_call(a)) is None,
        },
{
    let ghost pred = |a: Action| is_call(a);
    let mut i: usize = 0;
    while i < menu.len()
        invariant
            i <= menu@.len(),
            pred == |a: Action| is_call(a),
            first_where(menu@, pred) == first_from(menu@, pred, i as int),
        decreases menu@.len() - i,
    {
        match menu[i] {
            Action::Call | Action::AllIn => {
                return Some(i);
            },
            _ => {},
        }
        i += 1;
    }
    None
}

fn outcome(place: Option<usize>) -> (o: MapOutcome)
    requires
        place matches Some(i) ==> i < 256,
    ensures
        o == match place {
            Some(i) => MapOutcome::Index(i as u8),
            None => MapOutcome::Skip,
        },
{
    match place {
        Some(i) => MapOutcome::Index(i as u8),
        None => MapOutcome::Skip,
    }
}

/// An aggressive action of a menu: its place, and the street level it bets to.
#[derive(Debug, Clone, Copy, PartialEq, Eq, Structural)]
pub struct Candidate {
    pub index: usize,
    pub level: u32,
}

/// The aggressive actions among the first `n` of a menu, in menu order: every
/// sized raise, and the all-in (to `max_bet`) where it exceeds the current bet.
pub open spec fn candidates(menu: Seq<Action>, current_bet: u32, max_bet: u32, n: nat) -> Seq<
    Candidate,
>
    decreases n,
{
    if n == 0 {
        Seq::empty()
    } else {
        let before = candidates(menu, current_bet, max_bet, (n - 1) as nat);
        match menu[n - 1] {
            Action::Raise(level) => before.push(Candidate { index: (n - 1) as usize, level }),
            Action::AllIn => if max_bet > current_bet {
                before.push(Candidate { index: (n - 1) as usize, level: max_bet })
            } else {
                before
            },
            _ => before,
        }
    }
}

/// The two neighbouring candidates that bracket a bet, out of `count`
/// candidates in ascending order: `first_at_least` is the first whose fraction
/// reaches the bet's.  Below the smallest both are the smallest, above the
/// largest both are the largest.
pub open spec fn bracket_of(count: nat, first_at_least: Option<usize>) -> (int, int) {
    match first_at_least {
        Some(hi) => if hi > 0 {
            (hi - 1, hi as int)
        } else {
            (0, 0)
        },
        None => (count - 1, count - 1),
    }
}

/// The two neighbouring candidates that bracket a bet; see [`bracket_of`].
pub fn bracket(count: usize, first_at_least: Option<usize>) -> (places: (usize, usize))
    requires
        count > 0,
        first_at_least matches Some(hi) ==> hi < count,
    ensures
        (places.0 as int, places.1 as int) == bracket_of(count as nat, first_at_least),
        places.0 < count,
        places.1 < count,
{
    match first_at_least {
        Some(hi) => if hi > 0 {
            (hi - 1, hi)
        } else {
            (0, 0)
        },
        None => (count - 1, count - 1),
    }
}

/// A candidate's raise and a real bet's, as pot fractions over one denominator.
/// A raise's pot fraction is its size over the pot that it is made into, the
/// called chips included.
pub open spec fn scaled_shares(gs: GameState, level: u32, to: u32, real_pot: u32, real_bet: u32) -> (
    int,
    int,
) {
    (
        (level - gs.current_bet) * (real_pot + real_bet),
        (to - real_bet) * (gs.pot + gs.current_bet),
    )
}

/// Whether a candidate's pot fraction is at least the bet's.
pub open spec fn reaches(gs: GameState, level: u32, to: u32, real_pot: u32, real_bet: u32) -> bool {
    let (candidate, bet) = scaled_shares(gs, level, to, real_pot, real_bet);
    candidate >= bet
}

/// Whether a candidate's pot fraction is the bet's.
pub open spec fn hits(gs: GameState, level: u32, to: u32, real_pot: u32, real_bet: u32) -> bool {
    let (candidate, bet) = scaled_shares(gs, level, to, real_pot, real_bet);
    candidate == bet
}

/// The first of the first `n` candidates whose pot fraction reaches the bet's.
pub open spec fn first_reaching(
    gs: GameState,
    cands: Seq<Candidate>,
    to: u32,
    real_pot: u32,
    real_bet: u32,
    n: nat,
) -> Option<usize>
    decreases n,
{
    if n == 0 {
        None
    } else {
        match first_reaching(gs, cands, to, real_pot, real_bet, (n - 1) as nat) {
            Some(i) => Some(i),
            None => if reaches(gs, cands[n - 1].level, to, real_pot, real_bet) {
                Some((n - 1) as usize)
            } else {
                None
            },
        }
    }
}

proof fn lemma_first_reaching(
    gs: GameState,
    cands: Seq<Candidate>,
    to: u32,
    real_pot: u32,
    real_bet: u32,
    n: nat,
    k: nat,
)
    requires
        k < n <= cands.len() <= usize::MAX,
        reaches(gs, cands[k as int].level, to, real_pot, real_bet),
        forall|j: int| 0 <= j < k ==> !reaches(
            gs,
            (#[trigger] cands[j]).level,
            to,
            real_pot,
            real_bet,
        ),
    ensures
        first_reaching(gs, cands, to, real_pot, real_bet, n) == Some(k as usize),
    decreases n,
{
    if k + 1 < n {
        lemma_first_reaching(gs, cands, to, real_pot, real_bet, (n - 1) as nat, k);
    } else {
        lemma_none_reaching(gs, cands, to, real_pot, real_bet, k);
    }
}

proof fn lemma_none_reaching(
    gs: GameState,
    cands: Seq<Candidate>,
    to: u32,
    real_pot: u32,
    real_bet: u32,
    n: nat,
)
    requires
        n <= cands.len(),
        forall|j: int| 0 <= j < n ==> !reaches(
            gs,
            (#[trigger] cands[j]).level,
            to,
            real_pot,
            real_bet,
        ),
    ensures
        first_reaching(gs, cands, to, real_pot, real_bet, n) is None,
    decreases n,
{
    if n > 0 {
        lemma_none_reaching(gs, cands, to, real_pot, real_bet, (n - 1) as nat);
        assert(!reaches(gs, cands[n - 1].level, to, real_pot, real_bet));
    }
}

/// The candidate that a bet lands on, of at least two: one of the two that
/// bracket it, `below` picking the lower.  A bet that is exactly an abstract
/// size lands on that size, whatever is drawn.
pub open spec fn landing(
    gs: GameState,
    cands: Seq<Candidate>,
    to: u32,
    real_pot: u32,
    real_bet: u32,
    below: bool,
) -> Candidate {
    let (lo, hi) = bracket_of(
        cands.len(),
        first_reaching(gs, cands, to, real_pot, real_bet, cands.len()),
    );
    if below && !hits(gs, cands[hi].level, to, real_pot, real_bet) {
        cands[lo]
    } else {
        cands[hi]
    }
}

/// How an observed action translates: a check to a check, else a call; a call
/// to a call, else a check; a fold to a fold; a bet to the candidate that it
/// lands on, to the only one there is, or — past the raise cap — to a call.
pub open spec fn map_model(
    gs: GameState,
    menu: Seq<Action>,
    cands: Seq<Candidate>,
    kind: EventKind,
    real_pot: u32,
    real_bet: u32,
    below: bool,
) -> MapOutcome {
    let check = first_of(menu, Action::Check);
    let call = first_where(menu, |a: Action| is_call(a));
    match kind {
        EventKind::Check => outcome_of(or_else(check, call)),
        EventKind::Call => outcome_of(or_else(call, check)),
        EventKind::Fold => outcome_of(first_of(menu, Action::Fold)),
        EventKind::BetTo(to) => if cands.len() == 0 {
            outcome_of(call)
        } else if cands.len() == 1 {
            MapOutcome::Index(cands[0].index as u8)
        } else {
            MapOutcome::Index(landing(gs, cands, to, real_pot, real_bet, below).index as u8)
        },
    }
}

/// Whether an action bets more than the current bet: a sized raise, or an all-in
/// to `max_bet` above it.
pub open spec fn outbids(a: Action, current_bet: u32, max_bet: u32) -> bool {
    a is Raise || a == Action::AllIn && max_bet > current_bet
}

proof fn lemma_candidates_outbid(menu: Seq<Action>, current_bet: u32, max_bet: u32, n: nat)
    requires
        n <= menu.len() <= usize::MAX,
    ensures
        forall|k: int|
            0 <= k < candidates(menu, current_bet, max_bet, n).len() ==> {
                let c = #[trigger] candidates(menu, current_bet, max_bet, n)[k];
                c.index < n && outbids(menu[c.index as int], current_bet, max_bet)
            },
        candidates(menu, current_bet, max_bet, n).len() > 0 <==> exists|k: int|
            0 <= k < n && outbids(#[trigger] menu[k], current_bet, max_bet),
    decreases n,
{
    if n > 0 {
        let shorter = candidates(menu, current_bet, max_bet, (n - 1) as nat);
        let longer = candidates(menu, current_bet, max_bet, n);
        lemma_candidates_outbid(menu, current_bet, max_bet, (n - 1) as nat);
        assert forall|k: int| 0 <= k < longer.len() implies {
            let c = #[trigger] longer[k];
            c.index < n && outbids(menu[c.index as int], current_bet, max_bet)
        } by {
            if k < shorter.len() {
                assert(longer[k] == shorter[k]);
            }
        }
        if outbids(menu[n - 1], current_bet, max_bet) {
            assert(longer.len() > 0);
        } else {
            assert(longer == shorter);
        }
    }
}

/// A real bet is never taken for a passive action while the menu offers an
/// aggressive one: it maps onto an action that bets more than the current bet,
/// whatever its size and whatever is drawn.  Without one it maps onto the call,
/// and is skipped where there is none.
pub proof fn law_bets_never_map_to_passive(
    gs: GameState,
    menu: Seq<Action>,
    max_bet: u32,
    to: u32,
    real_pot: u32,
    real_bet: u32,
    below: bool,
)
    requires
        menu.len() <= 256,
    ensures
        ({
            let cands = candidates(menu, gs.current_bet, max_bet, menu.len());
            let mapped = map_model(
                gs,
                menu,
                cands,
                EventKind::BetTo(to),
                real_pot,
                real_bet,
                below,
            );
            if exists|k: int| 0 <= k < menu.len() && outbids(#[trigger] menu[k], gs.current_bet, max_bet) {
                mapped matches MapOutcome::Index(i) && i < menu.len() && outbids(
                    menu[i as int],
                    gs.current_bet,
                    max_bet,
                )
            } else {
                mapped == outcome_of(first_where(menu, |a: Action| is_call(a)))
            }
        }),
{
    let cands = candidates(menu, gs.current_bet, max_bet, menu.len());
    lemma_candidates_outbid(menu, gs.current_bet, max_bet, menu.len());
    if cands.len() > 1 {
        lemma_reached_within(gs, cands, to, real_pot, real_bet, cands.len());
        let landed = landing(gs, cands, to, real_pot, real_bet, below);
        let (lo, hi) = bracket_of(
            cands.len(),
            first_reaching(gs, cands, to, real_pot, real_bet, cands.len()),
        );
        assert(landed == cands[lo] || landed == cands[hi]);
    }
}

proof fn lemma_reached_within(
    gs: GameState,
    cands: Seq<Candidate>,
    to: u32,
    real_pot: u32,
    real_bet: u32,
    n: nat,
)
    ensures
        first_reaching(gs, cands, to, real_pot, real_bet, n) matches Some(i) ==> i < n || n
            > usize::MAX,
    decreases n,
{
    if n > 0 {
        lemma_reached_within(gs, cands, to, real_pot, real_bet, (n - 1) as nat);
    }
}

/// A real bet whose pot fraction is exactly that of an abstract size maps onto
/// that size for every draw, as long as the sizes before it are smaller.
pub proof fn law_exact_sizes_map_to_themselves(
    gs: GameState,
    menu: Seq<Action>,
    cands: Seq<Candidate>,
    to: u32,
    real_pot: u32,
    real_bet: u32,
    below: bool,
    k: int,
)
    requires
        cands.len() <= usize::MAX,
        real_pot + real_bet > 0,
        0 <= k < cands.len(),
        hits(gs, cands[k].level, to, real_pot, real_bet),
        forall|j: int| 0 <= j < k ==> (#[trigger] cands[j]).level < cands[k].level,
    ensures
        map_model(gs, menu, cands, EventKind::BetTo(to), real_pot, real_bet, below)
            == MapOutcome::Index(cands[k].index as u8),
{
    assert forall|j: int| 0 <= j < k implies !reaches(
        gs,
        (#[trigger] cands[j]).level,
        to,
        real_pot,
        real_bet,
    ) by {
        let (x, y, r) = (
            cands[j].level - gs.current_bet,
            cands[k].level - gs.current_bet,
            real_pot + real_bet,
        );
        assert(x * r < y * r) by (nonlinear_arith)
            requires
                x < y,
                r > 0,
        ;
    }
    lemma_first_reaching(gs, cands, to, real_pot, real_bet, cands.len(), k as nat);
}

/// A real hand mirrored in the abstract blueprint game.
pub struct AbstractHand {
    /// Hole cards by engine seat: `0` = small blind / button, `1` = big blind.
    pub holes: [[u8; 2]; 2],
    pub board: [u8; 5],
    pub state: BlueprintState,
}

/// A history with the engine's state after each of its actions.
pub open spec fn retraced(history: Seq<u8>, after: Seq<GameState>) -> Seq<(u8, GameState)> {
    Seq::new(history.len(), |i: int| (history[i], after[i]))
}

/// Replaying retraces play: after one more action the replay comes to exactly
/// what [`AbstractHand::apply`] makes of what it came to before, and it keeps
/// the history.  So a hand whose board is revealed late keys like one that knew
/// it from the start.
pub proof fn law_replay_retraces_play(
    opening: GameState,
    history: Seq<u8>,
    after: Seq<GameState>,
    a: u8,
    next: GameState,
)
    requires
        after.len() == history.len(),
    ensures
        ({
            let before = node_after(opening, retraced(history, after));
            let further = node_after(opening, retraced(history.push(a), after.push(next)));
            &&& before.history == history
            &&& further.history == history.push(a)
            &&& further.gs == next
            &&& further.street_raises == raises_after(
                before.street_raises,
                before.gs.street,
                before.gs.current_bet,
                next,
            )
        }),
{
    let moves = retraced(history, after);
    let longer = retraced(history.push(a), after.push(next));
    assert(longer.drop_last() =~= moves);
    law_nodes_remember(opening, moves);
    assert(moves.map_values(|m: (u8, GameState)| m.0) =~= history);
}

impl AbstractHand {
    /// There is a hand, in a state that the engine can show.
    pub open spec fn wf(&self) -> bool {
        self.state.gs matches Some(gs) && gs.wf()
    }

    /// The abstract engine state.
    pub open spec fn now(&self) -> GameState {
        self.state.gs->0
    }

    /// Start a hand from the engine's opening state `gs` for these hole cards.
    pub fn new(holes: [[u8; 2]; 2], gs: GameState) -> (hand: AbstractHand)
        requires
            gs.wf(),
        ensures
            hand.wf(),
            hand.holes == holes,
            hand.board@ == seq![NO_CARD, NO_CARD, NO_CARD, NO_CARD, NO_CARD],
            hand.now() == gs,
            hand.state.history@ == Seq::<u8>::empty(),
            hand.state.street_raises == 0,
    {
        let board: [u8; 5] = [NO_CARD, NO_CARD, NO_CARD, NO_CARD, NO_CARD];
        assert(board@ =~= seq![NO_CARD, NO_CARD, NO_CARD, NO_CARD, NO_CARD]);
        AbstractHand {
            holes,
            board,
            state: BlueprintState { gs: Some(gs), history: Vec::new(), street_raises: 0 },
        }
    }

    /// Reveal board cards (cumulative list): note the board and re-pick the
    /// opponent placeholder, which a revealed card may have collided with.  The
    /// history is to be replayed from the opening state of the new cards.
    pub fn set_board(&mut self, board_cards: &[u8], my_seat: usize)
        requires
            my_seat < 2,
            board_cards@.len() <= 5,
        ensures
            final(self).board@ == padded_board(board_cards@),
            final(self).holes[my_seat as int] == old(self).holes[my_seat as int],
            lowest_spares(
                old(self).holes[my_seat as int]@ + final(self).board@,
                final(self).holes[1 - my_seat as int][0],
                final(self).holes[1 - my_seat as int][1],
            ),
            final(self).state == old(self).state,
    {
        self.board = pad_board(board_cards);
        self.holes = holes_with_placeholder(my_seat, self.holes[my_seat], &self.board);
    }

    /// Rebuild the state by replaying the history: `opening` is the engine's
    /// state for the new cards, `after` its state after each recorded action.
    pub fn replayed(&mut self, opening: GameState, after: &[GameState])
        requires
            old(self).wf(),
            opening.wf(),
            after@.len() == old(self).state.history@.len(),
            forall|i: int| 0 <= i < after@.len() ==> (#[trigger] after@[i]).wf(),
        ensures
            final(self).wf(),
            final(self).now() == node_after(opening, retraced(old(self).state.history@, after@)).gs,
            final(self).state.street_raises == node_after(
                opening,
                retraced(old(self).state.history@, after@),
            ).street_raises,
            final(self).state.history@ == old(self).state.history@,
            final(self).holes == old(self).holes,
            final(self).board == old(self).board,
    {
        let ghost moves = retraced(self.state.history@, after@);
        let mut gs: GameState = opening;
        let mut street_raises: u8 = 0;
        let mut i: usize = 0;
        assert(moves.take(0) =~= Seq::<(u8, GameState)>::empty());
        while i < after.len()
            invariant
                i <= after@.len() == moves.len(),
                moves == retraced(self.state.history@, after@),
                forall|k: int| 0 <= k < after@.len() ==> (#[trigger] after@[k]).wf(),
                gs.wf(),
                gs == node_after(opening, moves.take(i as int)).gs,
                street_raises == node_after(opening, moves.take(i as int)).street_raises,
            decreases after@.len() - i,
        {
            let next: GameState = after[i];
            street_raises = BlueprintHoldem::next_raises(
                street_raises,
                gs.street,
                gs.current_bet,
                &next,
            );
            gs = next;
            i += 1;
            assert(moves.take(i as int).drop_last() =~= moves.take(i - 1));
        }
        assert(moves.take(i as int) =~= moves);
        self.state.gs = Some(gs);
        self.state.street_raises = street_raises;
    }

    /// Apply an abstract action by menu index, which takes the engine to `next`.
    pub fn apply(&mut self, index: u8, next: GameState)
        requires
            old(self).wf(),
            next.wf(),
        ensures
            final(self).wf(),
            final(self).now() == next,
            final(self).state.history@ == old(self).state.history@.push(index),
            final(self).state.street_raises == raises_after(
                old(self).state.street_raises,
                old(self).now().street,
                old(self).now().current_bet,
                next,
            ),
            final(self).holes == old(self).holes,
            final(self).board == old(self).board,
    {
        match self.state.gs {
            Some(gs) => {
                self.state.street_raises = BlueprintHoldem::next_raises(
                    self.state.street_raises,
                    gs.street,
                    gs.current_bet,
                    &next,
                );
            },
            None => {},
        }
        self.state.gs = Some(next);
        self.state.history.push(index);
    }

    /// The capped abstract action menu at the current node, where the engine
    /// allows `full`.
    pub fn actions(&self, game: &BlueprintHoldem, full: &[Action]) -> (menu: Vec<Action>)
        requires
            self.wf(),
        ensures
            menu@ == capped_menu(full@, self.state.street_raises, game.raise_cap),
    {
        game.actions(&self.state, full)
    }

    /// The abstract engine state.
    pub fn gs(&self) -> (gs: &GameState)
        requires
            self.wf(),
        ensures
            *gs == self.now(),
    {
        self.state.gs.as_ref().unwrap()
    }

    /// Information key of the acting player with its dealt cards, of which the
    /// card abstraction says `class`, `mapped` and `raw` (only meaningful when
    /// **we** act — the opponent's dealt cards are placeholders).
    pub fn info_key(&self, game: &BlueprintHoldem, class: u64, mapped: Option<u32>, raw: u64) -> (key: u64)
        requires
            self.wf(),
            self.now().visible == 0 || 3 <= self.now().visible,
        ensures
            key == game.node_key(self.state, class, mapped, raw),
    {
        game.info_key_with_hole(&self.state, class, mapped, raw)
    }

    /// Information key that the acting player would have with a hand of which
    /// the card abstraction says `class`, `mapped` and `raw` — the likelihood
    /// primitive for belief updates.
    pub fn key_with_hole(&self, game: &BlueprintHoldem, class: u64, mapped: Option<u32>, raw: u64) -> (key:
        u64)
        requires
            self.wf(),
            self.now().visible == 0 || 3 <= self.now().visible,
        ensures
            key == game.node_key(self.state, class, mapped, raw),
    {
        game.info_key_with_hole(&self.state, class, mapped, raw)
    }

    /// Whether the abstract hand has reached a terminal.
    pub fn is_terminal(&self) -> (over: bool)
        requires
            self.wf(),
        ensures
            over == self.now().terminal,
    {
        match &self.state.gs {
            Some(gs) => gs.terminal,
            None => false,
        }
    }

    /// True when the abstract node expects `seat` to act on `street` — the
    /// desync guard consulted before every translation.
    pub fn expects(&self, seat: usize, street: u8) -> (expected: bool)
        requires
            self.wf(),
        ensures
            expected == (!self.now().terminal && self.now().to_act == seat && self.now().street
                == street),
    {
        match &self.state.gs {
            Some(gs) => !gs.terminal && gs.to_act as usize == seat && gs.street == street,
            None => false,
        }
    }

    /// The level that the player to act reaches all-in.
    pub open spec fn max_bet(&self) -> int {
        let actor = self.now().to_act as int;
        self.now().stacks[actor] + self.now().street_bets[actor]
    }

    /// The aggressive candidates of a menu; see [`candidates`].
    pub open spec fn menu_candidates(&self, menu: Seq<Action>) -> Seq<Candidate> {
        candidates(menu, self.now().current_bet, self.max_bet() as u32, menu.len())
    }

    /// The aggressive candidates of a menu, in ascending order of size as the
    /// menu lists them.
    pub fn bet_candidates(&self, menu: &[Action]) -> (cands: Vec<Candidate>)
        requires
            self.wf(),
            self.max_bet() <= u32::MAX,
        ensures
            cands@ == self.menu_candidates(menu@),
            forall|k: int|
                0 <= k < cands@.len() ==> (#[trigger] cands@[k]).index < menu@.len()
                    && is_aggressive(menu@[cands@[k].index as int]),
    {
        let mut cands: Vec<Candidate> = Vec::new();
        match &self.state.gs {
            Some(gs) => {
                let actor: usize = gs.to_act as usize;
                let max_bet: u32 = gs.stacks[actor] + gs.street_bets[actor];
                let mut i: usize = 0;
                while i < menu.len()
                    invariant
                        i <= menu@.len(),
                        gs == self.state.gs->0,
                        cands@ == candidates(menu@, gs.current_bet, max_bet, i as nat),
                    decreases menu@.len() - i,
                {
                    match menu[i] {
                        Action::Raise(level) => {
                            cands.push(Candidate { index: i, level });
                        },
                        Action::AllIn => {
                            if max_bet > gs.current_bet {
                                cands.push(Candidate { index: i, level: max_bet });
                            }
                        },
                        _ => {},
                    }
                    i += 1;
                }
                proof {
                    lemma_candidates_outbid(menu@, gs.current_bet, max_bet, menu@.len());
                }
            },
            None => {},
        }
        cands
    }

    /// The two fractions of [`scaled_shares`].
    fn shares(&self, level: u32, to: u32, real_pot: u32, real_bet: u32) -> (scaled: (i128, i128))
        requires
            self.wf(),
        ensures
            (scaled.0 as int, scaled.1 as int) == scaled_shares(
                self.now(),
                level,
                to,
                real_pot,
                real_bet,
            ),
    {
        let gs: &GameState = self.gs();
        let (a, b): (i128, i128) = (
            level as i128 - gs.current_bet as i128,
            real_pot as i128 + real_bet as i128,
        );
        let (c, d): (i128, i128) = (
            to as i128 - real_bet as i128,
            gs.pot as i128 + gs.current_bet as i128,
        );
        assert(-0x1_0000_0000_0000_0000_0000 < a * b < 0x1_0000_0000_0000_0000_0000)
            by (nonlinear_arith)
            requires
                -0x1_0000_0000 < a < 0x1_0000_0000,
                0 <= b < 0x2_0000_0000,
        ;
        assert(-0x1_0000_0000_0000_0000_0000 < c * d < 0x1_0000_0000_0000_0000_0000)
            by (nonlinear_arith)
            requires
                -0x1_0000_0000 < c < 0x1_0000_0000,
                0 <= d < 0x2_0000_0000,
        ;
        (a * b, c * d)
    }

    /// The neighbouring candidates that bracket a real bet to `to`, made over
    /// the level `real_bet` into the pot `real_pot`.  The same where the bet is
    /// below the smallest or above the largest.
    pub fn bet_bracket(&self, cands: &[Candidate], to: u32, real_pot: u32, real_bet: u32) -> (places: (
        usize,
        usize,
    ))
        requires
            self.wf(),
            cands@.len() > 0,
        ensures
            (places.0 as int, places.1 as int) == bracket_of(
                cands@.len(),
                first_reaching(self.now(), cands@, to, real_pot, real_bet, cands@.len()),
            ),
            places.0 <= places.1 < cands@.len(),
    {
        let mut i: usize = 0;
        while i < cands.len()
            invariant
                i <= cands@.len(),
                self.wf(),
                first_reaching(self.now(), cands@, to, real_pot, real_bet, i as nat) is None,
                forall|j: int|
                    0 <= j < i ==> !reaches(
                        self.now(),
                        (#[trigger] cands@[j]).level,
                        to,
                        real_pot,
                        real_bet,
                    ),
            decreases cands@.len() - i,
        {
            let (candidate, bet): (i128, i128) = self.shares(cands[i].level, to, real_pot, real_bet);
            if candidate >= bet {
                proof {
                    lemma_first_reaching(
                        self.now(),
                        cands@,
                        to,
                        real_pot,
                        real_bet,
                        cands@.len(),
                        i as nat,
                    );
                }
                return bracket(cands.len(), Some(i));
            }
            i += 1;
        }
        bracket(cands.len(), None)
    }

    /// Translate one observed **real** action into an abstract action index.
    ///
    /// A bet is made over the level `real_bet` into the pot `real_pot`, and
    /// `below` says whether the randomized mapping picks the lower neighbour.
    /// Pot fractions are compared exactly.
    pub fn map_real(
        &self,
        menu: &[Action],
        kind: EventKind,
        real_pot: u32,
        real_bet: u32,
        below: bool,
    ) -> (o: MapOutcome)
        requires
            self.wf(),
            self.max_bet() <= u32::MAX,
            menu@.len() <= 256,
        ensures
            o == map_model(
                self.now(),
                menu@,
                self.menu_candidates(menu@),
                kind,
                real_pot,
                real_bet,
                below,
            ),
            kind is BetTo && self.menu_candidates(menu@).len() > 0 ==> o is Index && o->Index_0
                < menu@.len() && is_aggressive(menu@[o->Index_0 as int]),
    {
        let width: usize = menu.len();
        assert(width == menu@.len());
        match kind {
            EventKind::Check => {
                let check: Option<usize> = find_action(menu, Action::Check);
                match check {
                    Some(_) => outcome(check),
                    None => outcome(find_call(menu)),
                }
            },
            EventKind::Call => {
                let call: Option<usize> = find_call(menu);
                match call {
                    Some(_) => outcome(call),
                    None => outcome(find_action(menu, Action::Check)),
                }
            },
            EventKind::Fold => outcome(find_action(menu, Action::Fold)),
            EventKind::BetTo(to) => {
                let cands: Vec<Candidate> = self.bet_candidates(menu);
                if cands.len() == 0 {
                    outcome(find_call(menu))
                } else if cands.len() == 1 {
                    MapOutcome::Index(cands[0].index as u8)
                } else {
                    let (lo, hi): (usize, usize) = self.bet_bracket(
                        cands.as_slice(),
                        to,
                        real_pot,
                        real_bet,
                    );
                    let (candidate, bet): (i128, i128) = self.shares(
                        cands[hi].level,
                        to,
                        real_pot,
                        real_bet,
                    );
                    let place: usize = if below && candidate != bet { lo } else { hi };
                    MapOutcome::Index(cands[place].index as u8)
                }
            },
        }
    }
}

/// The board slots that `cards` fill, the rest empty.
pub open spec fn padded_board(cards: Seq<u8>) -> Seq<u8> {
    Seq::new(5, |i: int| if i < cards.len() { cards[i] } else { NO_CARD })
}

/// The board slots that `cards` fill, the rest empty.
pub fn pad_board(cards: &[u8]) -> (board: [u8; 5])
    requires
        cards@.len() <= 5,
    ensures
        board@ == padded_board(cards@),
{
    let mut board: [u8; 5] = [NO_CARD, NO_CARD, NO_CARD, NO_CARD, NO_CARD];
    let mut i: usize = 0;
    while i < cards.len()
        invariant
            i <= cards@.len() <= 5,
            forall|k: int| 0 <= k < 5 ==> #[trigger] board@[k] == if k < i {
                cards@[k]
            } else {
                NO_CARD
            },
        decreases cards@.len() - i,
    {
        board[i] = cards[i];
        i += 1;
    }
    assert(board@ =~= padded_board(cards@));
    board
}

/// The raise size that is really bet for a wished size: at least the minimum,
/// at most what remains.
pub open spec fn clamped_size(wished: i64, min: u32, remaining: u32) -> u32 {
    let floored = if wished > min { wished } else { min as i64 };
    if floored < remaining {
        floored as u32
    } else {
        remaining
    }
}

/// How one of our abstract actions is played in the real game.
///
/// `facing` says whether there is an outstanding real bet to call; `wished` is
/// the size that an abstract raise comes to by pot fraction.
pub open spec fn real_move(
    gs: GameState,
    action: Action,
    wished: i64,
    real_bet: u32,
    facing: bool,
    min: u32,
    remaining: u32,
) -> RealMove {
    let passive = if facing {
        RealMove::Call
    } else {
        RealMove::Check
    };
    let actor = gs.to_act as int;
    match action {
        Action::Fold => if facing {
            RealMove::Fold
        } else {
            RealMove::Check
        },
        Action::Check => passive,
        Action::Call => passive,
        Action::Raise(_) => RealMove::BetTo(
            (real_bet + clamped_size(wished, min, remaining)) as u32,
        ),
        Action::AllIn => if gs.stacks[actor] + gs.street_bets[actor] <= gs.current_bet || remaining
            == 0 {
            passive
        } else {
            RealMove::BetTo((real_bet + remaining) as u32)
        },
    }
}

impl AbstractHand {
    /// Translate one of our abstract actions into a real-game move, expressed in
    /// real chips.  `real_bet` is the outstanding real street bet level, `facing`
    /// whether there is an outstanding bet to call (NOT derivable from `real_bet`
    /// alone: the big blind's option after a limp has a bet level but nothing to
    /// call), `min` the minimum legal raise size, and `remaining` the raise size
    /// that puts the actor all-in.
    pub fn abstract_to_real(
        &self,
        action: Action,
        wished: i64,
        real_bet: u32,
        facing: bool,
        min: u32,
        remaining: u32,
    ) -> (mv: RealMove)
        requires
            self.wf(),
            self.max_bet() <= u32::MAX,
            real_bet + remaining <= u32::MAX,
        ensures
            mv == real_move(self.now(), action, wished, real_bet, facing, min, remaining),
    {
        let passive: RealMove = if facing {
            RealMove::Call
        } else {
            RealMove::Check
        };
        match action {
            Action::Fold => {
                if facing {
                    RealMove::Fold
                } else {
                    RealMove::Check
                }
            },
            Action::Check => passive,
            Action::Call => passive,
            Action::Raise(_) => {
                let floored: i64 = if wished > min as i64 { wished } else { min as i64 };
                let size: u32 = if floored < remaining as i64 { floored as u32 } else { remaining };
                RealMove::BetTo(real_bet + size)
            },
            Action::AllIn => {
                let gs: &GameState = self.gs();
                let actor: usize = gs.to_act as usize;
                if gs.stacks[actor] + gs.street_bets[actor] <= gs.current_bet || remaining == 0 {
                    passive
                } else {
                    RealMove::BetTo(real_bet + remaining)
                }
            },
        }
    }
}

} // verus!
