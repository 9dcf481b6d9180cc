//! Sampled, card-abstracted heads-up hold'em: the blueprint's game.
//!
//! * **Sampled chance.**  A deal is a partial Fisher–Yates shuffle
//!   ([`deal_cards`]): nine distinct cards, whatever the draws.
//! * **Betting abstraction.**  A cap on raises per street bounds the tree
//!   ([`BlueprintHoldem::capped_legal_at`],
//!   [`BlueprintHoldem::next_raises`]).
//! * **Card abstraction in the key.**  Information sets are keyed on the bucket
//!   of a situation, not on raw cards ([`keys`]), and numbered densely
//!   ([`indexing`]).

pub mod cursor;
pub mod deal_laws;
pub mod indexing;
pub mod keys;
pub mod walk;

use crate::engine::{Action, GameState};
use indexing::Indexing;
use vstd::prelude::*;

verus! {

/// Number of cards consumed by a heads-up deal: 2 hole cards each + 5 board.
pub const DEAL_CARDS: usize = 9;

/// Whether an action is a sized raise.
pub open spec fn is_sized_raise(a: Action) -> bool {
    a is Raise
}

/// The menu that the raise cap leaves: everything below the cap, everything
/// but sized raises from the cap on.
pub open spec fn capped_menu(full: Seq<Action>, street_raises: u8, raise_cap: u32) -> Seq<Action> {
    if street_raises < raise_cap {
        full
    } else {
        full.filter(|a: Action| !is_sized_raise(a))
    }
}

/// At the cap no sized raise remains, and every other action — the all-in
/// above all — does: aggression always has a landing spot.
pub proof fn law_cap_keeps_all_in(full: Seq<Action>, street_raises: u8, raise_cap: u32, a: Action)
    ensures
        street_raises >= raise_cap && capped_menu(full, street_raises, raise_cap).contains(a)
            ==> !is_sized_raise(a),
        full.contains(a) && !is_sized_raise(a) ==> capped_menu(
            full,
            street_raises,
            raise_cap,
        ).contains(a),
        capped_menu(full, street_raises, raise_cap).contains(a) ==> full.contains(a),
{
    let keep = |x: Action| !is_sized_raise(x);
    broadcast use vstd::seq_lib::group_filter_ensures;

    let menu = full.filter(keep);
    if menu.contains(a) {
        let i = choose|i: int| 0 <= i < menu.len() && menu[i] == a;
        assert(keep(menu[i]));
        lemma_filter_from(full, keep, i);
    }
    if full.contains(a) && !is_sized_raise(a) {
        let i = choose|i: int| 0 <= i < full.len() && full[i] == a;
        assert(keep(full[i]));
    }
}

proof fn lemma_filter_from(s: Seq<Action>, keep: spec_fn(Action) -> bool, i: int)
    requires
        0 <= i < s.filter(keep).len(),
    ensures
        s.contains(s.filter(keep)[i]),
    decreases s.len(),
{
    reveal(Seq::filter);
    if s.len() > 0 {
        let shorter = s.drop_last();
        if i < shorter.filter(keep).len() {
            lemma_filter_from(shorter, keep, i);
            let k = choose|k: int| 0 <= k < shorter.len() && shorter[k] == shorter.filter(keep)[i];
            assert(s[k] == s.filter(keep)[i]);
        } else {
            assert(s[s.len() - 1] == s.filter(keep)[i]);
        }
    }
}

/// Raises on the current street after an action took the hand from
/// `old_street`/`old_bet` to the present state: reset on a street change, +1
/// when the bet level rose (a raise or all-in-raise), unchanged otherwise.
pub open spec fn raises_after(prev: u8, old_street: u8, old_bet: u32, gs: GameState) -> u8 {
    if gs.street != old_street {
        0
    } else if gs.current_bet > old_bet && prev < 255 {
        (prev + 1) as u8
    } else {
        prev
    }
}

/// The cards of one deal.
#[derive(Debug, Clone, Copy, PartialEq, Eq)]
pub struct DealtCards {
    /// Hole cards, by seat.
    pub holes: [[u8; 2]; 2],
    pub board: [u8; 5],
}

impl DealtCards {
    /// The nine cards in the order dealt.
    pub open spec fn cards(&self) -> Seq<u8> {
        self.holes[0]@ + self.holes[1]@ + self.board@
    }
}

/// The deck in card order.
pub open spec fn fresh_deck() -> Seq<u8> {
    Seq::new(52, |i: int| i as u8)
}

/// Where the `i`-th draw swaps from: `draw` places further on, at most the
/// last card.
pub open spec fn swap_place(i: int, draw: int) -> int {
    if i + draw < 51 {
        i + draw
    } else {
        51
    }
}

/// The deck after the first `k` swaps of a Fisher–Yates shuffle with the given
/// draws.
pub open spec fn shuffled(draws: Seq<usize>, k: nat) -> Seq<u8>
    decreases k,
{
    if k == 0 {
        fresh_deck()
    } else {
        let deck = shuffled(draws, (k - 1) as nat);
        let j = swap_place(k - 1, draws[k - 1] as int);
        deck.update(k - 1, deck[j]).update(j, deck[k - 1])
    }
}

/// A shuffled deck still holds 52 distinct cards.
pub proof fn law_shuffle_keeps_the_deck(draws: Seq<usize>, k: nat)
    requires
        k <= DEAL_CARDS,
        k <= draws.len(),
    ensures
        shuffled(draws, k).len() == 52,
        forall|i: int| 0 <= i < 52 ==> (#[trigger] shuffled(draws, k)[i]) < 52,
        shuffled(draws, k).no_duplicates(),
    decreases k,
{
    if k > 0 {
        law_shuffle_keeps_the_deck(draws, (k - 1) as nat);
    }
}

/// Deal both hands and the full board from a freshly shuffled deck.  The
/// `i`-th draw says how far behind the top of the undealt cards the next card
/// lies.
pub fn deal_cards(draws: &[usize]) -> (deal: DealtCards)
    requires
        draws@.len() == DEAL_CARDS,
    ensures
        deal.cards() == shuffled(draws@, DEAL_CARDS as nat).take(DEAL_CARDS as int),
        deal.cards().no_duplicates(),
        forall|i: int| 0 <= i < DEAL_CARDS ==> (#[trigger] deal.cards()[i]) < 52,
        forall|i: int|
            0 <= i < 2 ==> {
                &&& (#[trigger] deal.holes@[0]@[i]) == shuffled(draws@, 9)[i]
                &&& deal.holes@[1]@[i] == shuffled(draws@, 9)[2 + i]
            },
        forall|i: int| 0 <= i < 5 ==> (#[trigger] deal.board@[i]) == shuffled(draws@, 9)[4 + i],
{
    let mut deck: Vec<u8> = Vec::new();
    let mut c: u8 = 0;
    while c < 52
        invariant
            c <= 52,
            deck@.len() == c,
            forall|i: int| 0 <= i < c ==> deck@[i] == i,
        decreases 52 - c,
    {
        deck.push(c);
        c += 1;
    }
    assert(deck@ =~= fresh_deck());
    let mut i: usize = 0;
    while i < DEAL_CARDS
        invariant
            i <= DEAL_CARDS,
            draws@.len() == DEAL_CARDS,
            deck@ == shuffled(draws@, i as nat),
            deck@.len() == 52,
        decreases DEAL_CARDS - i,
    {
        let draw: usize = draws[i];
        let j: usize = if draw < 51 - i { i + draw } else { 51 };
        let upper: u8 = deck[i];
        let lower: u8 = deck[j];
        deck.set(i, lower);
        deck.set(j, upper);
        i += 1;
    }
    proof {
        law_shuffle_keeps_the_deck(draws@, DEAL_CARDS as nat);
    }
    let deal = DealtCards {
        holes: [[deck[0], deck[1]], [deck[2], deck[3]]],
        board: [deck[4], deck[5], deck[6], deck[7], deck[8]],
    };
    assert(deal.cards() =~= deck@.take(DEAL_CARDS as int));
    deal
}

/// A node of the game: the pre-deal chance root (`gs == None`) or a play node
/// with its perfect-recall action history.
#[derive(Debug, Clone)]
pub struct BlueprintState {
    pub gs: Option<GameState>,
    pub history: Vec<u8>,
    /// Raises made so far on the **current** street (resets each street).
    pub street_raises: u8,
}

/// A heads-up game with sampled deals and per-street card abstraction.
pub struct BlueprintHoldem {
    /// Each player's stack at the start of a hand.
    pub stack: u32,
    pub big_blind: u32,
    pub small_blind: u32,
    pub button: u8,
    /// Buckets of the card abstraction on `flop = 0, turn = 1, river = 2`;
    /// `None` ⇒ that street is unabstracted.
    pub street_buckets: [Option<u32>; 3],
    /// Maximum number of **raises per street**; `u32::MAX` means uncapped.
    pub raise_cap: u32,
    /// The dense information-set index, once built.
    pub indexing: Option<Indexing>,
}

impl BlueprintHoldem {
    /// A game with equal starting stacks and no card abstraction loaded.
    pub fn new(stack: u32, big_blind: u32, small_blind: u32, button: u8) -> (game: Self)
        ensures
            game.stack == stack,
            game.big_blind == big_blind,
            game.small_blind == small_blind,
            game.button == button,
            game.street_buckets@ == seq![None::<u32>, None::<u32>, None::<u32>],
            game.raise_cap == u32::MAX,
            game.indexing is None,
    {
        let game = BlueprintHoldem {
            stack,
            big_blind,
            small_blind,
            button,
            street_buckets: [None, None, None],
            raise_cap: u32::MAX,
            indexing: None,
        };
        assert(game.street_buckets@ =~= seq![None::<u32>, None::<u32>, None::<u32>]);
        game
    }

    /// Attach a street's card abstraction (`flop = 0, turn = 1, river = 2`) of
    /// `buckets` buckets.
    pub fn with_street_bucket(self, street: usize, buckets: u32) -> (game: Self)
        requires
            street < 3,
        ensures
            game.street_buckets@ == self.street_buckets@.update(street as int, Some(buckets)),
            game.stack == self.stack,
            game.big_blind == self.big_blind,
            game.small_blind == self.small_blind,
            game.button == self.button,
            game.raise_cap == self.raise_cap,
            game.indexing == self.indexing,
    {
        let mut game = self;
        game.street_buckets[street] = Some(buckets);
        game
    }

    /// Cap the betting abstraction at `cap` raises per street.  `0` is treated
    /// as `1` (at least the opening raise must stay legal or the tree
    /// degenerates to check/call only).
    pub fn with_raise_cap(self, cap: u32) -> (game: Self)
        ensures
            game == (BlueprintHoldem { raise_cap: if cap == 0 { 1 } else { cap }, ..self }),
    {
        let raise_cap: u32 = if cap == 0 { 1 } else { cap };
        BlueprintHoldem { raise_cap, ..self }
    }

    /// The raise-cap filter: once `street_raises` reaches the cap, sized raises are
    /// removed, leaving fold / check / call / all-in.
    ///
    /// `AllIn` survives the cap deliberately.  It is the only *absorbing* aggressive
    /// action — once it is called, neither player can raise again — so keeping it
    /// means a raise war always has a terminating node and every real bet, however
    /// large and however deep in the war, has somewhere to map.
    pub fn capped_legal_at(full: &[Action], street_raises: u8, raise_cap: u32) -> (menu: Vec<Action>)
        ensures
            menu@ == capped_menu(full@, street_raises, raise_cap),
    {
        let capped: bool = street_raises as u32 >= raise_cap;
        let ghost keep = |a: Action| !is_sized_raise(a);
        let mut menu: Vec<Action> = Vec::new();
        let mut i: usize = 0;
        proof {
            reveal(Seq::filter);
        }
        while i < full.len()
            invariant
                i <= full@.len(),
                keep == |a: Action| !is_sized_raise(a),
                !capped ==> menu@ == full@.take(i as int),
                capped ==> menu@ == full@.take(i as int).filter(keep),
            decreases full@.len() - i,
        {
            let a: Action = full[i];
            let sized: bool = match a {
                Action::Raise(_) => true,
                _ => false,
            };
            if !(capped && sized) {
                menu.push(a);
            }
            i += 1;
            proof {
                reveal(Seq::filter);
                assert(full@.take(i as int).drop_last() =~= full@.take(i - 1));
                assert(full@.take(i as int) =~= full@.take(i - 1).push(a));
            }
        }
        assert(full@.take(i as int) =~= full@);
        menu
    }

    /// Raises on the current street after an action; see [`raises_after`].
    pub fn next_raises(prev: u8, old_street: u8, old_bet: u32, gs: &GameState) -> (raises: u8)
        ensures
            raises == raises_after(prev, old_street, old_bet, *gs),
    {
        if gs.street != old_street {
            0
        } else if gs.current_bet > old_bet && prev < 255 {
            prev + 1
        } else {
            prev
        }
    }

    /// The counter of raises on the street, as [`next_raises`] moves it.
    ///
    /// [`next_raises`]: BlueprintHoldem::next_raises
    pub fn raises_after(&self, prev: u8, old_street: u8, old_bet: u32, gs: &GameState) -> (raises: u8)
        ensures
            raises == raises_after(prev, old_street, old_bet, *gs),
    {
        Self::next_raises(prev, old_street, old_bet, gs)
    }

    /// The capped legal actions where the engine allows `full` after
    /// `street_raises` raises on the street.
    pub fn capped_actions(&self, full: &[Action], street_raises: u8) -> (menu: Vec<Action>)
        ensures
            menu@ == capped_menu(full@, street_raises, self.raise_cap),
    {
        Self::capped_legal_at(full, street_raises, self.raise_cap)
    }

    /// The capped legal actions at a play node where the engine allows `full` —
    /// the very list whose indices [`apply`](BlueprintHoldem::apply) takes and
    /// the history records.
    pub fn actions(&self, state: &BlueprintState, full: &[Action]) -> (menu: Vec<Action>)
        requires
            state.gs is Some,
        ensures
            menu@ == capped_menu(full@, state.street_raises, self.raise_cap),
    {
        Self::capped_legal_at(full, state.street_raises, self.raise_cap)
    }

    /// The engine state of a play node (pot, bets, street).
    pub fn game_state<'s>(&self, state: &'s BlueprintState) -> (gs: &'s GameState)
        requires
            state.gs is Some,
        ensures
            *gs == state.gs->0,
    {
        state.gs.as_ref().unwrap()
    }

    /// The big blind in the game's chip units.
    pub fn big_blind_chips(&self) -> (chips: u32)
        ensures
            chips == self.big_blind,
    {
        self.big_blind
    }

    /// The per-player starting stack in chips.
    pub fn stack_chips(&self) -> (chips: u32)
        ensures
            chips == self.stack,
    {
        self.stack
    }

    /// The pre-deal chance node.
    pub fn root(&self) -> (state: BlueprintState)
        ensures
            state.gs is None,
            state.history@ == Seq::<u8>::empty(),
            state.street_raises == 0,
    {
        BlueprintState { gs: None, history: Vec::new(), street_raises: 0 }
    }

    /// The play node of a fresh hand, as the engine deals it.
    pub fn play_state(&self, gs: GameState) -> (state: BlueprintState)
        ensures
            state.gs == Some(gs),
            state.history@ == Seq::<u8>::empty(),
            state.street_raises == 0,
    {
        BlueprintState { gs: Some(gs), history: Vec::new(), street_raises: 0 }
    }

    /// Whether the hand is over at `state`.
    pub fn is_terminal(&self, state: &BlueprintState) -> (over: bool)
        ensures
            over == (state.gs is Some && state.gs->0.terminal),
    {
        match &state.gs {
            Some(gs) => gs.terminal,
            None => false,
        }
    }

    /// Whether `state` is the pre-deal chance node.
    pub fn is_chance(&self, state: &BlueprintState) -> (chance: bool)
        ensures
            chance == (state.gs is None),
    {
        state.gs.is_none()
    }

    /// The node after the action with index `action` in the capped menu, which
    /// takes the engine to `next`.
    pub fn apply(&self, state: &BlueprintState, action: u8, next: GameState) -> (after: BlueprintState)
        requires
            state.gs is Some,
        ensures
            after.gs == Some(next),
            after.history@ == state.history@.push(action),
            after.street_raises == raises_after(
                state.street_raises,
                state.gs->0.street,
                state.gs->0.current_bet,
                next,
            ),
    {
        let mut history: Vec<u8> = state.history.clone();
        history.push(action);
        let street_raises: u8 = match &state.gs {
            Some(gs) => Self::next_raises(state.street_raises, gs.street, gs.current_bet, &next),
            None => 0,
        };
        BlueprintState { gs: Some(next), history, street_raises }
    }
}

} // verus!
