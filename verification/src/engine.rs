//! What the library reads of the poker engine: its actions and, as plain
//! values, the public state of a heads-up hand.
//!
//! The engine itself — which actions are legal, what an action does to the
//! chips, who wins a showdown — is outside the library.  Whoever drives the
//! engine hands the library these values and takes back decisions.

use vstd::prelude::*;

verus! {

/// In place of a card: the board slot is not dealt.
pub const NO_CARD: u8 = 0xFF;

/// Cards of a deck, numbered `rank << 2 | suit`.
pub const DECK_SIZE: u8 = 52;

/// A betting action of the engine.
#[derive(Debug, Clone, Copy, PartialEq, Eq, Structural)]
pub enum Action {
    Fold,
    Check,
    Call,
    /// Raise **to** this street-bet level.
    Raise(u32),
    AllIn,
}

/// The state of a heads-up hand, seat by seat.
#[derive(Debug, Clone, Copy, PartialEq, Eq)]
pub struct GameState {
    /// `0..=3`, preflop to river.
    pub street: u8,
    /// Both players' chips together.
    pub pot: u32,
    /// The level to match on this street.
    pub current_bet: u32,
    /// The smallest legal raise size.
    pub min_raise: u32,
    /// The seat to act.
    pub to_act: u8,
    /// Chips behind, by seat.
    pub stacks: [u32; 2],
    /// Chips put in on this street, by seat.
    pub street_bets: [u32; 2],
    /// Chips put in over the hand, by seat.
    pub total_committed: [u32; 2],
    /// Hole cards, by seat.
    pub hole_cards: [[u8; 2]; 2],
    /// The board, [`NO_CARD`] where not dealt.
    pub board: [u8; 5],
    /// Seats that have folded, one bit each.
    pub folded: u8,
    /// Seats that are all-in, one bit each.
    pub allin: u8,
    /// Players still to act on this street.
    pub players_to_act: u8,
    /// The seat that bet or raised last.
    pub last_aggressor: u8,
    /// Board cards that the current street shows.
    pub visible: u8,
    /// Whether the hand is over.
    pub terminal: bool,
}

/// A card number, or an empty slot.
pub open spec fn card_or_none(card: u8) -> bool {
    card < DECK_SIZE || card == NO_CARD
}

impl GameState {
    /// Two seats, real cards, and no more board than there is.
    pub open spec fn wf(&self) -> bool {
        &&& self.street < 4
        &&& self.to_act < 2
        &&& self.visible <= 5
        &&& forall|i: int| 0 <= i < 5 ==> card_or_none(#[trigger] self.board@[i])
    }

    /// Whether the state is one that an engine can show; see [`GameState::wf`].
    pub fn is_wf(&self) -> (ok: bool)
        ensures
            ok == self.wf(),
    {
        let mut i: usize = 0;
        while i < 5
            invariant
                i <= 5,
                forall|k: int| 0 <= k < i ==> card_or_none(#[trigger] self.board@[k]),
            decreases 5 - i,
        {
            if !(self.board[i] < DECK_SIZE || self.board[i] == NO_CARD) {
                assert(!card_or_none(self.board@[i as int]));
                return false;
            }
            i += 1;
        }
        self.street < 4 && self.to_act < 2 && self.visible <= 5
    }

    /// The seat to act.
    pub fn current_player(&self) -> (seat: usize)
        ensures
            seat == self.to_act,
    {
        self.to_act as usize
    }

    /// Whether the hand is over.
    pub fn is_terminal(&self) -> (over: bool)
        ensures
            over == self.terminal,
    {
        self.terminal
    }

    /// Board cards that the current street shows.
    pub fn board_cards_count(&self) -> (count: usize)
        ensures
            count == self.visible,
    {
        self.visible as usize
    }
}

/// A sound state has one of four streets and one of two seats to act, shows at
/// most five board cards, and each board slot holds a card of 52 or is empty.
pub proof fn law_sound_states(gs: GameState)
    ensures
        gs.wf() <==> gs.street <= 3 && gs.to_act <= 1 && gs.visible <= 5 && forall|i: int|
            0 <= i < 5 ==> (#[trigger] gs.board@[i]) <= 51 || gs.board@[i] == 255,
{
    if gs.wf() {
        assert forall|i: int| 0 <= i < 5 implies (#[trigger] gs.board@[i]) <= 51 || gs.board@[i]
            == 255 by {
            assert(card_or_none(gs.board@[i]));
        }
    }
}

} // verus!
