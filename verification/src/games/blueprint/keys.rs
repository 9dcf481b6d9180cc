//! Information keys: how a `(player, cards, board, history)` situation becomes
//! the `u64` that the solver keys on.

use super::{BlueprintHoldem, BlueprintState};
use crate::engine::GameState;
use crate::resolving::belief_state::{
    combo_rank, is_combo, law_combo_rank_injective, surviving_combos, NUM_COMBOS,
};
use crate::util::hash::{
    fnv_hash, law_bytes_write_the_number, le_bytes, lemma_le_bytes_injective, Fnv1a,
};
use vstd::prelude::*;

verus! {

/// The bytes behind an information key: who acts, how many board cards are
/// visible, the card bucket, and — after a separator — the action history.
pub open spec fn key_bytes(player: u8, visible: u8, bucket: u64, history: Seq<u8>) -> Seq<u8> {
    seq![player, visible] + le_bytes(bucket) + seq![0xFFu8] + history
}

/// Different situations have different key bytes.
pub proof fn law_key_bytes_injective(
    player: u8,
    visible: u8,
    bucket: u64,
    history: Seq<u8>,
    player2: u8,
    visible2: u8,
    bucket2: u64,
    history2: Seq<u8>,
)
    requires
        key_bytes(player, visible, bucket, history) == key_bytes(
            player2,
            visible2,
            bucket2,
            history2,
        ),
    ensures
        player == player2,
        visible == visible2,
        bucket == bucket2,
        history == history2,
{
    let x = key_bytes(player, visible, bucket, history);
    let y = key_bytes(player2, visible2, bucket2, history2);
    assert(x[0] == player && y[0] == player2);
    assert(x[1] == visible && y[1] == visible2);
    assert(x.subrange(2, 10) =~= le_bytes(bucket));
    assert(y.subrange(2, 10) =~= le_bytes(bucket2));
    lemma_le_bytes_injective(bucket, bucket2);
    assert(x.skip(11) =~= history);
    assert(y.skip(11) =~= history2);
}

impl BlueprintHoldem {
    /// Fold an already-computed card `bucket` into the information key of
    /// `player` at the given public situation.  The key holds one byte each of
    /// `player` and `visible`.
    pub fn key_from_bucket(&self, player: usize, visible: usize, bucket: u64, history: &[u8]) -> (key: u64)
        ensures
            key == fnv_hash(key_bytes(player as u8, visible as u8, bucket, history@)),
    {
        let mut h = Fnv1a::new();
        h.write(#[verifier::truncate] (player as u8));
        h.write(#[verifier::truncate] (visible as u8));
        h.write_u64(bucket);
        h.write(0xFF);
        h.write_all(history);
        assert(h@ =~= key_bytes(player as u8, visible as u8, bucket, history@));
        h.finish()
    }

    /// Whether the street that shows `visible` board cards has a card
    /// abstraction.
    pub open spec fn street_abstracted(&self, visible: int) -> bool {
        3 <= visible <= 5 && self.street_buckets[visible - 3] is Some
    }

    /// The bucket of a situation: preflop the starting-hand class; later the
    /// bucket that the street's abstraction gives it, and the raw hand index
    /// where there is no abstraction or it does not cover the situation.
    pub open spec fn bucket_of(&self, visible: int, class: u64, mapped: Option<u32>, raw: u64) -> u64 {
        if visible == 0 {
            class
        } else if self.street_abstracted(visible) && mapped is Some {
            mapped->0 as u64
        } else {
            raw
        }
    }

    /// The bucket of a situation, given what the card abstraction says of it.
    pub fn situation_bucket(&self, visible: usize, class: u64, mapped: Option<u32>, raw: u64) -> (bucket: u64)
        requires
            visible == 0 || 3 <= visible <= 5,
        ensures
            bucket == self.bucket_of(visible as int, class, mapped, raw),
    {
        if visible == 0 {
            return class;
        }
        match (self.street_buckets[visible - 3], mapped) {
            (Some(_), Some(b)) => b as u64,
            _ => raw,
        }
    }

    /// The bucket in the dense index: as [`situation_bucket`], but a situation
    /// outside the abstraction (which full coverage excludes) falls back to 0.
    ///
    /// [`situation_bucket`]: BlueprintHoldem::situation_bucket
    pub fn dense_bucket(&self, visible: usize, class: usize, mapped: Option<u32>) -> (bucket: usize)
        requires
            visible == 0 || self.street_abstracted(visible as int),
        ensures
            bucket == if visible == 0 {
                class
            } else {
                match mapped {
                    Some(b) => b as usize,
                    None => 0,
                }
            },
    {
        if visible == 0 {
            return class;
        }
        match mapped {
            Some(b) => b as usize,
            None => 0,
        }
    }

    /// The information key of `player` on a board of `visible` cards after
    /// `history`, given what the card abstraction says of the hand it holds.
    pub fn key_for(
        &self,
        player: usize,
        visible: usize,
        class: u64,
        mapped: Option<u32>,
        raw: u64,
        history: &[u8],
    ) -> (key: u64)
        requires
            visible == 0 || 3 <= visible <= 5,
        ensures
            key == fnv_hash(
                key_bytes(
                    player as u8,
                    visible as u8,
                    self.bucket_of(visible as int, class, mapped, raw),
                    history@,
                ),
            ),
    {
        let bucket: u64 = self.situation_bucket(visible, class, mapped, raw);
        self.key_from_bucket(player, visible, bucket, history)
    }

    /// The information key that the acting player at `state` has with a hand of
    /// which the card abstraction says `class`, `mapped` and `raw`: its dealt
    /// hand, or any other it might hold.
    pub fn info_key_with_hole(
        &self,
        state: &BlueprintState,
        class: u64,
        mapped: Option<u32>,
        raw: u64,
    ) -> (key: u64)
        requires
            state.gs is Some,
            state.gs->0.visible == 0 || 3 <= state.gs->0.visible <= 5,
        ensures
            key == self.node_key(*state, class, mapped, raw),
    {
        let gs: &GameState = self.game_state(state);
        self.key_for(
            gs.current_player(),
            gs.board_cards_count(),
            class,
            mapped,
            raw,
            state.history.as_slice(),
        )
    }

    /// The key of the acting player at a play node: who acts, the cards visible,
    /// its bucket, and the history.
    pub open spec fn node_key(
        &self,
        state: BlueprintState,
        class: u64,
        mapped: Option<u32>,
        raw: u64,
    ) -> u64 {
        let gs = state.gs->0;
        fnv_hash(
            key_bytes(
                gs.to_act,
                gs.visible,
                self.bucket_of(gs.visible as int, class, mapped, raw),
                state.history@,
            ),
        )
    }

    /// The bucket of every hand on `board`, given each hand's own bucket: hands
    /// that overlap the board get bucket 0 (their reach is zero everywhere they
    /// could be asked for).
    ///
    /// Both vectors are indexed by [`combo_rank`], the numbering of hands that
    /// ranges have in this library; a card abstraction that numbers hands
    /// otherwise has to be asked hand by hand.
    pub fn bucket_vector(&self, board: &[u8], buckets: &[u64]) -> (out: Vec<u64>)
        requires
            buckets@.len() == NUM_COMBOS,
        ensures
            out@.len() == NUM_COMBOS,
            forall|a: u8, b: u8|
                is_combo(a, b) ==> out@[#[trigger] combo_rank(a, b)] == if board@.contains(a)
                    || board@.contains(b) {
                    0
                } else {
                    buckets@[combo_rank(a, b)]
                },
    {
        let live: Vec<bool> = surviving_combos(board);
        let mut out: Vec<u64> = Vec::new();
        let mut i: usize = 0;
        while i < NUM_COMBOS
            invariant
                i <= NUM_COMBOS,
                out@.len() == i,
                live@.len() == NUM_COMBOS,
                buckets@.len() == NUM_COMBOS,
                forall|k: int| 0 <= k < i ==> #[trigger] out@[k] == if live@[k] {
                    buckets@[k]
                } else {
                    0
                },
            decreases NUM_COMBOS - i,
        {
            let bucket: u64 = if live[i] { buckets[i] } else { 0 };
            out.push(bucket);
            i += 1;
        }
        assert forall|a: u8, b: u8| is_combo(a, b) implies out@[#[trigger] combo_rank(a, b)]
            == if board@.contains(a) || board@.contains(b) {
            0
        } else {
            buckets@[combo_rank(a, b)]
        } by {
            law_combo_rank_injective(a, b, a, b);
        }
        out
    }
}

/// Where each thing stands in an information key's bytes: the player, the
/// number of visible cards, the bucket in base 256 with the units first, a
/// byte, and the history to the end.
pub proof fn law_key_laid_out(player: u8, visible: u8, bucket: u64, history: Seq<u8>)
    ensures
        ({
            let b = key_bytes(player, visible, bucket, history);
            &&& b.len() == 11 + history.len()
            &&& b[0] == player
            &&& b[1] == visible
            &&& bucket == b[2] + 0x100 * b[3] + 0x1_0000 * b[4] + 0x100_0000 * b[5] + 0x1_0000_0000
                * b[6] + 0x100_0000_0000 * b[7] + 0x1_0000_0000_0000 * b[8] + 0x100_0000_0000_0000
                * b[9]
            &&& b[10] == 255
            &&& forall|i: int| 0 <= i < history.len() ==> b[11 + i] == #[trigger] history[i]
        }),
{
    law_bytes_write_the_number(bucket);
}

/// Preflop the class counts and nothing else.  Later the street's own
/// abstraction decides: its bucket where it has one, and otherwise the hand.
pub proof fn law_streets_bucket_on_their_own(
    game: BlueprintHoldem,
    street: int,
    class: u64,
    mapped: Option<u32>,
    raw: u64,
)
    requires
        0 <= street < 3,
    ensures
        game.bucket_of(0, class, mapped, raw) == class,
        game.street_abstracted(street + 3) <==> game.street_buckets[street] is Some,
        game.street_buckets[street] is Some && mapped is Some ==> game.bucket_of(
            street + 3,
            class,
            mapped,
            raw,
        ) == mapped->0,
        game.street_buckets[street] is None || mapped is None ==> game.bucket_of(
            street + 3,
            class,
            mapped,
            raw,
        ) == raw,
{
}

/// A node's key is that of the player to act there, with the cards that its
/// street shows, its bucket, and the whole history.
pub proof fn law_node_keys_tell_the_situation(
    game: BlueprintHoldem,
    state: BlueprintState,
    class: u64,
    mapped: Option<u32>,
    raw: u64,
    bytes: Seq<u8>,
)
    requires
        state.gs is Some,
        bytes == seq![state.gs->0.to_act, state.gs->0.visible] + le_bytes(
            if state.gs->0.visible == 0 {
                class
            } else {
                game.bucket_of(state.gs->0.visible as int, class, mapped, raw)
            },
        ) + seq![255u8] + state.history@,
    ensures
        game.node_key(state, class, mapped, raw) == fnv_hash(bytes),
{
}

} // verus!
