//! Heads-up push/fold hold'em: fold or commit all-in, nothing else.
//!
//! The flat-call / limp line — the sole source of postflop play — is gone, so
//! the tree is two levels deep at *any* stack depth:
//!
//! ```text
//!   SB:  fold  | shove
//!   BB (vs shove):  fold | call
//! ```
//!
//! That is 169 + 169 information sets: one decision per suit-canonical starting
//! hand per player.

use crate::engine::{Action, GameState};
use crate::games::IndexedGame;
use crate::util::hash::{fnv_hash, Fnv1a};
use vstd::prelude::*;

verus! {

/// The suit-canonical starting-hand classes.
pub const PREFLOP_CLASSES: usize = 169;

/// Decisions in a push/fold hand: the small blind's, then the big blind's.
pub const DECISIONS: usize = 2;

/// A heads-up push/fold game with sampled deals.
pub struct PushFoldHoldem {
    /// Each player's stack at the start of a hand.
    pub stack: u32,
    pub big_blind: u32,
    pub small_blind: u32,
    pub button: u8,
}

/// A node: the pre-deal chance root (`gs == None`) or a play node.
#[derive(Clone, Debug)]
pub struct PushFoldState {
    pub gs: Option<GameState>,
    /// Perfect-recall action history (`0 = fold, 1 = commit`).
    pub history: Vec<u8>,
}

/// The chips-committing action of a menu: all-in where it is offered, else a
/// call (calling a shove is itself all-in).
pub open spec fn commit_of(full: Seq<Action>) -> Action {
    if full.contains(Action::AllIn) {
        Action::AllIn
    } else {
        Action::Call
    }
}

/// The bytes behind an information key: who acts, the hand's class, and — after
/// a separator — the action history.
pub open spec fn preflop_key_bytes(player: u8, class: Seq<u8>, history: Seq<u8>) -> Seq<u8> {
    seq![player] + class + seq![0xFFu8] + history
}

/// Different decisions have different key bytes (classes being written in the
/// same number of bytes).
pub proof fn law_preflop_keys_injective(
    player: u8,
    class: Seq<u8>,
    history: Seq<u8>,
    player2: u8,
    class2: Seq<u8>,
    history2: Seq<u8>,
)
    requires
        class.len() == class2.len(),
        preflop_key_bytes(player, class, history) == preflop_key_bytes(player2, class2, history2),
    ensures
        player == player2,
        class == class2,
        history == history2,
{
    let x = preflop_key_bytes(player, class, history);
    let y = preflop_key_bytes(player2, class2, history2);
    let n = class.len() as int;
    assert(x[0] == player && y[0] == player2);
    assert(x.subrange(1, 1 + n) =~= class);
    assert(y.subrange(1, 1 + n) =~= class2);
    assert(x.skip(2 + n) =~= history);
    assert(y.skip(2 + n) =~= history2);
}

impl PushFoldHoldem {
    /// A game with equal starting stacks (`stack` chips each).
    pub fn new(stack: u32, big_blind: u32, small_blind: u32, button: u8) -> (game: Self)
        ensures
            game == (PushFoldHoldem { stack, big_blind, small_blind, button }),
    {
        PushFoldHoldem { stack, big_blind, small_blind, button }
    }

    /// The two-action push/fold menu at a decision node where the engine allows
    /// `full`: `[Fold, commit]`.  Restricting to this menu is what removes
    /// postflop play.
    pub fn menu(full: &[Action]) -> (menu: [Action; 2])
        requires
            full@.contains(Action::AllIn) || full@.contains(Action::Call),
        ensures
            menu@ == seq![Action::Fold, commit_of(full@)],
    {
        let mut all_in: bool = false;
        let mut i: usize = 0;
        while i < full.len()
            invariant
                i <= full@.len(),
                all_in <==> full@.take(i as int).contains(Action::AllIn),
            decreases full@.len() - i,
        {
            let ghost shorter = full@.take(i as int);
            let here: bool = match full[i] {
                Action::AllIn => true,
                _ => false,
            };
            i += 1;
            proof {
                let longer = full@.take(i as int);
                assert(longer =~= shorter.push(full@[i - 1]));
                if all_in {
                    let k = choose|k: int| 0 <= k < shorter.len() && shorter[k] == Action::AllIn;
                    assert(longer[k] == Action::AllIn);
                }
                if here {
                    assert(longer[i - 1] == Action::AllIn);
                }
                if longer.contains(Action::AllIn) && !here {
                    let k = choose|k: int| 0 <= k < longer.len() && longer[k] == Action::AllIn;
                    assert(shorter[k] == Action::AllIn);
                }
            }
            all_in = all_in || here;
        }
        assert(full@.take(i as int) =~= full@);
        let commit: Action = if all_in { Action::AllIn } else { Action::Call };
        let menu: [Action; 2] = [Action::Fold, commit];
        assert(menu@ =~= seq![Action::Fold, commit_of(full@)]);
        menu
    }

    /// The information key of `player`, holding a hand of the class that
    /// `class` writes in little-endian bytes, after `history`.
    pub fn preflop_key(player: usize, class: &[u8], history: &[u8]) -> (key: u64)
        ensures
            key == fnv_hash(preflop_key_bytes(player as u8, class@, history@)),
    {
        let mut h = Fnv1a::new();
        h.write(#[verifier::truncate] (player as u8));
        h.write_all(class);
        h.write(0xFF);
        h.write_all(history);
        assert(h@ =~= preflop_key_bytes(player as u8, class@, history@));
        h.finish()
    }

    /// The pre-deal chance node.
    pub fn root(&self) -> (state: PushFoldState)
        ensures
            state.gs is None,
            state.history@ == Seq::<u8>::empty(),
    {
        PushFoldState { gs: None, history: Vec::new() }
    }

    /// Whether the hand is over at `state`.
    pub fn is_terminal(&self, state: &PushFoldState) -> (over: bool)
        ensures
            over == (state.gs is Some && state.gs->0.terminal),
    {
        match &state.gs {
            Some(gs) => gs.terminal,
            None => false,
        }
    }

    /// Whether `state` is the pre-deal chance node.
    pub fn is_chance(&self, state: &PushFoldState) -> (chance: bool)
        ensures
            chance == (state.gs is None),
    {
        state.gs.is_none()
    }

    /// The node after `action` (`0 = fold, 1 = commit`), which takes the engine
    /// to `next`.
    pub fn apply(&self, state: &PushFoldState, action: u8, next: GameState) -> (after: PushFoldState)
        requires
            state.gs is Some,
            action < 2,
        ensures
            after.gs == Some(next),
            after.history@ == state.history@.push(action),
    {
        let mut history: Vec<u8> = state.history.clone();
        history.push(action);
        PushFoldState { gs: Some(next), history }
    }
}

/// A hand walked in place: the engine's state, the actions taken, and the state
/// before each of them.
pub struct PushFoldCursor {
    /// `None` at the pre-deal chance root; `Some` once a deal has been sampled.
    pub gs: Option<GameState>,
    /// Action indices taken from the root (`0 = fold, 1 = commit`).
    pub history: Vec<u8>,
    pub undo: Vec<GameState>,
}

/// The mathematical content of a [`PushFoldCursor`].
#[verifier::ext_equal]
pub struct PushFoldCursorModel {
    pub gs: Option<GameState>,
    pub history: Seq<u8>,
    pub undo: Seq<GameState>,
}

impl View for PushFoldCursor {
    type V = PushFoldCursorModel;

    open spec fn view(&self) -> PushFoldCursorModel {
        PushFoldCursorModel { gs: self.gs, history: self.history@, undo: self.undo@ }
    }
}

impl PushFoldCursorModel {
    /// One earlier state per action taken, and a dealt hand under the actions.
    pub open spec fn wf(self) -> bool {
        &&& self.undo.len() == self.history.len()
        &&& self.gs is None ==> self.history.len() == 0
    }

    /// After action `a`, which takes the engine to `next`.
    pub open spec fn applied(self, a: u8, next: GameState) -> PushFoldCursorModel {
        PushFoldCursorModel {
            gs: Some(next),
            history: self.history.push(a),
            undo: self.undo.push(self.gs->0),
        }
    }

    /// After the last action is taken back.
    pub open spec fn undone(self) -> PushFoldCursorModel {
        PushFoldCursorModel {
            gs: Some(self.undo.last()),
            history: self.history.drop_last(),
            undo: self.undo.drop_last(),
        }
    }
}

/// Taking an action back restores the cursor as it was.
pub proof fn law_undo_reverses_apply(c: PushFoldCursorModel, a: u8, next: GameState)
    requires
        c.wf(),
        c.gs is Some,
    ensures
        c.applied(a, next).wf(),
        c.applied(a, next).undone() == c,
{
    assert(c.applied(a, next).undone() =~= c);
}

impl PushFoldCursor {
    /// A fresh cursor at the pre-deal chance root.
    pub fn root() -> (c: PushFoldCursor)
        ensures
            c@ == (PushFoldCursorModel { gs: None, history: Seq::empty(), undo: Seq::empty() }),
            c@.wf(),
    {
        PushFoldCursor { gs: None, history: Vec::new(), undo: Vec::new() }
    }

    /// Deal a hand in place.
    pub fn deal(&mut self, gs: GameState)
        ensures
            final(self)@ == (PushFoldCursorModel {
                gs: Some(gs),
                history: Seq::empty(),
                undo: Seq::empty(),
            }),
            final(self)@.wf(),
    {
        self.gs = Some(gs);
        self.history.clear();
        self.undo.clear();
    }

    /// Return to the pre-deal root.
    pub fn undo_chance(&mut self)
        ensures
            final(self)@ == (PushFoldCursorModel {
                gs: None,
                history: Seq::empty(),
                undo: Seq::empty(),
            }),
            final(self)@.wf(),
    {
        self.gs = None;
        self.history.clear();
        self.undo.clear();
    }

    /// Apply action `a`, which takes the engine to `next`.
    pub fn apply(&mut self, a: u8, next: GameState)
        requires
            old(self)@.wf(),
            old(self)@.gs is Some,
        ensures
            final(self)@ == old(self)@.applied(a, next),
            final(self)@.wf(),
    {
        match self.gs {
            Some(gs) => {
                self.undo.push(gs);
            },
            None => {},
        }
        self.gs = Some(next);
        self.history.push(a);
    }

    /// Take the last action back.
    pub fn undo(&mut self)
        requires
            old(self)@.wf(),
            old(self)@.history.len() > 0,
        ensures
            final(self)@ == old(self)@.undone(),
            final(self)@.wf(),
    {
        let ghost before = self@;
        match self.undo.pop() {
            Some(gs) => {
                self.gs = Some(gs);
            },
            None => {},
        }
        let _ = self.history.pop();
        assert(self@ =~= before.undone());
    }
}

impl IndexedGame for PushFoldHoldem {
    type Cursor = PushFoldCursor;

    open spec fn indexed(&self) -> bool {
        true
    }

    /// Two betting sequences (SB open, BB vs shove) × 169 preflop classes.
    open spec fn capacity(&self) -> nat {
        (DECISIONS * PREFLOP_CLASSES) as nat
    }

    open spec fn has_info_set(&self, cursor: &PushFoldCursor, bucket: usize) -> bool {
        &&& cursor@.gs is Some
        &&& cursor@.history.len() < DECISIONS
        &&& bucket < PREFLOP_CLASSES
    }

    /// `sequence · 169 + preflop_class`, where the sequence is the decision
    /// depth (0 = SB open with empty history, 1 = BB facing the shove).
    open spec fn index_of(&self, cursor: &PushFoldCursor, bucket: usize) -> nat {
        (cursor@.history.len() * PREFLOP_CLASSES + bucket) as nat
    }

    open spec fn width(&self, index: nat) -> nat {
        2
    }

    fn info_set_capacity(&self) -> (capacity: usize) {
        DECISIONS * PREFLOP_CLASSES
    }

    fn info_set_index(&self, cursor: &PushFoldCursor, bucket: usize) -> (index: usize) {
        cursor.history.len() * PREFLOP_CLASSES + bucket
    }

    fn actions_at(&self, _index: usize) -> (actions: usize) {
        2
    }
}

/// The dense index is a bijection between decisions with a hand class and
/// `0..338`.
pub proof fn law_index_bijective(depth: int, class: int, depth2: int, class2: int, index: int)
    requires
        0 <= depth < DECISIONS,
        0 <= class < PREFLOP_CLASSES,
        0 <= depth2 < DECISIONS,
        0 <= class2 < PREFLOP_CLASSES,
        0 <= index < DECISIONS * PREFLOP_CLASSES,
    ensures
        depth * PREFLOP_CLASSES + class == depth2 * PREFLOP_CLASSES + class2 ==> depth == depth2
            && class == class2,
        0 <= index / (PREFLOP_CLASSES as int) < DECISIONS,
        (index / (PREFLOP_CLASSES as int)) * PREFLOP_CLASSES + index % (PREFLOP_CLASSES as int)
            == index,
{
}

/// A hand is committed all-in where that is allowed, and by a call where it is
/// not: what is offered beside the fold can always be played.
pub proof fn law_commits_can_be_played(full: Seq<Action>)
    requires
        full.contains(Action::AllIn) || full.contains(Action::Call),
    ensures
        full.contains(commit_of(full)),
        full.contains(Action::AllIn) ==> commit_of(full) == Action::AllIn,
        commit_of(full) == Action::AllIn || commit_of(full) == Action::Call,
{
}

/// Where each thing stands in an information key's bytes: the player, the class
/// of its hand, a byte, and the history to the end.
pub proof fn law_preflop_key_laid_out(player: u8, class: Seq<u8>, history: Seq<u8>)
    ensures
        ({
            let bytes = preflop_key_bytes(player, class, history);
            let n = class.len() as int;
            &&& bytes.len() == n + history.len() + 2
            &&& bytes[0] == player
            &&& forall|i: int| 0 <= i < n ==> bytes[1 + i] == #[trigger] class[i]
            &&& bytes[1 + n] == 255
            &&& forall|i: int| 0 <= i < history.len() ==> bytes[2 + n + i] == #[trigger] history[i]
        }),
{
}

/// An applied action is the last of the history, and the engine stands where it
/// led; the state that it left is the one that undoing goes back to.
pub proof fn law_apply_moves_on(c: PushFoldCursorModel, a: u8, next: GameState)
    requires
        c.wf(),
        c.gs is Some,
    ensures
        c.applied(a, next).gs == Some(next),
        c.applied(a, next).history == c.history + seq![a],
        c.applied(a, next).undo == c.undo + seq![c.gs->0],
{
    assert(c.history.push(a) =~= c.history + seq![a]);
    assert(c.undo.push(c.gs->0) =~= c.undo + seq![c.gs->0]);
}

/// Undoing takes exactly the last action off.
pub proof fn law_undo_takes_one_back(c: PushFoldCursorModel)
    requires
        c.wf(),
        c.history.len() > 0,
    ensures
        c.undone().wf(),
        c.undone().history + seq![c.history.last()] == c.history,
        c.undone().gs is Some,
        c.undone().undo + seq![c.undone().gs->0] == c.undo,
{
    assert(c.undone().history + seq![c.history.last()] =~= c.history);
    assert(c.undone().undo + seq![c.undone().gs->0] =~= c.undo);
}

/// An information set's index is its decision's depth and its hand's class, in
/// rows of 169; there are two rows, and each set has two actions.
pub proof fn law_index_reads_back(game: PushFoldHoldem, cursor: PushFoldCursor, bucket: usize)
    requires
        game.has_info_set(&cursor, bucket),
    ensures
        cursor@.history.len() < 2,
        bucket < 169,
        game.indexed(),
        game.index_of(&cursor, bucket) / 169 == cursor@.history.len(),
        game.index_of(&cursor, bucket) % 169 == bucket,
        game.index_of(&cursor, bucket) < game.capacity(),
        game.capacity() == 338,
        game.width(game.index_of(&cursor, bucket)) == 2,
{
}

/// A cursor's content is what its fields hold.
pub proof fn law_cursor_shows_its_fields(c: PushFoldCursor)
    ensures
        c@.gs == c.gs,
        c@.history == c.history@,
        c@.undo == c.undo@,
{
}

} // verus!
