//! A traversal cursor: one hand walked in place, each step undone in turn.

use super::{raises_after, BlueprintHoldem};
use crate::engine::GameState;
use vstd::prelude::*;

verus! {

/// What a cursor returns to when its last step is undone.
#[derive(Debug, Clone, Copy)]
pub struct CursorStep {
    pub gs: GameState,
    pub street_raises: u8,
}

/// A hand walked in place: the engine's state, the perfect-recall history, and
/// what each step changed.
pub struct BlueprintCursor {
    /// `None` at the pre-deal chance root; `Some` once a deal has been sampled.
    pub gs: Option<GameState>,
    /// Action indices taken from the root.
    pub history: Vec<u8>,
    /// Raises made so far on the current street.
    pub street_raises: u8,
    /// The place before each action of the history.
    pub undo: Vec<CursorStep>,
}

/// The mathematical content of a [`BlueprintCursor`].
#[verifier::ext_equal]
pub struct CursorModel {
    pub gs: Option<GameState>,
    pub history: Seq<u8>,
    pub street_raises: u8,
    pub undo: Seq<CursorStep>,
}

impl View for BlueprintCursor {
    type V = CursorModel;

    open spec fn view(&self) -> CursorModel {
        CursorModel {
            gs: self.gs,
            history: self.history@,
            street_raises: self.street_raises,
            undo: self.undo@,
        }
    }
}

impl CursorModel {
    /// One undo step per action taken, and a dealt hand under the actions.
    pub open spec fn wf(self) -> bool {
        &&& self.undo.len() == self.history.len()
        &&& self.gs is None ==> self.history.len() == 0
    }

    /// The pre-deal root.
    pub open spec fn root() -> CursorModel {
        CursorModel { gs: None, history: Seq::empty(), street_raises: 0, undo: Seq::empty() }
    }

    /// A dealt hand with no action taken.
    pub open spec fn dealt(gs: GameState) -> CursorModel {
        CursorModel { gs: Some(gs), history: Seq::empty(), street_raises: 0, undo: Seq::empty() }
    }

    /// After action `a`, which takes the engine to `next`.
    pub open spec fn applied(self, a: u8, next: GameState) -> CursorModel {
        CursorModel {
            gs: Some(next),
            history: self.history.push(a),
            street_raises: raises_after(
                self.street_raises,
                self.gs->0.street,
                self.gs->0.current_bet,
                next,
            ),
            undo: self.undo.push(CursorStep { gs: self.gs->0, street_raises: self.street_raises }),
        }
    }

    /// After the last action is taken back.
    pub open spec fn undone(self) -> CursorModel {
        CursorModel {
            gs: Some(self.undo.last().gs),
            history: self.history.drop_last(),
            street_raises: self.undo.last().street_raises,
            undo: self.undo.drop_last(),
        }
    }
}

/// Taking an action back restores the cursor as it was.
pub proof fn law_undo_reverses_apply(c: CursorModel, a: u8, next: GameState)
    requires
        c.wf(),
        c.gs is Some,
    ensures
        c.applied(a, next).wf(),
        c.applied(a, next).undone() == c,
{
    assert(c.applied(a, next).undone() =~= c);
}

/// What a copied node knows of its hand.
#[verifier::ext_equal]
pub struct NodeModel {
    pub gs: GameState,
    pub history: Seq<u8>,
    pub street_raises: u8,
}

/// The node that copying from node to node comes to, from a dealt hand through
/// `moves`: each an action index and the engine's state after it.
pub open spec fn node_after(gs: GameState, moves: Seq<(u8, GameState)>) -> NodeModel
    decreases moves.len(),
{
    if moves.len() == 0 {
        NodeModel { gs, history: Seq::empty(), street_raises: 0 }
    } else {
        let node = node_after(gs, moves.drop_last());
        let (a, next) = moves.last();
        NodeModel {
            gs: next,
            history: node.history.push(a),
            street_raises: raises_after(
                node.street_raises,
                node.gs.street,
                node.gs.current_bet,
                next,
            ),
        }
    }
}

/// The place that walking in place comes to.
pub open spec fn cursor_after(gs: GameState, moves: Seq<(u8, GameState)>) -> CursorModel
    decreases moves.len(),
{
    if moves.len() == 0 {
        CursorModel::dealt(gs)
    } else {
        cursor_after(gs, moves.drop_last()).applied(moves.last().0, moves.last().1)
    }
}

/// Copying nodes and walking in place visit the same information sets: after
/// any moves both know the same state, history and raise count.
pub proof fn law_paths_agree(gs: GameState, moves: Seq<(u8, GameState)>)
    ensures
        cursor_after(gs, moves).wf(),
        cursor_after(gs, moves).gs == Some(node_after(gs, moves).gs),
        cursor_after(gs, moves).history == node_after(gs, moves).history,
        cursor_after(gs, moves).street_raises == node_after(gs, moves).street_raises,
    decreases moves.len(),
{
    if moves.len() > 0 {
        law_paths_agree(gs, moves.drop_last());
    }
}

/// A node remembers exactly the actions that led to it, and its state is the
/// engine's after the last of them.
pub proof fn law_nodes_remember(gs: GameState, moves: Seq<(u8, GameState)>)
    ensures
        node_after(gs, moves).history == moves.map_values(|m: (u8, GameState)| m.0),
        node_after(gs, moves).gs == if moves.len() == 0 {
            gs
        } else {
            moves.last().1
        },
    decreases moves.len(),
{
    let first = |m: (u8, GameState)| m.0;
    if moves.len() > 0 {
        law_nodes_remember(gs, moves.drop_last());
        assert(moves.map_values(first) =~= moves.drop_last().map_values(first).push(
            moves.last().0,
        ));
    } else {
        assert(moves.map_values(first) =~= Seq::<u8>::empty());
    }
}

impl BlueprintCursor {
    /// A fresh cursor at the pre-deal chance root.
    pub fn root() -> (c: BlueprintCursor)
        ensures
            c@ == CursorModel::root(),
            c@.wf(),
    {
        BlueprintCursor { gs: None, history: Vec::new(), street_raises: 0, undo: Vec::new() }
    }

    /// Deal a hand in place.
    pub fn deal(&mut self, gs: GameState)
        ensures
            final(self)@ == CursorModel::dealt(gs),
            final(self)@.wf(),
    {
        self.gs = Some(gs);
        self.history.clear();
        self.undo.clear();
        self.street_raises = 0;
    }

    /// Return to the pre-deal root.
    pub fn undo_chance(&mut self)
        ensures
            final(self)@ == CursorModel::root(),
            final(self)@.wf(),
    {
        self.gs = None;
        self.history.clear();
        self.undo.clear();
        self.street_raises = 0;
    }

    /// Number of actions taken.
    pub fn depth(&self) -> (depth: usize)
        ensures
            depth == self@.history.len(),
    {
        self.history.len()
    }

    /// Apply the action with index `a`, which takes the engine to `next`.
    pub fn apply(&mut self, a: u8, next: GameState)
        requires
            old(self)@.wf(),
            old(self)@.gs is Some,
        ensures
            final(self)@ == old(self)@.applied(a, next),
            final(self)@.wf(),
    {
        match self.gs {
            Some(gs) => {
                self.undo.push(CursorStep { gs, street_raises: self.street_raises });
                self.street_raises = BlueprintHoldem::next_raises(
                    self.street_raises,
                    gs.street,
                    gs.current_bet,
                    &next,
                );
            },
            None => {},
        }
        self.gs = Some(next);
        self.history.push(a);
    }

    /// Take the last action back.
    pub fn undo(&mut self)
        requires
            old(self)@.wf(),
            old(self)@.history.len() > 0,
        ensures
            final(self)@ == old(self)@.undone(),
            final(self)@.wf(),
    {
        let ghost before = self@;
        match self.undo.pop() {
            Some(step) => {
                self.gs = Some(step.gs);
                self.street_raises = step.street_raises;
            },
            None => {},
        }
        let _ = self.history.pop();
        assert(self@ =~= before.undone());
    }
}

/// A step moves the cursor to where the action led, with the action last in its
/// history; the raise count starts over on a new street and rises with the bet.
pub proof fn law_apply_moves_on(c: CursorModel, a: u8, next: GameState)
    requires
        c.wf(),
        c.gs is Some,
    ensures
        ({
            let after = c.applied(a, next);
            let here = c.gs->0;
            &&& after.gs == Some(next)
            &&& after.history == c.history + seq![a]
            &&& after.street_raises == if next.street != here.street {
                0
            } else if next.current_bet > here.current_bet && c.street_raises < 255 {
                c.street_raises + 1
            } else {
                c.street_raises as int
            }
            &&& after.undo.len() == c.undo.len() + 1
            &&& after.undo.last().gs == here
            &&& after.undo.last().street_raises == c.street_raises
            &&& after.undo.drop_last() == c.undo
        }),
{
    assert(c.history.push(a) =~= c.history + seq![a]);
    assert(c.applied(a, next).undo.drop_last() =~= c.undo);
}

/// Undoing goes back to the place that the last step left, one action shorter.
pub proof fn law_undo_takes_one_back(c: CursorModel)
    requires
        c.wf(),
        c.history.len() > 0,
    ensures
        c.undone().wf(),
        c.undone().gs == Some(c.undo[c.undo.len() - 1].gs),
        c.undone().street_raises == c.undo[c.undo.len() - 1].street_raises,
        c.undone().history + seq![c.history[c.history.len() - 1]] == c.history,
        c.undone().undo + seq![c.undo[c.undo.len() - 1]] == c.undo,
{
    assert(c.undone().history + seq![c.history.last()] =~= c.history);
    assert(c.undone().undo + seq![c.undo.last()] =~= c.undo);
}

/// Before the deal there is no state; a dealt hand stands at its first decision
/// with no action taken and no raise counted.
pub proof fn law_hands_start_afresh(gs: GameState)
    ensures
        CursorModel::root().gs is None,
        CursorModel::root().history.len() == 0,
        CursorModel::root().undo.len() == 0,
        CursorModel::root().street_raises == 0,
        CursorModel::dealt(gs).gs == Some(gs),
        CursorModel::dealt(gs).history.len() == 0,
        CursorModel::dealt(gs).undo.len() == 0,
        CursorModel::dealt(gs).street_raises == 0,
{
}

/// A cursor's content is what its fields hold.
pub proof fn law_cursor_shows_its_fields(c: BlueprintCursor)
    ensures
        c@.gs == c.gs,
        c@.history == c.history@,
        c@.street_raises == c.street_raises,
        c@.undo == c.undo@,
{
}

} // verus!
