//! The abstract games: what their information sets are and how they are keyed.

pub mod blueprint;
pub mod kuhn;
pub mod nlhe;
pub mod push_fold;

use vstd::prelude::*;

verus! {

/// A game whose information sets are known up front and map to a dense integer
/// range, so that a solver can keep them in flat tables.
///
/// The index is a pure function of the public situation and of the acting
/// player's card bucket, so the table layout is fixed at construction.
pub trait IndexedGame {
    /// A place in the game tree.
    type Cursor;

    /// The table layout is built.
    spec fn indexed(&self) -> bool;

    /// Number of information sets.
    spec fn capacity(&self) -> nat;

    /// `cursor` is at a decision of this game whose acting player's cards can
    /// fall into `bucket`.
    spec fn has_info_set(&self, cursor: &Self::Cursor, bucket: usize) -> bool;

    /// The information set of that decision.
    spec fn index_of(&self, cursor: &Self::Cursor, bucket: usize) -> nat;

    /// Number of legal actions at an information set.
    spec fn width(&self, index: nat) -> nat;

    /// Exclusive upper bound on [`info_set_index`](IndexedGame::info_set_index).
    fn info_set_capacity(&self) -> (capacity: usize)
        requires
            self.indexed(),
        ensures
            capacity == self.capacity(),
    ;

    /// Dense index in `0..info_set_capacity()` for the acting player's
    /// information set, its cards being in `bucket`.
    fn info_set_index(&self, cursor: &Self::Cursor, bucket: usize) -> (index: usize)
        requires
            self.indexed(),
            self.has_info_set(cursor, bucket),
        ensures
            index == self.index_of(cursor, bucket),
            index < self.capacity(),
    ;

    /// Number of legal actions at the information set with the given index.
    fn actions_at(&self, index: usize) -> (actions: usize)
        requires
            self.indexed(),
            index < self.capacity(),
        ensures
            actions == self.width(index as nat),
    ;
}

} // verus!
