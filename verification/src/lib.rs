//! Heads-up poker agent: the verified part.
//!
//! * [`util`] — hashing, decimal text, card sets.
//! * [`engine`] — what the library reads of the poker engine.
//! * [`games`] — the abstract games: information keys and dense indices.
//! * [`play`] — the wire protocol and everything decided at the table.
//! * [`resolving`] — hand ranges and the trees that re-solving works on.

pub mod engine;
pub mod games;
pub mod play;
pub mod resolving;
pub mod util;
