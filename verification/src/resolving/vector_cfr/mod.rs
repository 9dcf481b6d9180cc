//! Vectorized range-vs-range subgame solving.
//!
//! An explicit-deal subgame enumerates every pair of hands as a chance child.
//! The **public-tree** formulation walks the shared betting tree *once* and
//! carries a value per hand at every node: hands are a vector dimension, not
//! chance branches.  This module holds the tree ([`tree`]), what holds of it
//! ([`tree_laws`], [`point_laws`], [`unfold_laws`], [`cap`]), what the traversal
//! does at each node and under which key a hand's strategy is emitted ([`solve`],
//! [`keys`]).

pub mod cap;
pub mod keys;
pub mod point_laws;
pub mod solve;
pub mod tree;
pub mod tree_laws;
pub mod unfold_laws;
