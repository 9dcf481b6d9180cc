//! Re-solving: hand ranges and the trees it works on.

pub mod belief_state;
pub mod continual;
pub mod gadget;
pub mod leaf_eval;
pub mod subgame;
pub mod vector_cfr;
