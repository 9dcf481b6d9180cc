//! Small building blocks shared by the other modules.

pub mod card_set;
pub mod decimal;
pub mod filter;
pub mod hash;
