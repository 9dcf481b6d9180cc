//! Playing real hands: the wire protocol and the decisions made from it.

pub mod bot;
pub mod bot_laws;
pub mod cards;
pub mod equity;
pub mod event_laws;
pub mod luck;
pub mod policy;
pub mod protocol;
pub mod protocol_laws;
pub mod slumbot;
pub mod tracker;
pub mod tracker_laws;
