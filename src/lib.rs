//! Relays card movements on a work-tracking board to the chat users who
//! track the members of those cards.

pub mod models;
pub mod text;
pub mod table;
pub mod registry;
pub mod delivery;
pub mod cards;
pub mod relay;
pub mod poller;
pub mod commands;
