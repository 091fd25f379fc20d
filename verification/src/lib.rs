//! Verified core of the word-game server: seating, turn order, scoring,
//! access rules, outcomes and the small text formats the server emits.

pub mod text;
pub mod rules;
pub mod dto;
pub mod clock;
pub mod game_state;
pub mod convert;
pub mod persistence;
pub mod stats;
pub mod email;
pub mod server;
