//! Rules engine for a two-player, best-of-three card battle.
//!
//! The engine owns the match state, validates and applies the players'
//! actions, resolves card abilities, keeps scores and moves the match
//! through its rounds. Every public operation is a synchronous state
//! transformer whose effect is stated in its contract.

pub mod game_types;
pub mod game_logic;
pub mod zones;
pub mod laws;
