//! Core of a two-player piece-dropping game on a 5x5 board: an event bus,
//! a move command that validates, applies and reverses a placement, and a
//! game model with undo/redo over a linear history.

pub mod common;
pub mod game;
pub mod laws;
pub mod model;
