//! Level packs and move resolution for a grid puzzle game.
//!
//! `parse` reads the level pack format into levels, `level` holds a grid of
//! cells, `cell` says what each kind of cell does, and `engine` resolves the
//! player's moves into a new state and the signals for the presentation.

pub mod cell;
pub mod engine;
pub mod events;
pub mod level;
pub mod parse;
