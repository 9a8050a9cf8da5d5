//! Falling-block puzzle core: shape catalog, pieces, the occupancy board,
//! the bag generator and the game controller driven by intents and ticks.

pub mod shape;
pub mod piece;
pub mod board;
pub mod bag;
pub mod game;
