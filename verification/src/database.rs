//! Data of the static export of the game.

pub mod blueprint;
