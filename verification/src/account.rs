//! What the accounts of a player hold: the assets and blueprints of all
//! their characters, and what a project of theirs still needs.

pub mod asset;
pub mod character;
pub mod corporation;
pub mod project;
