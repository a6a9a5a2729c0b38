//! Services around characters, items, markets, regions and names.

pub mod character;
pub mod market;
pub mod region;
pub mod resolve;
