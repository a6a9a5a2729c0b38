//! Industry planning for EVE Online: production dependency trees,
//! material and time bonuses, structure data, caches and the small
//! decisions that the server makes around them.

pub mod account;
pub mod database;
pub mod eve;
pub mod project;
pub mod services;
pub mod structure;
pub mod time;
pub mod timed_cache;
pub mod tools;
pub mod universe;
pub mod utils;
