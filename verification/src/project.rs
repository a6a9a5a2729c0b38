//! Industry projects: what is built, what it needs and where.

pub mod api;
pub mod blueprints;
pub mod bonus;
pub mod dependency;
pub mod legacy_structure;
pub mod planner;
pub mod service;
pub mod storage;
pub mod typ;
