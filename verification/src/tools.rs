//! Tools on top of the market data.

pub mod best_price;
