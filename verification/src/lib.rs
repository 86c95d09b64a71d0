//! Limit order book, matching engine, portfolio risk checks and a
//! cross-exchange arbitrage engine, with their behaviour stated in contracts.
pub mod api;
pub mod channel;
pub mod clock;
pub mod domain;
pub mod events;
pub mod hft;
pub mod rng;
pub mod sim;
pub mod stats;
pub mod text;
