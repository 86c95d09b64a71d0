pub mod holding;
pub mod market;
pub mod order;
pub mod orderbook;
pub mod portfolio;
pub mod price;
pub mod registry;
pub mod trade;
pub mod user;
