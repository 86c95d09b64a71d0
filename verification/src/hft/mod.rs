pub mod account;
pub mod arbitrage;
pub mod order_router;
pub mod feed;
