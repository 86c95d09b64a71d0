use vstd::prelude::*;

use crate::domain::price::Price;

verus! {

/// A lot of shares bought in one trade.
#[derive(Debug)]
pub struct Holding {
    pub symbol: String,
    pub quantity: u64,
    pub buy_price: Price,
    pub bought_at: std::time::SystemTime,
}

} // verus!
