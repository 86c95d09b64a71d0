use vstd::prelude::*;

use crate::domain::order::{BidOrAsk, OrderBuilder};
use crate::domain::price::Price;
use crate::domain::trade::Trade;
use crate::rng::random_u64_in;
use crate::text::decimal_string;

verus! {

/// The pace of simulated order flow.
#[derive(Debug, Clone, Copy, PartialEq, Eq, Structural)]
pub enum MarketSpeed {
    Normal,
    Fast,
}

/// What one simulation step produced: its trades and how long it and each order took.
#[derive(Debug)]
pub struct StepMetrics {
    pub trades: Vec<Trade>,
    pub step_latency: std::time::Duration,
    pub order_latencies: Vec<std::time::Duration>,
}

/// The lowest price, in paisa, that simulated limit orders are placed at.
pub open spec fn min_sim_price() -> u64 {
    500
}

/// `target_paisa` rounded down to a multiple of 5 paisa (the tick size), and
/// raised to the lowest simulated price when below it.
pub open spec fn snapped(target_paisa: u64) -> u64 {
    let p = (target_paisa / 5) * 5;
    if p >= min_sim_price() {
        p as u64
    } else {
        min_sim_price()
    }
}

/// The price a simulated limit order is placed at for `target_paisa` (see `snapped`).
pub fn snap_to_tick(target_paisa: u64) -> (r: u64)
    ensures
        r == snapped(target_paisa),
        r % 5 == 0,
        r >= 500,
        r <= target_paisa || target_paisa < 500,
{
    let p = (target_paisa / 5) * 5;
    if p >= 500 {
        p
    } else {
        500
    }
}


/// The other pace.
pub open spec fn other_speed(s: MarketSpeed) -> MarketSpeed {
    match s {
        MarketSpeed::Normal => MarketSpeed::Fast,
        MarketSpeed::Fast => MarketSpeed::Normal,
    }
}

/// The least and the most orders one step places at a pace.
pub open spec fn order_count_bounds(s: MarketSpeed) -> (u64, u64) {
    match s {
        MarketSpeed::Normal => (10, 30),
        MarketSpeed::Fast => (50, 250),
    }
}

impl MarketSpeed {
    /// The other pace, as the speed regime alternates.
    pub fn toggled(&self) -> (r: MarketSpeed)
        ensures
            r == other_speed(*self),
    {
        match self {
            MarketSpeed::Normal => MarketSpeed::Fast,
            MarketSpeed::Fast => MarketSpeed::Normal,
        }
    }

    /// Draws how many orders a step places at this pace (see `order_count_bounds`).
    pub fn draw_order_count(&self) -> (n: u64)
        ensures
            order_count_bounds(*self).0 <= n <= order_count_bounds(*self).1,
    {
        match self {
            MarketSpeed::Normal => random_u64_in(10, 30),
            MarketSpeed::Fast => random_u64_in(50, 250),
        }
    }
}

/// `x` kept within `[lo, hi]`.
pub open spec fn clamped(x: int, lo: int, hi: int) -> int {
    if x < lo {
        lo
    } else if x > hi {
        hi
    } else {
        x
    }
}

/// The price a simulated limit order aims at: the last traded price `ltp` moved
/// by `offset`, the move limited to `max_offset` either way, and the result kept
/// within `[floor, ceiling]`.
pub open spec fn sim_target(ltp: u64, offset: i64, max_offset: i64, floor: i64, ceiling: i64) -> int {
    clamped(ltp + clamped(offset as int, -max_offset, max_offset as int), floor as int, ceiling as int)
}

/// The price, in paisa, that a simulated limit order is placed at: its target
/// (see `sim_target`) snapped to the tick (see `snapped`).
pub fn sim_limit_price(ltp: Price, offset: i64, max_offset: i64, floor: i64, ceiling: i64) -> (r: u64)
    requires
        0 <= max_offset,
        0 <= floor <= ceiling,
        ltp.paisa + max_offset <= i64::MAX,
    ensures
        r == snapped(sim_target(ltp.paisa, offset, max_offset, floor, ceiling) as u64),
{
    let moved: i64 = if offset < -max_offset {
        -max_offset
    } else if offset > max_offset {
        max_offset
    } else {
        offset
    };
    let aimed: i64 = ltp.paisa as i64 + moved;
    let kept: i64 = if aimed < floor {
        floor
    } else if aimed > ceiling {
        ceiling
    } else {
        aimed
    };
    snap_to_tick(kept as u64)
}

/// The price, in paisa, of a limit order of the regime-based simulator: the
/// last traded price `ltp` moved by `offset`, the move limited to `max_offset`
/// either way, and never below 100 paisa.
pub fn regime_limit_price(ltp: Price, offset: i64, max_offset: i64) -> (r: u64)
    requires
        0 <= max_offset,
        ltp.paisa + max_offset <= i64::MAX,
    ensures
        r == (if ltp.paisa + clamped(offset as int, -max_offset, max_offset as int) >= 100 {
            ltp.paisa + clamped(offset as int, -max_offset, max_offset as int)
        } else {
            100
        }),
{
    let moved: i64 = if offset < -max_offset {
        -max_offset
    } else if offset > max_offset {
        max_offset
    } else {
        offset
    };
    let aimed: i64 = ltp.paisa as i64 + moved;
    if aimed >= 100 {
        aimed as u64
    } else {
        100
    }
}

/// The support and resistance levels around the last traded price that
/// simulated bracket exits are placed at.
#[derive(Debug, Clone, Copy)]
pub struct PivotLevels {
    pub r1: Price,
    pub r2: Price,
    pub r3: Price,
    pub s1: Price,
    pub s2: Price,
    pub s3: Price,
}

/// The first, second or third of three levels for a draw of 1, 2 or 3; any
/// other draw picks the third.
pub open spec fn pick_level(pick: u64, a: Price, b: Price, c: Price) -> Price {
    if pick == 1 {
        a
    } else if pick == 2 {
        b
    } else {
        c
    }
}

/// The stop-loss and target of a simulated bracket: a buy stops out at a
/// support and takes profit at a resistance, a sell the other way round.
pub open spec fn bracket_exits(side: BidOrAsk, l: PivotLevels, sl_pick: u64, tp_pick: u64) -> (Price, Price) {
    match side {
        BidOrAsk::Bid => (pick_level(sl_pick, l.s1, l.s2, l.s3), pick_level(tp_pick, l.r1, l.r2, l.r3)),
        BidOrAsk::Ask => (pick_level(sl_pick, l.r1, l.r2, l.r3), pick_level(tp_pick, l.s1, l.s2, l.s3)),
    }
}

fn pick(choice: u64, a: Price, b: Price, c: Price) -> (r: Price)
    ensures
        r == pick_level(choice, a, b, c),
{
    if choice == 1 {
        a
    } else if choice == 2 {
        b
    } else {
        c
    }
}

impl PivotLevels {
    /// The stop-loss and target for picks `sl_pick` and `tp_pick` (see `bracket_exits`).
    pub fn bracket_for(&self, side: BidOrAsk, sl_pick: u64, tp_pick: u64) -> (r: (Price, Price))
        ensures
            r == bracket_exits(side, *self, sl_pick, tp_pick),
    {
        match side {
            BidOrAsk::Bid => (pick(sl_pick, self.s1, self.s2, self.s3), pick(tp_pick, self.r1, self.r2, self.r3)),
            BidOrAsk::Ask => (pick(sl_pick, self.r1, self.r2, self.r3), pick(tp_pick, self.s1, self.s2, self.s3)),
        }
    }

    /// Draws the stop-loss and the target of a simulated bracket on `side`, each
    /// level picked at random among the three on its side.
    pub fn draw_bracket(&self, side: BidOrAsk) -> (r: (Price, Price))
        ensures
            exists|sl_pick: u64, tp_pick: u64|
                1 <= sl_pick <= 3 && 1 <= tp_pick <= 3 && r == bracket_exits(side, *self, sl_pick, tp_pick),
    {
        let sl_pick = random_u64_in(1, 3);
        let tp_pick = random_u64_in(1, 3);
        self.bracket_for(side, sl_pick, tp_pick)
    }
}

/// What the draws of one simulated order came to.
#[derive(Debug, Clone)]
pub struct SimOrder {
    pub side: BidOrAsk,
    pub is_market: bool,
    /// The limit price of a limit order.
    pub price_paisa: u64,
    pub size: u64,
    pub acc_no: String,
    /// The stop-loss and target of a bracket order.
    pub bracket: Option<(Price, Price)>,
}

impl SimOrder {
    /// The order to build for `symbol`: a market order carries no price, and a
    /// bracket order carries its stop-loss and target.
    pub fn builder(&self, symbol: String) -> (b: OrderBuilder)
        ensures
            b.symbol == symbol,
            b.price == (if self.is_market { None } else { Some(Price { paisa: self.price_paisa }) }),
            b.size == self.size,
            b.bid_or_ask == self.side,
            b.acc_no == self.acc_no,
            b.stop_loss == (match self.bracket { Some(e) => Some(e.0), None => None::<Price> }),
            b.target == (match self.bracket { Some(e) => Some(e.1), None => None::<Price> }),
    {
        let price = if self.is_market {
            None
        } else {
            Some(Price::from_paisa(self.price_paisa))
        };
        let b = OrderBuilder::new(symbol, price, self.size, self.side, self.acc_no.clone());
        match self.bracket {
            Some((sl, tp)) => b.stop_loss(sl).target(tp),
            None => b,
        }
    }
}

/// Draws the size of a simulated order: 1 to 200 shares.
pub fn draw_sim_size() -> (n: u64)
    ensures
        1 <= n <= 200,
{
    random_u64_in(1, 200)
}

/// Draws the account of a simulated order: a number from 100 to 997 in decimal.
pub fn draw_sim_account() -> (s: String)
    ensures
        exists|n: u64| 100 <= n <= 997 && s@ == crate::text::decimal_digits(n as nat),
{
    let n = random_u64_in(100, 997);
    decimal_string(n)
}

} // verus!
