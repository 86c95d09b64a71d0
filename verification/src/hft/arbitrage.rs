use vstd::prelude::*;

use crate::domain::market::MarketTick;
use crate::domain::order::{built_from, BidOrAsk, Order, OrderBuilder};
use crate::domain::price::Price;
use crate::hft::account::HftUser;
use crate::hft::order_router::{channel_names, handed_by, OrderRouter};
use crate::clock::{instant_now, nanos_since};
use crate::stats::{sorted_version, upper_median};

verus! {

/// The tick a subscriber receives.
pub type MarketSubscriptionTick = MarketTick;

/// A profitable pair of trades across two exchanges: buy at the best ask of
/// one, sell at the best bid of the other.
#[derive(Debug)]
pub struct ArbitrageOpportunity {
    pub symbol: String,
    pub buy_exchange: String,
    pub sell_exchange: String,
    /// Best ask on the buy exchange: the cost per share.
    pub buy_price: Price,
    /// Best bid on the sell exchange: the revenue per share.
    pub sell_price: Price,
    /// Net profit per share: sell price minus buy price.
    pub spread_paisa: u64,
    pub max_executable_quantity: u64,
}

/// Which of the two ticks of a tick pair.
#[derive(Debug, Clone, Copy, PartialEq, Eq, Structural)]
pub enum Venue {
    A,
    B,
}

/// What the engine does on a pair of ticks.
#[derive(Debug, Clone, Copy, PartialEq, Eq, Structural)]
pub enum TickDecision {
    /// Buy on `buy_on` at its best ask and sell on the other at its best bid.
    Arbitrage { buy_on: Venue, net_paisa: u64 },
    /// Reduce the inventory with a market order on `side` at venue `on`.
    Flush { side: BidOrAsk, on: Venue, qty: u64 },
    /// Nothing to do.
    Hold,
}

/// What the engine reports after a pair of ticks.
#[derive(Debug)]
pub struct TickReport {
    /// Best actionable net spread, never below zero.
    pub current_spread_paisa: u64,
    pub active_opportunity: Option<ArbitrageOpportunity>,
    pub unified_inventory: i64,
    pub batch_size: u64,
    pub ayushse_ltp: Price,
    pub bohrase_ltp: Price,
    pub winning_trades: u64,
    pub losing_trades: u64,
    pub total_trades: u64,
    /// How long the evaluation took, in nanoseconds.
    pub hft_internal_latency: u64,
    /// The median of the latest evaluation latencies, in nanoseconds.
    pub hft_median_latency: u64,
}

/// The cross-exchange arbitrage engine for one symbol.
pub struct CrossExchangeArbitrage {
    pub symbol: String,
    pub user: HftUser,
    pub router: OrderRouter,
    /// Net profit per share, in paisa, that a trade must exceed.
    pub min_profit_threshold_paisa: i64,
    /// Shares per leg.
    pub max_trade_size: u64,
    /// Inventory at which buying pauses.
    pub max_net_long_shares: i64,
    pub winning_trades: u64,
    pub losing_trades: u64,
    pub total_executed_arbitrages: u64,
    /// Latency of the last tick, in nanoseconds.
    pub hft_internal_latency: u64,
    /// Latencies of the latest ticks, in nanoseconds, oldest first.
    pub latency_history: Vec<u64>,
}

/// Net profit per share of buying at `ask` and selling at `bid`, each price
/// taken as an `i64`; none when either side is empty.
pub open spec fn net_of(ask: Option<Price>, bid: Option<Price>) -> Option<int> {
    match (ask, bid) {
        (Some(a), Some(b)) => Some((b.paisa as i64) - (a.paisa as i64)),
        _ => None,
    }
}

/// The net profit of both directions fits in an `i64`.
pub open spec fn profits_fit(a: MarketTick, b: MarketTick) -> bool {
    &&& (net_of(a.best_ask, b.best_bid) matches Some(d) ==> i64::MIN <= d <= i64::MAX)
    &&& (net_of(b.best_ask, a.best_bid) matches Some(d) ==> i64::MIN <= d <= i64::MAX)
}

/// A profit, or the lowest `i64` when the direction is not available.
pub open spec fn or_min(d: Option<int>) -> int {
    match d {
        Some(x) => x,
        None => i64::MIN as int,
    }
}

/// The best net profit of the available directions, 0 when none is.
pub open spec fn best_profit(d1: Option<int>, d2: Option<int>) -> int {
    match (d1, d2) {
        (Some(x), Some(y)) => if x >= y { x } else { y },
        (Some(x), None) => x,
        (None, Some(y)) => y,
        (None, None) => 0,
    }
}

/// The actionable spread: the best net profit, or 0 when it is negative.
pub open spec fn spread_of(a: MarketTick, b: MarketTick) -> u64 {
    let best = best_profit(net_of(a.best_ask, b.best_bid), net_of(b.best_ask, a.best_bid));
    if best > 0 {
        best as u64
    } else {
        0
    }
}

/// The venue with the best bid, `A` on a tie or when neither has a bid.
pub open spec fn best_bid_venue(a: MarketTick, b: MarketTick) -> Venue {
    match (a.best_bid, b.best_bid) {
        (Some(x), Some(y)) => if x.paisa >= y.paisa { Venue::A } else { Venue::B },
        (None, Some(_)) => Venue::B,
        _ => Venue::A,
    }
}

/// The venue with the best ask, `A` on a tie or when neither has an ask.
pub open spec fn best_ask_venue(a: MarketTick, b: MarketTick) -> Venue {
    match (a.best_ask, b.best_ask) {
        (Some(x), Some(y)) => if x.paisa <= y.paisa { Venue::A } else { Venue::B },
        (None, Some(_)) => Venue::B,
        _ => Venue::A,
    }
}

/// The engine's decision on ticks `a` and `b` with inventory `inv`. While the
/// inventory is below `max_long`, it trades the direction whose net profit
/// exceeds `threshold`, preferring buying on `a` when both do and that direction
/// is at least as profitable. Otherwise it works a long inventory off by selling
/// at the best bid, or a short one by buying at the best ask, at most `max_size`
/// shares at a time.
pub open spec fn decide(a: MarketTick, b: MarketTick, inv: i64, threshold: i64, max_long: i64, max_size: u64) -> TickDecision {
    let d1 = net_of(a.best_ask, b.best_bid);
    let d2 = net_of(b.best_ask, a.best_bid);
    if inv < max_long && or_min(d1) >= or_min(d2) && or_min(d1) > threshold {
        TickDecision::Arbitrage { buy_on: Venue::A, net_paisa: or_min(d1) as u64 }
    } else if inv < max_long && or_min(d2) > threshold {
        TickDecision::Arbitrage { buy_on: Venue::B, net_paisa: or_min(d2) as u64 }
    } else if inv > 0 {
        TickDecision::Flush {
            side: BidOrAsk::Ask,
            on: best_bid_venue(a, b),
            qty: if (inv as u64) <= max_size { inv as u64 } else { max_size },
        }
    } else if inv < 0 {
        TickDecision::Flush {
            side: BidOrAsk::Bid,
            on: best_ask_venue(a, b),
            qty: if ((-inv) as u64) <= max_size { (-inv) as u64 } else { max_size },
        }
    } else {
        TickDecision::Hold
    }
}

/// The other venue of the pair.
pub open spec fn other_venue(v: Venue) -> Venue {
    match v {
        Venue::A => Venue::B,
        Venue::B => Venue::A,
    }
}

/// An inventory flush trades where it can be worked off at the best price: a
/// long inventory is sold on an exchange that has a bid whenever either has one,
/// and on the one with the higher bid when both have; a short inventory is bought
/// back on an exchange that has an ask whenever either has one, and on the one
/// with the lower ask when both have. Each flush is for the whole inventory, or
/// for `max_size` shares when the inventory is larger.
pub proof fn lemma_flush_goes_to_best_quote(a: MarketTick, b: MarketTick, inv: i64, threshold: i64, max_long: i64, max_size: u64)
    ensures
        decide(a, b, inv, threshold, max_long, max_size) matches TickDecision::Flush { side, on, qty } ==> {
            let here = tick_of(on, a, b);
            let there = tick_of(other_venue(on), a, b);
            &&& qty <= max_size
            &&& (side == BidOrAsk::Ask ==> qty <= inv && (qty == inv || qty == max_size))
            &&& (side == BidOrAsk::Bid ==> qty <= -inv && (qty == -inv || qty == max_size))
            &&& side == BidOrAsk::Ask ==> {
                &&& inv > 0
                &&& (a.best_bid is Some || b.best_bid is Some ==> here.best_bid is Some)
                &&& match (here.best_bid, there.best_bid) {
                    (Some(x), Some(y)) => x.paisa >= y.paisa,
                    _ => true,
                }
            }
            &&& side == BidOrAsk::Bid ==> {
                &&& inv < 0
                &&& (a.best_ask is Some || b.best_ask is Some ==> here.best_ask is Some)
                &&& match (here.best_ask, there.best_ask) {
                    (Some(x), Some(y)) => x.paisa <= y.paisa,
                    _ => true,
                }
            }
        },
{
    let d1 = net_of(a.best_ask, b.best_bid);
    let d2 = net_of(b.best_ask, a.best_bid);
    let arb = (inv < max_long && or_min(d1) >= or_min(d2) && or_min(d1) > threshold) || (inv < max_long && or_min(d2)
        > threshold);
    if !arb && inv > 0 {
        assert(decide(a, b, inv, threshold, max_long, max_size) matches TickDecision::Flush { side, on, qty } && side
            == BidOrAsk::Ask && on == best_bid_venue(a, b));
    } else if !arb && inv < 0 {
        assert(decide(a, b, inv, threshold, max_long, max_size) matches TickDecision::Flush { side, on, qty } && side
            == BidOrAsk::Bid && on == best_ask_venue(a, b));
    }
}

/// The number of orders a decision sends.
pub open spec fn orders_sent(d: TickDecision) -> nat {
    match d {
        TickDecision::Arbitrage { .. } => 2,
        TickDecision::Flush { .. } => 1,
        TickDecision::Hold => 0,
    }
}

/// The tick of venue `v`.
pub open spec fn tick_of(v: Venue, a: MarketTick, b: MarketTick) -> MarketTick {
    match v {
        Venue::A => a,
        Venue::B => b,
    }
}

/// `o` is a new market order of `size` shares of `symbol` on `side` for account `acc_no`.
pub open spec fn new_market_order(o: Order, symbol: String, size: u64, side: BidOrAsk, acc_no: String) -> bool {
    built_from(o, OrderBuilder { symbol, price: None, size, bid_or_ask: side, acc_no, stop_loss: None, target: None })
}

/// `sends` are the orders, with the exchange each goes to, that the engine for
/// `symbol` trading on account `acc_no` sends on decision `d` for ticks `a` and
/// `b`: for an arbitrage, a market buy of `size` shares to the exchange of the
/// buy venue, then a market sell of `size` shares to the other; for a flush, one
/// market order of the flush's side and quantity to the flush's venue.
pub open spec fn sends_for(
    d: TickDecision,
    a: MarketTick,
    b: MarketTick,
    symbol: String,
    acc_no: String,
    size: u64,
    sends: Seq<(Seq<char>, Order)>,
) -> bool {
    match d {
        TickDecision::Arbitrage { buy_on, .. } => {
            let buy = tick_of(buy_on, a, b);
            let sell = tick_of(if buy_on == Venue::A { Venue::B } else { Venue::A }, a, b);
            &&& sends.len() == 2
            &&& sends[0].0 == buy.exchange_name@
            &&& new_market_order(sends[0].1, symbol, size, BidOrAsk::Bid, acc_no)
            &&& sends[1].0 == sell.exchange_name@
            &&& new_market_order(sends[1].1, symbol, size, BidOrAsk::Ask, acc_no)
        },
        TickDecision::Flush { side, on, qty } => {
            &&& sends.len() == 1
            &&& sends[0].0 == tick_of(on, a, b).exchange_name@
            &&& new_market_order(sends[0].1, symbol, qty, side, acc_no)
        },
        TickDecision::Hold => sends.len() == 0,
    }
}

proof fn lemma_handed_by_push(sends: Seq<(Seq<char>, Order)>, x: (Seq<char>, Order), s: Seq<char>, registered: bool)
    ensures
        handed_by(sends.push(x), s, registered) == handed_by(sends, s, registered) + handed_by(seq![x], s, registered),
{
    assert(sends.push(x).drop_last() =~= sends);
    assert(seq![x].drop_last() =~= Seq::<(Seq<char>, Order)>::empty());
    assert(handed_by(seq![x].drop_last(), s, registered) == Seq::<Order>::empty());
    let tail = if registered && x.0 == s { seq![x.1] } else { Seq::<Order>::empty() };
    assert(handed_by(seq![x], s, registered) =~= Seq::<Order>::empty() + tail);
}

/// The latency history after recording `n`: appended, and the oldest dropped
/// once there are more than 1000.
pub open spec fn latency_window(h: Seq<u64>, n: u64) -> Seq<u64> {
    if h.push(n).len() > 1000 {
        h.push(n).drop_first()
    } else {
        h.push(n)
    }
}


/// The engine trades only on an edge: an arbitrage is taken only while the
/// inventory is below the cap, on a direction whose net profit exceeds the
/// threshold and is at least that of the other direction when both exceed it, and
/// with a threshold of zero or more its profit is positive. A flush moves
/// the inventory towards zero by at most `max_size` shares and never past zero,
/// and only when no arbitrage is taken; the engine holds only with no inventory.
pub proof fn lemma_decisions(a: MarketTick, b: MarketTick, inv: i64, threshold: i64, max_long: i64, max_size: u64)
    requires
        profits_fit(a, b),
        inv != i64::MIN,
    ensures
        ({
            let d1 = net_of(a.best_ask, b.best_bid);
            let d2 = net_of(b.best_ask, a.best_bid);
            match decide(a, b, inv, threshold, max_long, max_size) {
                TickDecision::Arbitrage { buy_on, net_paisa } => {
                    &&& inv < max_long
                    &&& buy_on == Venue::A ==> (d1 matches Some(p) && p > threshold && net_paisa == p as u64 && (d2 matches Some(q) ==> q <= p))
                    &&& buy_on == Venue::B ==> (d2 matches Some(p) && p > threshold && net_paisa == p as u64 && (d1 matches Some(q) ==> (q <= threshold || q < p)))
                    &&& threshold >= 0 ==> net_paisa > threshold
                },
                TickDecision::Flush { side, on, qty } => {
                    &&& !(inv < max_long && (or_min(d1) > threshold || or_min(d2) > threshold))
                    &&& inv != 0
                    &&& (side == BidOrAsk::Ask) == (inv > 0)
                    &&& qty <= max_size
                    &&& inv > 0 ==> qty <= inv && (qty == inv || qty == max_size)
                    &&& inv < 0 ==> qty <= -inv && (qty == -inv || qty == max_size)
                },
                TickDecision::Hold => {
                    &&& inv == 0
                    &&& !(inv < max_long && (or_min(d1) > threshold || or_min(d2) > threshold))
                },
            }
        }),
{
}

fn net_exec(ask: Option<Price>, bid: Option<Price>) -> (r: Option<i64>)
    requires
        net_of(ask, bid) matches Some(d) ==> i64::MIN <= d <= i64::MAX,
    ensures
        match net_of(ask, bid) {
            Some(d) => r == Some(d as i64),
            None => r is None,
        },
{
    match (ask, bid) {
        (Some(a), Some(b)) => Some((b.paisa as i64) - (a.paisa as i64)),
        _ => None,
    }
}

fn or_min_exec(d: Option<i64>) -> (r: i64)
    ensures
        r == match d {
            Some(x) => x as int,
            None => i64::MIN as int,
        },
{
    match d {
        Some(x) => x,
        None => i64::MIN,
    }
}

fn bid_venue_exec(a: &MarketTick, b: &MarketTick) -> (v: Venue)
    ensures
        v == best_bid_venue(*a, *b),
{
    match (a.best_bid, b.best_bid) {
        (Some(x), Some(y)) => if x.paisa >= y.paisa {
            Venue::A
        } else {
            Venue::B
        },
        (None, Some(_)) => Venue::B,
        _ => Venue::A,
    }
}

fn ask_venue_exec(a: &MarketTick, b: &MarketTick) -> (v: Venue)
    ensures
        v == best_ask_venue(*a, *b),
{
    match (a.best_ask, b.best_ask) {
        (Some(x), Some(y)) => if x.paisa <= y.paisa {
            Venue::A
        } else {
            Venue::B
        },
        (None, Some(_)) => Venue::B,
        _ => Venue::A,
    }
}

/// The decision on ticks `a` and `b` with inventory `inv` (see `decide`).
pub fn decide_tick(a: &MarketTick, b: &MarketTick, inv: i64, threshold: i64, max_long: i64, max_size: u64) -> (d: TickDecision)
    requires
        profits_fit(*a, *b),
        inv != i64::MIN,
    ensures
        d == decide(*a, *b, inv, threshold, max_long, max_size),
{
    let d1 = net_exec(a.best_ask, b.best_bid);
    let d2 = net_exec(b.best_ask, a.best_bid);
    let m1 = or_min_exec(d1);
    let m2 = or_min_exec(d2);
    if inv < max_long && m1 >= m2 && m1 > threshold {
        TickDecision::Arbitrage { buy_on: Venue::A, net_paisa: m1 as u64 }
    } else if inv < max_long && m2 > threshold {
        TickDecision::Arbitrage { buy_on: Venue::B, net_paisa: m2 as u64 }
    } else if inv > 0 {
        let q = inv as u64;
        TickDecision::Flush { side: BidOrAsk::Ask, on: bid_venue_exec(a, b), qty: if q <= max_size { q } else { max_size } }
    } else if inv < 0 {
        let q = (-inv) as u64;
        TickDecision::Flush { side: BidOrAsk::Bid, on: ask_venue_exec(a, b), qty: if q <= max_size { q } else { max_size } }
    } else {
        TickDecision::Hold
    }
}

/// The actionable spread of ticks `a` and `b` (see `spread_of`).
pub fn spread_paisa(a: &MarketTick, b: &MarketTick) -> (s: u64)
    requires
        profits_fit(*a, *b),
    ensures
        s == spread_of(*a, *b),
{
    let d1 = net_exec(a.best_ask, b.best_bid);
    let d2 = net_exec(b.best_ask, a.best_bid);
    let best: i64 = match (d1, d2) {
        (Some(x), Some(y)) => if x >= y {
            x
        } else {
            y
        },
        (Some(x), None) => x,
        (None, Some(y)) => y,
        (None, None) => 0,
    };
    if best > 0 {
        best as u64
    } else {
        0
    }
}

impl CrossExchangeArbitrage {
    /// An engine for `symbol` trading for `user` through `router`: more than ₹1
    /// net profit per share, 100 shares per leg, buying paused at 1000 shares long.
    pub fn new(symbol: String, user: HftUser, router: OrderRouter) -> (e: Self)
        ensures
            e.symbol == symbol,
            e.user == user,
            e.router == router,
            e.min_profit_threshold_paisa == 100,
            e.max_trade_size == 100,
            e.max_net_long_shares == 1000,
            e.winning_trades == 0,
            e.losing_trades == 0,
            e.total_executed_arbitrages == 0,
            e.hft_internal_latency == 450,
            e.latency_history@.len() == 0,
    {
        Self {
            symbol,
            user,
            router,
            min_profit_threshold_paisa: 100,
            max_trade_size: 100,
            max_net_long_shares: 1000,
            winning_trades: 0,
            losing_trades: 0,
            total_executed_arbitrages: 0,
            hft_internal_latency: 450,
            latency_history: Vec::new(),
        }
    }

    /// The inventory the engine trades on: the shares held, as an `i64`.
    pub open spec fn inventory(self) -> i64 {
        (self.user.portfolio.shares_of(self.symbol@) as u64) as i64
    }

    /// Evaluates a pair of ticks (`tick_a` from one exchange, `tick_b` from the
    /// other) and acts on `decide`: for an arbitrage it sends a market buy of
    /// `max_trade_size` shares to the cheap exchange and a market sell to the dear
    /// one, and counts a winning arbitrage; for a flush it sends one market order.
    /// Whether each send reaches its exchange depends on the channel, which is
    /// reflected only in the router's count.
    pub fn on_market_tick(&mut self, tick_a: &MarketTick, tick_b: &MarketTick) -> (r: TickReport)
        requires
            old(self).user.portfolio.shares_of(old(self).symbol@) <= u64::MAX,
            old(self).inventory() != i64::MIN,
            profits_fit(*tick_a, *tick_b),
            old(self).router.routed_order_count <= u64::MAX - 2,
            old(self).total_executed_arbitrages < u64::MAX,
            old(self).winning_trades < u64::MAX,
        ensures
            ({
                let d = decide(
                    *tick_a,
                    *tick_b,
                    old(self).inventory(),
                    old(self).min_profit_threshold_paisa,
                    old(self).max_net_long_shares,
                    old(self).max_trade_size,
                );
                &&& r.current_spread_paisa == spread_of(*tick_a, *tick_b)
                &&& r.unified_inventory == old(self).inventory()
                &&& r.ayushse_ltp == tick_a.ltp
                &&& r.bohrase_ltp == tick_b.ltp
                &&& match d {
                    TickDecision::Arbitrage { buy_on, net_paisa } => {
                        let buy = tick_of(buy_on, *tick_a, *tick_b);
                        let sell = tick_of(if buy_on == Venue::A { Venue::B } else { Venue::A }, *tick_a, *tick_b);
                        &&& r.active_opportunity matches Some(o) && o.symbol == old(self).symbol
                            && o.buy_exchange == buy.exchange_name && o.sell_exchange == sell.exchange_name
                            && Some(o.buy_price) == buy.best_ask && Some(o.sell_price) == sell.best_bid
                            && o.spread_paisa == net_paisa && o.max_executable_quantity == old(self).max_trade_size
                        &&& r.batch_size == old(self).max_trade_size
                        &&& final(self).total_executed_arbitrages == old(self).total_executed_arbitrages + 1
                        &&& final(self).winning_trades == old(self).winning_trades + 1
                    },
                    _ => {
                        &&& r.active_opportunity is None
                        &&& r.batch_size == 0
                        &&& final(self).total_executed_arbitrages == old(self).total_executed_arbitrages
                        &&& final(self).winning_trades == old(self).winning_trades
                    },
                }
                &&& channel_names(final(self).router.exchange_channels@) == channel_names(old(self).router.exchange_channels@)
                &&& exists|sends: Seq<(Seq<char>, Order)>|
                    sends_for(d, *tick_a, *tick_b, old(self).symbol, old(self).user.portfolio.acc_no, old(self).max_trade_size, sends)
                    && forall|s: Seq<char>| #[trigger] final(self).router.handed_to(s) == old(self).router.handed_to(s)
                        + handed_by(sends, s, old(self).router.has_exchange(s))
                &&& old(self).router.routed_order_count <= final(self).router.routed_order_count
                    <= old(self).router.routed_order_count + orders_sent(d)
            }),
            r.winning_trades == final(self).winning_trades,
            r.losing_trades == final(self).losing_trades,
            r.total_trades == final(self).total_executed_arbitrages,
            final(self).losing_trades == old(self).losing_trades,
            final(self).symbol == old(self).symbol,
            final(self).user == old(self).user,
            final(self).min_profit_threshold_paisa == old(self).min_profit_threshold_paisa,
            final(self).max_trade_size == old(self).max_trade_size,
            final(self).max_net_long_shares == old(self).max_net_long_shares,
            final(self).latency_history@ == latency_window(old(self).latency_history@, final(self).hft_internal_latency),
            r.hft_internal_latency == final(self).hft_internal_latency,
            exists|t: Seq<u64>|
                sorted_version(t, final(self).latency_history@) && r.hft_median_latency == t[(final(self).latency_history@.len() / 2) as int],
    {
        let t0 = instant_now();
        let current_spread_paisa = spread_paisa(tick_a, tick_b);
        let current_inventory = self.user.total_shares(self.symbol.as_str());
        let decision = decide_tick(
            tick_a,
            tick_b,
            current_inventory,
            self.min_profit_threshold_paisa,
            self.max_net_long_shares,
            self.max_trade_size,
        );
        let mut opportunity: Option<ArbitrageOpportunity> = None;
        let ghost r0 = self.router;
        let ghost mut sends: Seq<(Seq<char>, Order)> = Seq::empty();
        match decision {
            TickDecision::Arbitrage { buy_on, net_paisa } => {
                let (buy_tick, sell_tick) = match buy_on {
                    Venue::A => (tick_a, tick_b),
                    Venue::B => (tick_b, tick_a),
                };
                let qty = self.max_trade_size;
                let buy_price = match buy_tick.best_ask {
                    Some(p) => p,
                    None => Price { paisa: 0 },
                };
                let sell_price = match sell_tick.best_bid {
                    Some(p) => p,
                    None => Price { paisa: 0 },
                };
                opportunity = Some(
                    ArbitrageOpportunity {
                        symbol: self.symbol.clone(),
                        buy_exchange: buy_tick.exchange_name.clone(),
                        sell_exchange: sell_tick.exchange_name.clone(),
                        buy_price,
                        sell_price,
                        spread_paisa: net_paisa,
                        max_executable_quantity: qty,
                    },
                );
                let acc_no = self.user.account_number();
                let buy_order = Order::new(self.symbol.clone(), None, qty, BidOrAsk::Bid, acc_no.clone());
                let sell_order = Order::new(self.symbol.clone(), None, qty, BidOrAsk::Ask, acc_no);
                proof {
                    sends = seq![(buy_tick.exchange_name@, buy_order), (sell_tick.exchange_name@, sell_order)];
                }
                let _ = self.router.send_order(buy_tick.exchange_name.as_str(), buy_order);
                let ghost r1 = self.router;
                let _ = self.router.send_order(sell_tick.exchange_name.as_str(), sell_order);
                proof {
                    assert(seq![sends[0]].push(sends[1]) =~= sends);
                    assert forall|s: Seq<char>| #[trigger] self.router.handed_to(s) == r0.handed_to(s) + handed_by(
                        sends,
                        s,
                        r0.has_exchange(s),
                    ) by {
                        assert(r1.has_exchange(s) == r0.has_exchange(s));
                        lemma_handed_by_push(seq![sends[0]], sends[1], s, r0.has_exchange(s));
                        assert(r1.handed_to(s) == r0.handed_to(s) + handed_by(seq![sends[0]], s, r0.has_exchange(s)));
                        assert(self.router.handed_to(s) == r1.handed_to(s) + handed_by(seq![sends[1]], s, r0.has_exchange(s)));
                        assert(r0.handed_to(s) + handed_by(seq![sends[0]], s, r0.has_exchange(s)) + handed_by(seq![sends[1]], s, r0.has_exchange(s))
                            =~= r0.handed_to(s) + handed_by(sends, s, r0.has_exchange(s)));
                    }
                }
                self.total_executed_arbitrages = self.total_executed_arbitrages + 1;
                self.winning_trades = self.winning_trades + 1;
            },
            TickDecision::Flush { side, on, qty } => {
                let acc_no = self.user.account_number();
                let ex = match on {
                    Venue::A => tick_a.exchange_name.as_str(),
                    Venue::B => tick_b.exchange_name.as_str(),
                };
                let flush_order = Order::new(self.symbol.clone(), None, qty, side, acc_no);
                proof {
                    sends = seq![(ex@, flush_order)];
                }
                let _ = self.router.send_order(ex, flush_order);
            },
            TickDecision::Hold => {
                proof {
                    assert forall|s: Seq<char>| #[trigger] self.router.handed_to(s) == r0.handed_to(s) + handed_by(
                        sends,
                        s,
                        r0.has_exchange(s),
                    ) by {
                        assert(r0.handed_to(s) + handed_by(sends, s, r0.has_exchange(s)) =~= r0.handed_to(s));
                    }
                }
            },
        }
        proof {
            assert(sends_for(decision, *tick_a, *tick_b, self.symbol, self.user.portfolio.acc_no, self.max_trade_size, sends));
            assert(forall|s: Seq<char>| #[trigger] self.router.handed_to(s) == r0.handed_to(s) + handed_by(sends, s, r0.has_exchange(s)));
        }
        let batch_size = match &opportunity {
            Some(o) => o.max_executable_quantity,
            None => 0,
        };
        let elapsed = nanos_since(&t0);
        let internal: u64 = if elapsed > u64::MAX as u128 {
            u64::MAX
        } else {
            elapsed as u64
        };
        let median = self.record_latency(internal);
        TickReport {
            hft_internal_latency: internal,
            hft_median_latency: median,
            current_spread_paisa,
            active_opportunity: opportunity,
            unified_inventory: current_inventory,
            batch_size,
            ayushse_ltp: tick_a.ltp,
            bohrase_ltp: tick_b.ltp,
            winning_trades: self.winning_trades,
            losing_trades: self.losing_trades,
            total_trades: self.total_executed_arbitrages,
        }
    }

    /// Records the latency of a tick, in nanoseconds, in the rolling history of
    /// the latest 1000 and gives the median of the history: its middle value once
    /// sorted, the upper middle one when their number is even.
    pub fn record_latency(&mut self, nanos: u64) -> (median: u64)
        ensures
            final(self).hft_internal_latency == nanos,
            final(self).latency_history@ == latency_window(old(self).latency_history@, nanos),
            exists|t: Seq<u64>|
                sorted_version(t, final(self).latency_history@) && median == t[(final(self).latency_history@.len() / 2) as int],
            final(self).symbol == old(self).symbol,
            final(self).user == old(self).user,
            final(self).router == old(self).router,
            final(self).winning_trades == old(self).winning_trades,
            final(self).losing_trades == old(self).losing_trades,
            final(self).total_executed_arbitrages == old(self).total_executed_arbitrages,
            final(self).min_profit_threshold_paisa == old(self).min_profit_threshold_paisa,
            final(self).max_trade_size == old(self).max_trade_size,
            final(self).max_net_long_shares == old(self).max_net_long_shares,
    {
        self.hft_internal_latency = nanos;
        self.latency_history.push(nanos);
        if self.latency_history.len() > 1000 {
            self.latency_history.remove(0);
        }
        assert(self.latency_history@.len() > 0);
        upper_median(&self.latency_history)
    }
}

} // verus!
