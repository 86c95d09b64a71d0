use vstd::prelude::*;

use std::collections::VecDeque;

use crate::domain::order::{opposite_side, BidOrAsk, Order};
use crate::domain::price::{money_string, money_text, Price};
use crate::domain::trade::{trades_total, Trade};
use crate::text::{decimal_digits, decimal_string, pad_left, pad_left_string};

verus! {

/// All resting orders at one price, oldest first.
#[derive(Debug)]
pub struct PriceLevel {
    pub price: Price,
    pub orders: VecDeque<Order>,
}

/// The limit order book of one symbol. Each side is a list of price levels
/// ordered from the worst price to the best one, so that the best level is the
/// last: bids by rising price, asks by falling price.
#[derive(Debug)]
pub struct OrderBook {
    pub symbol: String,
    pub ltp: Price,
    pub bids: Vec<PriceLevel>,
    pub asks: Vec<PriceLevel>,
}

/// Price `p` is strictly better than `q` for orders resting on `side`:
/// a higher bid, or a lower ask.
pub open spec fn strictly_better(side: BidOrAsk, p: u64, q: u64) -> bool {
    match side {
        BidOrAsk::Bid => p > q,
        BidOrAsk::Ask => p < q,
    }
}

/// Price `p` is at least as good as `q` for orders resting on `side`.
pub open spec fn at_least_as_good(side: BidOrAsk, p: u64, q: u64) -> bool {
    match side {
        BidOrAsk::Bid => p >= q,
        BidOrAsk::Ask => p <= q,
    }
}

/// The limit price of a resting order.
pub open spec fn resting_price(o: Order) -> Price {
    match o.0.price {
        Some(p) => p,
        None => Price { paisa: 0 },
    }
}

/// An order may rest at price `p`: it is priced at `p` and not yet filled.
pub open spec fn resting_ok(o: Order, p: Price) -> bool {
    &&& o.0.price == Some(p)
    &&& o.0.filled_size < o.0.size
}

/// The levels of one side are well formed: prices strictly improve towards the
/// end, no level is empty, and every order is an unfilled order of that side
/// resting at its level's price.
pub open spec fn levels_wf(levels: Seq<PriceLevel>, side: BidOrAsk) -> bool {
    &&& forall|i: int, j: int|
        0 <= i < j < levels.len() ==> strictly_better(side, #[trigger] levels[j].price.paisa, #[trigger] levels[i].price.paisa)
    &&& forall|i: int| 0 <= i < levels.len() ==> (#[trigger] levels[i]).orders@.len() > 0
    &&& forall|i: int, k: int|
        0 <= i < levels.len() && 0 <= k < levels[i].orders@.len() ==> resting_ok(
            #[trigger] levels[i].orders@[k],
            levels[i].price,
        ) && levels[i].orders@[k].0.bid_or_ask == side
}

/// The resting orders of one side in priority order: best price first and,
/// at one price, oldest first.
pub open spec fn queue_of(levels: Seq<PriceLevel>) -> Seq<Order>
    decreases levels.len(),
{
    if levels.len() == 0 {
        Seq::empty()
    } else {
        levels.last().orders@ + queue_of(levels.drop_last())
    }
}

/// One execution against a resting order: its price, the quantity, and the
/// resting order's account.
pub struct Fill {
    pub price: Price,
    pub quantity: u64,
    pub resting_acc_no: String,
}

/// An incoming order on `side` with limit `limit` (none for a market order)
/// may trade against an order resting at `resting`.
pub open spec fn crosses(side: BidOrAsk, limit: Option<Price>, resting: Price) -> bool {
    match limit {
        None => true,
        Some(l) => match side {
            BidOrAsk::Bid => l.paisa >= resting.paisa,
            BidOrAsk::Ask => l.paisa <= resting.paisa,
        },
    }
}

/// Price-time priority matching. An incoming order on `side` that still wants
/// `want` shares trades against the resting orders of `queue` from the front,
/// as long as it wants more and the front order's price crosses its limit. Each
/// execution is for the smaller of the two remaining quantities; a resting order
/// that is filled leaves the queue, one that is only partly filled stays at the
/// front. Gives the executions and what is left of the queue.
pub open spec fn match_queue(queue: Seq<Order>, want: nat, side: BidOrAsk, limit: Option<Price>) -> (Seq<Fill>, Seq<Order>)
    decreases queue.len(),
{
    if want == 0 || queue.len() == 0 || !crosses(side, limit, resting_price(queue[0])) {
        (Seq::empty(), queue)
    } else {
        let r = queue[0].remaining();
        let q: nat = if want <= r { want } else { r as nat };
        let f = Fill { price: resting_price(queue[0]), quantity: q as u64, resting_acc_no: queue[0].0.acc_no };
        if q == r {
            let sub = match_queue(queue.drop_first(), (want - q) as nat, side, limit);
            (seq![f] + sub.0, sub.1)
        } else {
            (seq![f], queue.update(0, queue[0].filled_by(q)))
        }
    }
}

/// Trades reported one for one for executions total the executions' quantity.
pub proof fn lemma_trades_total_fills(trades: Seq<Trade>, fills: Seq<Fill>, symbol: String, acc_no: String, side: BidOrAsk)
    requires
        trades_for_fills(trades, fills, symbol, acc_no, side),
    ensures
        trades_total(trades) == fills_total(fills),
    decreases fills.len(),
{
    if fills.len() > 0 {
        let t2 = trades.drop_last();
        let f2 = fills.drop_last();
        assert forall|i: int| 0 <= i < f2.len() implies trade_for_fill(#[trigger] t2[i], i, f2[i], symbol, acc_no, side) by {
            assert(t2[i] == trades[i]);
            assert(f2[i] == fills[i]);
        }
        lemma_trades_total_fills(t2, f2, symbol, acc_no, side);
        assert(trade_for_fill(trades[fills.len() - 1], fills.len() - 1, fills[fills.len() - 1], symbol, acc_no, side));
    }
}

/// The total quantity of a list of executions.
pub open spec fn fills_total(fills: Seq<Fill>) -> nat
    decreases fills.len(),
{
    if fills.len() == 0 {
        0
    } else {
        fills_total(fills.drop_last()) + fills.last().quantity as nat
    }
}

/// The last traded price after `fills`, starting from `ltp`.
pub open spec fn last_price(fills: Seq<Fill>, ltp: Price) -> Price {
    if fills.len() > 0 {
        fills.last().price
    } else {
        ltp
    }
}

/// `t` is the trade reported for the `i`-th execution `f` of an incoming order
/// on `side` from account `acc_no`: ids count up from 1000, and the incoming
/// order is the buyer when it is a bid and the seller when it is an ask.
pub open spec fn trade_for_fill(t: Trade, i: int, f: Fill, symbol: String, acc_no: String, side: BidOrAsk) -> bool {
    &&& t.id == 1000 + i
    &&& t.symbol == symbol
    &&& t.price == f.price
    &&& t.quantity == f.quantity
    &&& t.buyer_acc_no == (if side == BidOrAsk::Bid { acc_no } else { f.resting_acc_no })
    &&& t.seller_acc_no == (if side == BidOrAsk::Bid { f.resting_acc_no } else { acc_no })
}

/// `trades` are the trades reported for `fills`, one for one and in order.
pub open spec fn trades_for_fills(trades: Seq<Trade>, fills: Seq<Fill>, symbol: String, acc_no: String, side: BidOrAsk) -> bool {
    &&& trades.len() == fills.len()
    &&& forall|i: int| 0 <= i < fills.len() ==> trade_for_fill(#[trigger] trades[i], i, fills[i], symbol, acc_no, side)
}

/// The number of leading orders of `queue` whose price is at least as good as `p`.
pub open spec fn count_at_least(queue: Seq<Order>, p: Price, side: BidOrAsk) -> nat
    decreases queue.len(),
{
    if queue.len() == 0 {
        0
    } else if at_least_as_good(side, resting_price(queue[0]).paisa, p.paisa) {
        1 + count_at_least(queue.drop_first(), p, side)
    } else {
        0
    }
}

/// `queue` with `o` placed behind every order priced at least as well as it:
/// where a new order on `side` joins the queue.
pub open spec fn insert_by_priority(queue: Seq<Order>, o: Order, side: BidOrAsk) -> Seq<Order> {
    queue.insert(count_at_least(queue, resting_price(o), side) as int, o)
}

/// The message reported for a processed limit order.
pub open spec fn limit_message(side: BidOrAsk) -> Seq<char> {
    match side {
        BidOrAsk::Bid => "Limit Bid Processed."@,
        BidOrAsk::Ask => "Limit Ask Processed."@,
    }
}

/// The message reported for a market order that ends with `filled` shares filled.
pub open spec fn market_message(filled: u64) -> Seq<char> {
    if filled == 0 {
        "Order Cannot Be Fulfilled."@
    } else {
        "Order Processed."@
    }
}


/// The executions of a limit order against `book`.
pub open spec fn limit_fills(book: OrderBook, order: Order) -> Seq<Fill> {
    match_queue(queue_of(book.levels_of(opposite_side(order.0.bid_or_ask))), order.remaining() as nat, order.0.bid_or_ask, order.0.price).0
}

/// The executions of a market order against `book`.
pub open spec fn market_fills(book: OrderBook, order: Order) -> Seq<Fill> {
    match_queue(queue_of(book.levels_of(opposite_side(order.0.bid_or_ask))), order.remaining() as nat, order.0.bid_or_ask, None).0
}

/// An order never executes more than it has remaining.
pub proof fn lemma_fills_bounded(book: OrderBook, order: Order)
    requires
        book.wf(),
        order.0.filled_size <= order.0.size,
    ensures
        fills_total(limit_fills(book, order)) <= order.remaining(),
        fills_total(market_fills(book, order)) <= order.remaining(),
{
    let side = order.0.bid_or_ask;
    let opp = opposite_side(side);
    lemma_queue_elements(book.levels_of(opp), opp, Price { paisa: 0 });
    lemma_match_conserves(queue_of(book.levels_of(opp)), order.remaining() as nat, side, order.0.price);
    lemma_match_conserves(queue_of(book.levels_of(opp)), order.remaining() as nat, side, None);
}

/// What a limit order needs of the book and of itself: a well-formed book, trade
/// ids that fit, a filled size within the size, and a price when anything remains.
pub open spec fn limit_order_ok(book: OrderBook, order: Order) -> bool {
    &&& book.wf()
    &&& book.ids_fit(order.0.bid_or_ask)
    &&& order.0.filled_size <= order.0.size
    &&& order.remaining() > 0 ==> order.0.price is Some
}

/// What a market order needs of the book and of itself.
pub open spec fn market_order_ok(book: OrderBook, order: Order) -> bool {
    &&& book.wf()
    &&& book.ids_fit(order.0.bid_or_ask)
    &&& order.0.filled_size <= order.0.size
}

/// The outcome of a limit order: `after` is `before` once `order` has been
/// matched by price-time priority within its limit, with what is left of it
/// resting on its own side; `r` reports the trades.
pub open spec fn limit_order_done(before: OrderBook, order: Order, after: OrderBook, r: Result<(Vec<Trade>, String), String>) -> bool {
    let side = order.0.bid_or_ask;
    let opp = opposite_side(side);
    let m = match_queue(queue_of(before.levels_of(opp)), order.remaining() as nat, side, order.0.price);
    let rest = applied(order, fills_total(m.0));
    &&& after.wf()
    &&& after.symbol == before.symbol
    &&& r matches Ok((trades, msg)) && trades_for_fills(trades@, m.0, before.symbol, order.0.acc_no, side)
        && msg@ == limit_message(side)
    &&& queue_of(after.levels_of(opp)) == m.1
    &&& after.ltp == last_price(m.0, before.ltp)
    &&& if rest.remaining() > 0 {
        queue_of(after.levels_of(side)) == insert_by_priority(queue_of(before.levels_of(side)), rest, side)
    } else {
        after.levels_of(side) == before.levels_of(side)
    }
}

/// The outcome of a market order: `after` is `before` once `order` has been
/// matched by price-time priority at any price; nothing of it rests.
pub open spec fn market_order_done(before: OrderBook, order: Order, after: OrderBook, r: Result<(Vec<Trade>, String), String>) -> bool {
    let side = order.0.bid_or_ask;
    let opp = opposite_side(side);
    let m = match_queue(queue_of(before.levels_of(opp)), order.remaining() as nat, side, None);
    let rest = applied(order, fills_total(m.0));
    &&& after.wf()
    &&& after.symbol == before.symbol
    &&& r matches Ok((trades, msg)) && trades_for_fills(trades@, m.0, before.symbol, order.0.acc_no, side)
        && msg@ == market_message(rest.0.filled_size)
    &&& queue_of(after.levels_of(opp)) == m.1
    &&& after.ltp == last_price(m.0, before.ltp)
    &&& after.levels_of(side) == before.levels_of(side)
}

impl OrderBook {
    /// The levels of one side.
    pub open spec fn levels_of(self, side: BidOrAsk) -> Seq<PriceLevel> {
        match side {
            BidOrAsk::Bid => self.bids@,
            BidOrAsk::Ask => self.asks@,
        }
    }

    /// Both sides are well formed, and the book is not crossed: when both sides
    /// hold orders, the best bid is below the best ask.
    pub open spec fn wf(self) -> bool {
        &&& levels_wf(self.bids@, BidOrAsk::Bid)
        &&& levels_wf(self.asks@, BidOrAsk::Ask)
        &&& (self.bids@.len() > 0 && self.asks@.len() > 0 ==> self.bids@.last().price.paisa < self.asks@.last().price.paisa)
    }

    /// Trade ids of an order on `side` count up from 1000 once per execution, and
    /// there are at most as many executions as orders resting on the other side:
    /// the ids fit in a `u64`.
    pub open spec fn ids_fit(self, side: BidOrAsk) -> bool {
        queue_of(self.levels_of(opposite_side(side))).len() + 1000 <= u64::MAX
    }

    /// An empty book for `symbol` whose last traded price is `ltp`.
    pub fn new(symbol: String, ltp: Price) -> (b: Self)
        ensures
            b.wf(),
            b.symbol == symbol,
            b.ltp == ltp,
            b.bids@.len() == 0,
            b.asks@.len() == 0,
    {
        Self { symbol, ltp, bids: Vec::new(), asks: Vec::new() }
    }

    /// The highest resting bid price, if any bid rests.
    pub fn best_bid(&self) -> (r: Option<Price>)
        ensures
            r == (if self.bids@.len() > 0 { Some(self.bids@.last().price) } else { None::<Price> }),
    {
        let n = self.bids.len();
        if n > 0 {
            Some(self.bids[n - 1].price)
        } else {
            None
        }
    }

    /// The lowest resting ask price, if any ask rests.
    pub fn best_ask(&self) -> (r: Option<Price>)
        ensures
            r == (if self.asks@.len() > 0 { Some(self.asks@.last().price) } else { None::<Price> }),
    {
        let n = self.asks.len();
        if n > 0 {
            Some(self.asks[n - 1].price)
        } else {
            None
        }
    }

    /// Whether the trade ids of an order on `side` fit in a `u64` (see `ids_fit`).
    pub fn fits_trade_ids(&self, side: BidOrAsk) -> (r: bool)
        ensures
            r == self.ids_fit(side),
    {
        match side {
            BidOrAsk::Bid => count_fits(&self.asks),
            BidOrAsk::Ask => count_fits(&self.bids),
        }
    }

    /// Up to `max_levels` levels of `side`, best first: each level's price, the
    /// total remaining quantity resting at it, and the number of orders.
    pub fn depth(&self, side: BidOrAsk, max_levels: usize) -> (r: Vec<(Price, u64, usize)>)
        requires
            forall|i: int| 0 <= i < self.levels_of(side).len() ==> resting_volume(#[trigger] self.levels_of(side)[i].orders@) <= u64::MAX,
            levels_wf(self.levels_of(side), side),
        ensures
            r@.len() == (if self.levels_of(side).len() < max_levels { self.levels_of(side).len() } else { max_levels as nat }),
            forall|i: int| 0 <= i < r@.len() ==> {
                let l = #[trigger] self.levels_of(side)[self.levels_of(side).len() - 1 - i];
                &&& r@[i].0 == l.price
                &&& r@[i].1 == resting_volume(l.orders@)
                &&& r@[i].2 == l.orders@.len()
            },
    {
        let levels = match side {
            BidOrAsk::Bid => &self.bids,
            BidOrAsk::Ask => &self.asks,
        };
        let n = levels.len();
        let mut r: Vec<(Price, u64, usize)> = Vec::new();
        let mut i: usize = 0;
        while i < n && i < max_levels
            invariant
                levels@ == self.levels_of(side),
                n == levels@.len(),
                i <= n,
                i <= max_levels,
                r@.len() == i,
                forall|k: int| 0 <= k < levels@.len() ==> resting_volume(#[trigger] levels@[k].orders@) <= u64::MAX,
                forall|k: int| 0 <= k < levels@.len() ==> (#[trigger] levels@[k]).orders@.len() > 0,
                forall|k: int, j: int| 0 <= k < levels@.len() && 0 <= j < levels@[k].orders@.len() ==> resting_ok(#[trigger] levels@[k].orders@[j], levels@[k].price),
                forall|k: int| 0 <= k < i ==> {
                    let l = #[trigger] levels@[n - 1 - k];
                    &&& r@[k].0 == l.price
                    &&& r@[k].1 == resting_volume(l.orders@)
                    &&& r@[k].2 == l.orders@.len()
                },
            decreases n - i,
        {
            let level = &levels[n - 1 - i];
            let volume = level_volume(&level.orders, level.price);
            r.push((level.price, volume, level.orders.len()));
            i = i + 1;
        }
        r
    }

    fn match_and_rest(&mut self, order: Order, rest: bool) -> (res: (Vec<Trade>, u64))
        requires
            old(self).wf(),
            old(self).ids_fit(order.0.bid_or_ask),
            order.0.filled_size <= order.0.size,
            rest && order.remaining() > 0 ==> order.0.price is Some,
        ensures
            final(self).wf(),
            final(self).symbol == old(self).symbol,
            ({
                let side = order.0.bid_or_ask;
                let opp = opposite_side(side);
                let limit = if rest { order.0.price } else { None };
                let m = match_queue(queue_of(old(self).levels_of(opp)), order.remaining() as nat, side, limit);
                let after = applied(order, fills_total(m.0));
                &&& trades_for_fills(res.0@, m.0, old(self).symbol, order.0.acc_no, side)
                &&& res.1 == after.0.filled_size
                &&& fills_total(m.0) <= order.remaining()
                &&& queue_of(final(self).levels_of(opp)) == m.1
                &&& final(self).ltp == last_price(m.0, old(self).ltp)
                &&& if rest && after.remaining() > 0 {
                    queue_of(final(self).levels_of(side)) == insert_by_priority(queue_of(old(self).levels_of(side)), after, side)
                } else {
                    final(self).levels_of(side) == old(self).levels_of(side)
                }
            }),
    {
        let ghost old_self = *self;
        let mut order = order;
        let ghost o0 = order;
        let mut trades: Vec<Trade> = Vec::new();
        let limit = if rest { order.price() } else { None };
        let mut ltp = self.ltp;
        let side = order.bid_or_ask();
        let mut filled_after: u64 = 0;
        match side {
            BidOrAsk::Bid => {
                match_against(&mut self.asks, &mut order, limit, &self.symbol, &mut trades, &mut ltp);
                filled_after = order.filled_size();
                self.ltp = ltp;
                if rest && order.remaining_size() > 0 {
                    let ghost b0 = self.bids@;
                    insert_resting(&mut self.bids, order, BidOrAsk::Bid);
                    proof {
                        if self.asks@.len() > 0 {
                            let n1 = self.asks@.len() - 1;
                            let n0 = old_self.asks@.len() - 1;
                            if n1 < n0 {
                                assert(strictly_better(BidOrAsk::Ask, old_self.asks@[n0].price.paisa, old_self.asks@[n1].price.paisa));
                            }
                            assert(self.asks@[n1].price == old_self.asks@[n1].price);
                        }
                    }
                } else {
                    proof {
                        if self.asks@.len() > 0 && self.bids@.len() > 0 {
                            let n1 = self.asks@.len() - 1;
                            let n0 = old_self.asks@.len() - 1;
                            if n1 < n0 {
                                assert(strictly_better(BidOrAsk::Ask, old_self.asks@[n0].price.paisa, old_self.asks@[n1].price.paisa));
                            }
                            assert(self.asks@[n1].price == old_self.asks@[n1].price);
                        }
                    }
                }
            },
            BidOrAsk::Ask => {
                match_against(&mut self.bids, &mut order, limit, &self.symbol, &mut trades, &mut ltp);
                filled_after = order.filled_size();
                self.ltp = ltp;
                if rest && order.remaining_size() > 0 {
                    insert_resting(&mut self.asks, order, BidOrAsk::Ask);
                    proof {
                        if self.bids@.len() > 0 {
                            let n1 = self.bids@.len() - 1;
                            let n0 = old_self.bids@.len() - 1;
                            if n1 < n0 {
                                assert(strictly_better(BidOrAsk::Bid, old_self.bids@[n0].price.paisa, old_self.bids@[n1].price.paisa));
                            }
                            assert(self.bids@[n1].price == old_self.bids@[n1].price);
                        }
                    }
                } else {
                    proof {
                        if self.asks@.len() > 0 && self.bids@.len() > 0 {
                            let n1 = self.bids@.len() - 1;
                            let n0 = old_self.bids@.len() - 1;
                            if n1 < n0 {
                                assert(strictly_better(BidOrAsk::Bid, old_self.bids@[n0].price.paisa, old_self.bids@[n1].price.paisa));
                            }
                            assert(self.bids@[n1].price == old_self.bids@[n1].price);
                        }
                    }
                }
            },
        }
        (trades, filled_after)
    }

    /// Matches a limit order against the other side by price-time priority, at
    /// prices no worse than its limit, and rests what is left of it on its own side.
    /// Trades execute at the resting order's price; the last traded price becomes
    /// that of the last trade.
    pub fn add_limit_order(&mut self, order: Order) -> (r: Result<(Vec<Trade>, String), String>)
        requires
            limit_order_ok(*old(self), order),
        ensures
            limit_order_done(*old(self), order, *final(self), r),
    {
        let side = order.bid_or_ask();
        let (trades, _) = self.match_and_rest(order, true);
        let msg = match side {
            BidOrAsk::Bid => String::from_str("Limit Bid Processed."),
            BidOrAsk::Ask => String::from_str("Limit Ask Processed."),
        };
        Ok((trades, msg))
    }

    /// Matches a market order against the other side by price-time priority at
    /// any price; what cannot be filled is dropped, never rested.
    pub fn add_market_order(&mut self, order: Order) -> (r: Result<(Vec<Trade>, String), String>)
        requires
            market_order_ok(*old(self), order),
        ensures
            market_order_done(*old(self), order, *final(self), r),
    {
        let (trades, filled_after) = self.match_and_rest(order, false);
        let msg = if filled_after == 0 {
            String::from_str("Order Cannot Be Fulfilled.")
        } else {
            String::from_str("Order Processed.")
        };
        Ok((trades, msg))
    }
}

/// The resting volume of a queue: the sum of its orders' remaining quantities.
pub open spec fn resting_volume(queue: Seq<Order>) -> int
    decreases queue.len(),
{
    if queue.len() == 0 {
        0
    } else {
        queue[0].remaining() + resting_volume(queue.drop_first())
    }
}

/// Matching moves volume and never creates it: what executes plus what rests
/// afterwards is what rested before. Every execution is within the incoming
/// order's limit, never for more than it wants, and an incoming order is left
/// wanting only when no resting order within its limit is left.
pub proof fn lemma_match_conserves(queue: Seq<Order>, want: nat, side: BidOrAsk, limit: Option<Price>)
    requires
        forall|k: int| 0 <= k < queue.len() ==> (#[trigger] queue[k]).0.filled_size < queue[k].0.size,
    ensures
        ({
            let m = match_queue(queue, want, side, limit);
            &&& fills_total(m.0) + resting_volume(m.1) == resting_volume(queue)
            &&& fills_total(m.0) <= want
            &&& forall|i: int| 0 <= i < m.0.len() ==> crosses(side, limit, (#[trigger] m.0[i]).price)
            &&& forall|i: int| 0 <= i < m.0.len() ==> (#[trigger] m.0[i]).quantity > 0
            &&& (fills_total(m.0) == want || m.1.len() == 0 || !crosses(side, limit, resting_price(m.1[0])))
        }),
    decreases queue.len(),
{
    let m = match_queue(queue, want, side, limit);
    if want == 0 || queue.len() == 0 || !crosses(side, limit, resting_price(queue[0])) {
    } else {
        let r = queue[0].remaining();
        let q: nat = if want <= r { want } else { r as nat };
        let f = Fill { price: resting_price(queue[0]), quantity: q as u64, resting_acc_no: queue[0].0.acc_no };
        if q == r {
            let tail = queue.drop_first();
            assert forall|k: int| 0 <= k < tail.len() implies (#[trigger] tail[k]).0.filled_size < tail[k].0.size by {
                assert(tail[k] == queue[k + 1]);
            }
            lemma_match_conserves(tail, (want - q) as nat, side, limit);
            let sub = match_queue(tail, (want - q) as nat, side, limit);
            lemma_fills_total_prepend(f, sub.0);
            assert forall|i: int| 0 <= i < m.0.len() implies crosses(side, limit, (#[trigger] m.0[i]).price) && m.0[i].quantity > 0 by {
                if i > 0 {
                    assert(m.0[i] == sub.0[i - 1]);
                }
            }
        } else {
            lemma_fills_total_prepend(f, Seq::empty());
            assert(seq![f] + Seq::<Fill>::empty() =~= seq![f]);
            let upd = queue.update(0, queue[0].filled_by(q));
            assert(upd.drop_first() =~= queue.drop_first());
        }
    }
}

/// Price-time priority: the `i`-th execution is against the `i`-th resting order
/// in priority order, at its price; every execution but the last fills its
/// resting order completely; and what rests afterwards is the queue without the
/// orders that were filled, the last one partly filled if it was not filled out.
pub proof fn lemma_match_priority(queue: Seq<Order>, want: nat, side: BidOrAsk, limit: Option<Price>)
    requires
        forall|k: int| 0 <= k < queue.len() ==> (#[trigger] queue[k]).0.filled_size < queue[k].0.size,
    ensures
        ({
            let m = match_queue(queue, want, side, limit);
            let k = m.0.len() as int;
            &&& k <= queue.len()
            &&& forall|i: int| 0 <= i < k ==> (#[trigger] m.0[i]).price == resting_price(queue[i])
                && m.0[i].resting_acc_no == queue[i].0.acc_no
            &&& forall|i: int| 0 <= i < k - 1 ==> (#[trigger] m.0[i]).quantity == queue[i].remaining()
            &&& (m.1 == queue.subrange(k, queue.len() as int) || (k > 0 && m.0[k - 1].quantity < queue[k - 1].remaining()
                && m.1 == queue.subrange(k - 1, queue.len() as int).update(0, queue[k - 1].filled_by(m.0[k - 1].quantity as nat))))
        }),
    decreases queue.len(),
{
    let m = match_queue(queue, want, side, limit);
    if want == 0 || queue.len() == 0 || !crosses(side, limit, resting_price(queue[0])) {
        assert(queue.subrange(0, queue.len() as int) =~= queue);
    } else {
        let r = queue[0].remaining();
        let q: nat = if want <= r { want } else { r as nat };
        let f = Fill { price: resting_price(queue[0]), quantity: q as u64, resting_acc_no: queue[0].0.acc_no };
        if q == r {
            let tail = queue.drop_first();
            assert forall|k: int| 0 <= k < tail.len() implies (#[trigger] tail[k]).0.filled_size < tail[k].0.size by {
                assert(tail[k] == queue[k + 1]);
            }
            lemma_match_priority(tail, (want - q) as nat, side, limit);
            let sub = match_queue(tail, (want - q) as nat, side, limit);
            let k = m.0.len() as int;
            assert(m.0 == seq![f] + sub.0);
            assert forall|i: int| 0 <= i < k implies (#[trigger] m.0[i]).price == resting_price(queue[i])
                && m.0[i].resting_acc_no == queue[i].0.acc_no by {
                if i > 0 {
                    assert(m.0[i] == sub.0[i - 1]);
                    assert(tail[i - 1] == queue[i]);
                }
            }
            assert forall|i: int| 0 <= i < k - 1 implies (#[trigger] m.0[i]).quantity == queue[i].remaining() by {
                if i > 0 {
                    assert(m.0[i] == sub.0[i - 1]);
                    assert(tail[i - 1] == queue[i]);
                }
            }
            assert(tail.subrange(k - 1, tail.len() as int) =~= queue.subrange(k, queue.len() as int));
            if k > 1 {
                assert(tail.subrange(k - 2, tail.len() as int) =~= queue.subrange(k - 1, queue.len() as int));
                assert(m.0[k - 1] == sub.0[k - 2]);
                assert(tail[k - 2] == queue[k - 1]);
            }
        } else {
            assert(m.0 == seq![f]);
            assert(queue.subrange(0, queue.len() as int) =~= queue);
        }
    }
}

fn count_fits(levels: &Vec<PriceLevel>) -> (r: bool)
    ensures
        r == (queue_of(levels@).len() + 1000 <= u64::MAX),
{
    let n = levels.len();
    let mut total: u128 = 0;
    let mut i: usize = 0;
    while i < n
        invariant
            n == levels@.len(),
            i <= n,
            total == queue_of(levels@.subrange(0, i as int)).len(),
            total + 1000 <= u64::MAX,
        decreases n - i,
    {
        proof {
            lemma_queue_of_push(levels@.subrange(0, i as int), levels@[i as int]);
            assert(levels@.subrange(0, i as int).push(levels@[i as int]) =~= levels@.subrange(0, i + 1));
        }
        total = total + levels[i].orders.len() as u128;
        if total + 1000 > u64::MAX as u128 {
            proof {
                assert(levels@ =~= levels@.subrange(0, i + 1) + levels@.subrange(i + 1, n as int));
                lemma_queue_of_append(levels@.subrange(0, i + 1), levels@.subrange(i + 1, n as int));
            }
            return false;
        }
        i = i + 1;
    }
    proof {
        assert(levels@.subrange(0, n as int) =~= levels@);
    }
    true
}

/// The resting volume of a prefix plus that of the rest is the whole volume.
pub proof fn lemma_resting_volume_split(q: Seq<Order>, i: int)
    requires
        0 <= i <= q.len(),
    ensures
        resting_volume(q) == resting_volume(q.take(i)) + resting_volume(q.skip(i)),
    decreases i,
{
    if i > 0 {
        lemma_resting_volume_split(q.drop_first(), i - 1);
        assert(q.take(i).drop_first() =~= q.drop_first().take(i - 1));
        assert(q.skip(i) =~= q.drop_first().skip(i - 1));
        assert(q.take(i)[0] == q[0]);
    } else {
        assert(q.skip(0) =~= q);
        assert(q.take(0) =~= Seq::<Order>::empty());
    }
}

/// The resting volume of unfilled orders is never negative.
pub proof fn lemma_volume_nonneg(q: Seq<Order>, price: Price)
    requires
        forall|j: int| 0 <= j < q.len() ==> resting_ok(#[trigger] q[j], price),
    ensures
        resting_volume(q) >= 0,
    decreases q.len(),
{
    if q.len() > 0 {
        assert(resting_ok(q[0], price));
        assert forall|j: int| 0 <= j < q.drop_first().len() implies resting_ok(#[trigger] q.drop_first()[j], price) by {
            assert(q.drop_first()[j] == q[j + 1]);
        }
        lemma_volume_nonneg(q.drop_first(), price);
    }
}

fn level_volume(orders: &VecDeque<Order>, price: Price) -> (v: u64)
    requires
        resting_volume(orders@) <= u64::MAX,
        forall|j: int| 0 <= j < orders@.len() ==> resting_ok(#[trigger] orders@[j], price),
    ensures
        v == resting_volume(orders@),
{
    let n = orders.len();
    let mut total: u64 = 0;
    let mut i: usize = 0;
    while i < n
        invariant
            n == orders@.len(),
            i <= n,
            total == resting_volume(orders@.take(i as int)),
            resting_volume(orders@) <= u64::MAX,
            forall|j: int| 0 <= j < orders@.len() ==> resting_ok(#[trigger] orders@[j], price),
        decreases n - i,
    {
        proof {
            let x = orders@[i as int];
            lemma_resting_volume_split(orders@, i + 1);
            lemma_resting_volume_split(orders@.take(i + 1), i as int);
            assert(orders@.take(i + 1).take(i as int) =~= orders@.take(i as int));
            assert(orders@.take(i + 1).skip(i as int) =~= seq![x]);
            assert(seq![x].drop_first() =~= Seq::<Order>::empty());
            assert(seq![x][0] == x);
            assert(resting_volume(seq![x]) == x.remaining() + resting_volume(Seq::<Order>::empty()));
            assert(resting_ok(x, price));
            lemma_volume_nonneg(orders@.skip(i + 1), price);
        }
        total = total + orders[i].remaining_size();
        i = i + 1;
    }
    proof {
        assert(orders@.take(n as int) =~= orders@);
    }
    total
}

fn crosses_exec(side: BidOrAsk, limit: Option<Price>, resting: Price) -> (r: bool)
    ensures
        r == crosses(side, limit, resting),
{
    match limit {
        None => true,
        Some(l) => match side {
            BidOrAsk::Bid => l.paisa >= resting.paisa,
            BidOrAsk::Ask => l.paisa <= resting.paisa,
        },
    }
}

fn strictly_better_exec(side: BidOrAsk, p: u64, q: u64) -> (r: bool)
    ensures
        r == strictly_better(side, p, q),
{
    match side {
        BidOrAsk::Bid => p > q,
        BidOrAsk::Ask => p < q,
    }
}

/// Matches `order` against the resting levels of the opposite side, by price-time
/// priority, recording a trade for each execution.
fn match_against(
    levels: &mut Vec<PriceLevel>,
    order: &mut Order,
    limit: Option<Price>,
    symbol: &String,
    trades: &mut Vec<Trade>,
    ltp: &mut Price,
)
    requires
        levels_wf(old(levels)@, opposite_side(old(order).0.bid_or_ask)),
        old(order).0.filled_size <= old(order).0.size,
        old(trades)@.len() == 0,
        queue_of(old(levels)@).len() + 1000 <= u64::MAX,
    ensures
        ({
            let side = old(order).0.bid_or_ask;
            let m = match_queue(queue_of(old(levels)@), old(order).remaining() as nat, side, limit);
            &&& queue_of(final(levels)@) == m.1
            &&& levels_wf(final(levels)@, opposite_side(side))
            &&& trades_for_fills(final(trades)@, m.0, *symbol, old(order).0.acc_no, side)
            &&& fills_total(m.0) <= old(order).remaining()
            &&& *final(order) == applied(*old(order), fills_total(m.0))
            &&& *final(ltp) == last_price(m.0, *old(ltp))
            &&& final(levels)@.len() <= old(levels)@.len()
            &&& forall|i: int| 0 <= i < final(levels)@.len() ==> (#[trigger] final(levels)@[i]).price == old(levels)@[i].price
            &&& final(order).remaining() > 0 ==> final(levels)@.len() == 0 || !crosses(side, limit, final(levels)@.last().price)
        }),
{
    let side = order.bid_or_ask();
    let ghost opp = opposite_side(side);
    let ghost o0 = *order;
    let ghost levels0 = levels@;
    let ghost q0 = queue_of(levels@);
    let ghost want0: nat = order.remaining() as nat;
    let ghost m = match_queue(q0, want0, side, limit);
    let ghost ltp0 = *ltp;
    let ghost mut done: Seq<Fill> = Seq::empty();
    let mut counter: u64 = 1000;
    proof {
        lemma_queue_elements(levels@, opp, Price { paisa: 0 });
        lemma_match_bounds(q0, want0, side, limit);
        assert(m.0 == done + m.0);
    }
    loop
        invariant
            side == o0.0.bid_or_ask,
            opp == opposite_side(side),
            levels_wf(levels@, opp),
            levels@.len() <= levels0.len(),
            forall|i: int| 0 <= i < levels@.len() ==> (#[trigger] levels@[i]).price == levels0[i].price,
            m == match_queue(q0, want0, side, limit),
            m.0.len() <= q0.len(),
            q0.len() + 1000 <= u64::MAX,
            fills_total(done) <= want0,
            want0 == o0.remaining(),
            o0.0.filled_size <= o0.0.size,
            *order == applied(o0, fills_total(done)),
            m.0 == done + match_queue(queue_of(levels@), order.remaining() as nat, side, limit).0,
            m.1 == match_queue(queue_of(levels@), order.remaining() as nat, side, limit).1,
            trades_for_fills(trades@, done, *symbol, o0.0.acc_no, side),
            *ltp == last_price(done, ltp0),
            counter == 1000 + done.len(),
        ensures
            order.remaining() > 0 ==> levels@.len() == 0 || !crosses(side, limit, levels@.last().price),
        decreases levels@.len(), order.remaining(),
    {
        if order.remaining_size() == 0 {
            break;
        }
        let n = levels.len();
        if n == 0 {
            break;
        }
        let best = levels[n - 1].price;
        if !crosses_exec(side, limit, best) {
            break;
        }
        let ghost levels_before = levels@;
        let ghost rem_before = order.remaining();
        let mut level = levels.pop().unwrap();
        proof {
            lemma_queue_of_push(levels@, level);
            assert(levels_before =~= levels@.push(level));
            assert(levels_wf(levels@, opp));
            assert(forall|i: int| 0 <= i < levels@.len() ==> strictly_better(opp, level.price.paisa, (#[trigger] levels@[i]).price.paisa));
        }
        loop
            invariant
                side == o0.0.bid_or_ask,
                opp == opposite_side(side),
                levels_wf(levels@, opp),
                levels@.len() < levels0.len(),
                forall|i: int| 0 <= i < levels@.len() ==> (#[trigger] levels@[i]).price == levels0[i].price,
                level.price == levels0[levels@.len() as int].price,
                level.price == best,
                crosses(side, limit, best),
                forall|i: int| 0 <= i < levels@.len() ==> strictly_better(opp, level.price.paisa, (#[trigger] levels@[i]).price.paisa),
                forall|k: int| 0 <= k < level.orders@.len() ==> resting_ok(#[trigger] level.orders@[k], level.price),
                forall|k: int| 0 <= k < level.orders@.len() ==> (#[trigger] level.orders@[k]).0.bid_or_ask == opp,
                m == match_queue(q0, want0, side, limit),
                m.0.len() <= q0.len(),
                q0.len() + 1000 <= u64::MAX,
                fills_total(done) <= want0,
                want0 == o0.remaining(),
                o0.0.filled_size <= o0.0.size,
                *order == applied(o0, fills_total(done)),
                m.0 == done + match_queue(level.orders@ + queue_of(levels@), order.remaining() as nat, side, limit).0,
                m.1 == match_queue(level.orders@ + queue_of(levels@), order.remaining() as nat, side, limit).1,
                trades_for_fills(trades@, done, *symbol, o0.0.acc_no, side),
                *ltp == last_price(done, ltp0),
                counter == 1000 + done.len(),
                order.remaining() <= rem_before,
                level.orders@.len() > 0 || order.remaining() < rem_before,
            ensures
                level.orders@.len() == 0 || order.remaining() == 0,
            decreases level.orders@.len(), order.remaining(),
        {
            if order.remaining_size() == 0 {
                break;
            }
            let ghost cq = level.orders@ + queue_of(levels@);
            let ghost want: nat = order.remaining() as nat;
            let ghost done_before = done;
            let ghost total_before = fills_total(done);
            match level.orders.pop_front() {
                None => {
                    break;
                },
                Some(mut resting) => {
                    let ghost r0 = resting;
                    proof {
                        assert(cq[0] == r0);
                        assert(resting_ok(r0, level.price));
                    }
                    let ra = resting.remaining_size();
                    let rb = order.remaining_size();
                    *ltp = level.price;
                    let q = if rb <= ra { rb } else { ra };
                    order.fill(q);
                    resting.fill(q);
                    let (buyer, seller) = match side {
                        BidOrAsk::Bid => (order.acc_no(), resting.acc_no()),
                        BidOrAsk::Ask => (resting.acc_no(), order.acc_no()),
                    };
                    let t = Trade::new(counter, symbol.clone(), level.price, q, buyer, seller);
                    let ghost trades_before = trades@;
                    trades.push(t);
                    counter = counter + 1;
                    let ghost f = Fill { price: level.price, quantity: q, resting_acc_no: r0.0.acc_no };
                    proof {
                        let sub = match_queue(cq, want, side, limit);
                        assert(resting_price(cq[0]) == level.price);
                        assert(f == Fill { price: resting_price(cq[0]), quantity: q, resting_acc_no: cq[0].0.acc_no });
                        lemma_fill_twice_ob(o0, total_before, q as nat);
                        done = done.push(f);
                        assert(done.drop_last() =~= done_before);
                        assert(fills_total(done) == total_before + q);
                        assert(trades@.len() == done.len());
                        assert forall|i: int| 0 <= i < done.len() implies trade_for_fill(#[trigger] trades@[i], i, done[i], *symbol, o0.0.acc_no, side) by {
                            if i < done_before.len() {
                                assert(trades@[i] == trades_before[i]);
                                assert(done[i] == done_before[i]);
                            }
                        }
                    }
                    if !resting.is_filled() {
                        level.orders.push_front(resting);
                        proof {
                            let cq2 = level.orders@ + queue_of(levels@);
                            assert(cq2 =~= cq.update(0, cq[0].filled_by(q as nat)));
                            assert(match_queue(cq, want, side, limit).0 == seq![f]);
                            assert(m.0 =~= done + match_queue(cq2, order.remaining() as nat, side, limit).0);
                        }
                    } else {
                        proof {
                            let cq2 = level.orders@ + queue_of(levels@);
                            assert(cq2 =~= cq.drop_first());
                            let sub = match_queue(cq.drop_first(), (want - q) as nat, side, limit);
                            assert(match_queue(cq, want, side, limit).0 == seq![f] + sub.0);
                            assert(m.0 =~= done + match_queue(cq2, order.remaining() as nat, side, limit).0);
                        }
                    }
                },
            }
        }
        if level.orders.len() > 0 {
            let ghost pre = levels@;
            let ghost lv = level;
            levels.push(level);
            proof {
                lemma_queue_of_push(pre, lv);
                assert(queue_of(levels@) == lv.orders@ + queue_of(pre));
            }
        } else {
            proof {
                assert(level.orders@ + queue_of(levels@) =~= queue_of(levels@));
            }
        }
    }
}

/// The order after executions totalling `total` shares: unchanged when nothing
/// was executed.
pub open spec fn applied(o: Order, total: nat) -> Order {
    if total == 0 {
        o
    } else {
        o.filled_by(total)
    }
}

pub proof fn lemma_fill_twice_ob(o: Order, a: nat, b: nat)
    requires
        o.0.filled_size + a + b <= u64::MAX,
        b > 0,
    ensures
        applied(o, a).filled_by(b) == applied(o, a + b),
{
    if a > 0 {
        crate::domain::order::lemma_fill_twice(o, a, b);
    }
}


/// Rests `order` on its side: behind the orders at its price, in a new level
/// if no order rests at that price.
fn insert_resting(levels: &mut Vec<PriceLevel>, order: Order, side: BidOrAsk)
    requires
        levels_wf(old(levels)@, side),
        order.0.bid_or_ask == side,
        order.0.price is Some,
        order.0.filled_size < order.0.size,
    ensures
        levels_wf(final(levels)@, side),
        queue_of(final(levels)@) == insert_by_priority(queue_of(old(levels)@), order, side),
        final(levels)@.len() > 0,
        final(levels)@.last().price == (if old(levels)@.len() == 0 || strictly_better(
            side,
            resting_price(order).paisa,
            old(levels)@.last().price.paisa,
        ) {
            resting_price(order)
        } else {
            old(levels)@.last().price
        }),
{
    let price = match order.price() {
        Some(p) => p,
        None => Price { paisa: 0 },
    };
    let ghost l0 = levels@;
    let n = levels.len();
    let mut j: usize = 0;
    while j < n && strictly_better_exec(side, price.paisa, levels[j].price.paisa)
        invariant
            j <= n,
            n == levels@.len(),
            levels@ == l0,
            levels_wf(levels@, side),
            forall|i: int| 0 <= i < j ==> strictly_better(side, price.paisa, (#[trigger] levels@[i]).price.paisa),
        decreases n - j,
    {
        j = j + 1;
    }
    proof {
        lemma_insert_split(l0, j as int, order, side);
    }
    if j < n && levels[j].price.paisa == price.paisa {
        levels[j].orders.push_back(order);
        proof {
            lemma_insert_into_level(l0, j as int, levels@[j as int], order, side);
            assert(levels@ =~= l0.update(j as int, levels@[j as int]));
        }
    } else {
        let mut dq: VecDeque<Order> = VecDeque::new();
        dq.push_back(order);
        let new_level = PriceLevel { price, orders: dq };
        let ghost nl = new_level;
        levels.insert(j, new_level);
        proof {
            lemma_insert_new_level(l0, j as int, nl, order, side);
        }
    }
}

/// Where a new order at a price enters: the levels before position `j` are priced
/// worse and the rest at least as well, so the new order joins the queue right
/// after the orders of the levels from `j` on.
pub proof fn lemma_insert_split(l0: Seq<PriceLevel>, j: int, order: Order, side: BidOrAsk)
    requires
        levels_wf(l0, side),
        0 <= j <= l0.len(),
        order.0.price is Some,
        forall|i: int| 0 <= i < j ==> strictly_better(side, resting_price(order).paisa, (#[trigger] l0[i]).price.paisa),
        j < l0.len() ==> !strictly_better(side, resting_price(order).paisa, l0[j].price.paisa),
    ensures
        forall|i: int| j <= i < l0.len() ==> at_least_as_good(side, (#[trigger] l0[i]).price.paisa, resting_price(order).paisa),
        queue_of(l0) == queue_of(l0.subrange(j, l0.len() as int)) + queue_of(l0.subrange(0, j)),
        insert_by_priority(queue_of(l0), order, side) == queue_of(l0.subrange(j, l0.len() as int)) + seq![order] + queue_of(l0.subrange(0, j)),
{
    let price = resting_price(order);
    let n = l0.len() as int;
    let a_levels = l0.subrange(j, n);
    let b_levels = l0.subrange(0, j);
    assert(l0 =~= b_levels + a_levels);
    lemma_queue_of_append(b_levels, a_levels);
    assert forall|i: int| j <= i < n implies at_least_as_good(side, (#[trigger] l0[i]).price.paisa, price.paisa) by {
        if i > j {
            assert(strictly_better(side, l0[i].price.paisa, l0[j].price.paisa));
        }
    }
    assert forall|i: int| 0 <= i < a_levels.len() implies at_least_as_good(side, (#[trigger] a_levels[i]).price.paisa, price.paisa) by {
        assert(a_levels[i] == l0[j + i]);
    }
    assert(levels_wf(a_levels, side)) by {
        assert forall|i: int, k: int| 0 <= i < a_levels.len() && 0 <= k < a_levels[i].orders@.len() implies resting_ok(
            #[trigger] a_levels[i].orders@[k],
            a_levels[i].price,
        ) by {
            assert(a_levels[i] == l0[j + i]);
        }
        assert forall|i: int| 0 <= i < a_levels.len() implies (#[trigger] a_levels[i]).orders@.len() > 0 by {
            assert(a_levels[i] == l0[j + i]);
        }
        assert forall|i: int, i2: int| 0 <= i < i2 < a_levels.len() implies strictly_better(side, #[trigger] a_levels[i2].price.paisa, #[trigger] a_levels[i].price.paisa) by {
            assert(a_levels[i] == l0[j + i]);
            assert(a_levels[i2] == l0[j + i2]);
        }
    }
    lemma_queue_elements(a_levels, side, price);
    if j > 0 {
        assert(queue_of(b_levels) == b_levels.last().orders@ + queue_of(b_levels.drop_last()));
        assert(b_levels.last() == l0[j - 1]);
        assert(resting_ok(l0[j - 1].orders@[0], l0[j - 1].price));
        assert(queue_of(b_levels)[0] == l0[j - 1].orders@[0]);
    }
    lemma_count_prefix(queue_of(a_levels), queue_of(b_levels), price, side);
    assert(insert_by_priority(queue_of(l0), order, side) =~= queue_of(a_levels) + seq![order] + queue_of(b_levels));
}

pub proof fn lemma_queue_of_single(l: PriceLevel)
    ensures
        queue_of(seq![l]) == l.orders@,
{
    lemma_queue_of_push(Seq::<PriceLevel>::empty(), l);
    assert(Seq::<PriceLevel>::empty().push(l) =~= seq![l]);
    assert(l.orders@ + queue_of(Seq::<PriceLevel>::empty()) =~= l.orders@);
}

/// Appending a new order to the level at position `j`, the level at its price.
pub proof fn lemma_insert_into_level(l0: Seq<PriceLevel>, j: int, lvl2: PriceLevel, order: Order, side: BidOrAsk)
    requires
        levels_wf(l0, side),
        0 <= j < l0.len(),
        resting_ok(order, l0[j].price),
        order.0.bid_or_ask == side,
        lvl2.price == l0[j].price,
        lvl2.orders@ == l0[j].orders@.push(order),
    ensures
        levels_wf(l0.update(j, lvl2), side),
        queue_of(l0.update(j, lvl2)) == queue_of(l0.subrange(j, l0.len() as int)) + seq![order] + queue_of(l0.subrange(0, j)),
        l0.update(j, lvl2).len() == l0.len(),
        l0.update(j, lvl2).last().price == l0.last().price,
{
    let n = l0.len() as int;
    let lvl = l0[j];
    let rest = l0.subrange(j + 1, n);
    let b_levels = l0.subrange(0, j);
    let nl = l0.update(j, lvl2);
    assert(l0.subrange(j, n) =~= seq![lvl] + rest);
    assert(nl =~= b_levels + (seq![lvl2] + rest));
    lemma_queue_of_append(b_levels, seq![lvl2] + rest);
    lemma_queue_of_append(seq![lvl2], rest);
    lemma_queue_of_append(seq![lvl], rest);
    lemma_queue_of_single(lvl);
    lemma_queue_of_single(lvl2);
    assert(queue_of(nl) =~= queue_of(l0.subrange(j, n)) + seq![order] + queue_of(b_levels));
    assert forall|i: int, k: int| 0 <= i < nl.len() && 0 <= k < nl[i].orders@.len() implies resting_ok(
        #[trigger] nl[i].orders@[k],
        nl[i].price,
    ) && nl[i].orders@[k].0.bid_or_ask == side by {
        if i == j {
            if k < lvl.orders@.len() {
                assert(nl[i].orders@[k] == l0[i].orders@[k]);
            }
        }
    }
    assert forall|i: int, i2: int| 0 <= i < i2 < nl.len() implies strictly_better(side, #[trigger] nl[i2].price.paisa, #[trigger] nl[i].price.paisa) by {
        assert(nl[i].price == l0[i].price);
        assert(nl[i2].price == l0[i2].price);
    }
    assert forall|i: int| 0 <= i < nl.len() implies (#[trigger] nl[i]).orders@.len() > 0 by {}
}

/// Opening a new level for a new order at position `j`.
pub proof fn lemma_insert_new_level(l0: Seq<PriceLevel>, j: int, nl: PriceLevel, order: Order, side: BidOrAsk)
    requires
        levels_wf(l0, side),
        0 <= j <= l0.len(),
        resting_ok(order, nl.price),
        order.0.bid_or_ask == side,
        nl.orders@ == seq![order],
        forall|i: int| 0 <= i < j ==> strictly_better(side, nl.price.paisa, (#[trigger] l0[i]).price.paisa),
        forall|i: int| j <= i < l0.len() ==> at_least_as_good(side, (#[trigger] l0[i]).price.paisa, nl.price.paisa),
        j < l0.len() ==> l0[j].price.paisa != nl.price.paisa,
    ensures
        levels_wf(l0.insert(j, nl), side),
        queue_of(l0.insert(j, nl)) == queue_of(l0.subrange(j, l0.len() as int)) + seq![order] + queue_of(l0.subrange(0, j)),
        l0.insert(j, nl).last().price == (if l0.len() == 0 || strictly_better(side, nl.price.paisa, l0.last().price.paisa) {
            nl.price
        } else {
            l0.last().price
        }),
{
    let n = l0.len() as int;
    let a_levels = l0.subrange(j, n);
    let b_levels = l0.subrange(0, j);
    let ls = l0.insert(j, nl);
    assert(ls =~= b_levels + (seq![nl] + a_levels));
    lemma_queue_of_append(b_levels, seq![nl] + a_levels);
    lemma_queue_of_append(seq![nl], a_levels);
    lemma_queue_of_single(nl);
    assert(queue_of(ls) =~= queue_of(a_levels) + seq![order] + queue_of(b_levels));
    assert forall|i: int, k: int| 0 <= i < ls.len() && 0 <= k < ls[i].orders@.len() implies resting_ok(
        #[trigger] ls[i].orders@[k],
        ls[i].price,
    ) && ls[i].orders@[k].0.bid_or_ask == side by {
        if i < j {
            assert(ls[i] == l0[i]);
        } else if i > j {
            assert(ls[i] == l0[i - 1]);
        }
    }
    assert forall|i: int, i2: int| 0 <= i < i2 < ls.len() implies strictly_better(side, #[trigger] ls[i2].price.paisa, #[trigger] ls[i].price.paisa) by {
        if i2 < j {
            assert(ls[i2] == l0[i2]);
            assert(ls[i] == l0[i]);
        } else if i2 == j {
            assert(ls[i] == l0[i]);
        } else if i == j {
            assert(ls[i2] == l0[i2 - 1]);
            if i2 - 1 > j {
                assert(strictly_better(side, l0[i2 - 1].price.paisa, l0[j].price.paisa));
            }
        } else if i < j {
            assert(ls[i2] == l0[i2 - 1]);
            assert(ls[i] == l0[i]);
        } else {
            assert(ls[i2] == l0[i2 - 1]);
            assert(ls[i] == l0[i - 1]);
        }
    }
    assert forall|i: int| 0 <= i < ls.len() implies (#[trigger] ls[i]).orders@.len() > 0 by {
        if i < j {
            assert(ls[i] == l0[i]);
        } else if i > j {
            assert(ls[i] == l0[i - 1]);
        }
    }
    if j < n {
        assert(ls.last() == l0.last());
        if j < n - 1 {
            assert(strictly_better(side, l0[n - 1].price.paisa, l0[j].price.paisa));
        }
    }
}

/// In a queue whose leading part is priced at least as well as `p` and whose
/// rest starts with a worse price, the orders priced at least as well as `p`
/// are exactly the leading part.
pub proof fn lemma_count_prefix(a: Seq<Order>, b: Seq<Order>, p: Price, side: BidOrAsk)
    requires
        forall|k: int| 0 <= k < a.len() ==> at_least_as_good(side, resting_price(#[trigger] a[k]).paisa, p.paisa),
        b.len() > 0 ==> !at_least_as_good(side, resting_price(b[0]).paisa, p.paisa),
    ensures
        count_at_least(a + b, p, side) == a.len(),
    decreases a.len(),
{
    if a.len() == 0 {
        assert(a + b =~= b);
    } else {
        assert((a + b).drop_first() =~= a.drop_first() + b);
        assert((a + b)[0] == a[0]);
        assert forall|k: int| 0 <= k < a.drop_first().len() implies at_least_as_good(side, resting_price(#[trigger] a.drop_first()[k]).paisa, p.paisa) by {
            assert(a.drop_first()[k] == a[k + 1]);
        }
        lemma_count_prefix(a.drop_first(), b, p, side);
    }
}

pub proof fn lemma_queue_of_append(a: Seq<PriceLevel>, b: Seq<PriceLevel>)
    ensures
        queue_of(a + b) == queue_of(b) + queue_of(a),
    decreases b.len(),
{
    if b.len() == 0 {
        assert(a + b =~= a);
        assert(queue_of(b) + queue_of(a) =~= queue_of(a));
    } else {
        assert((a + b).drop_last() =~= a + b.drop_last());
        assert((a + b).last() == b.last());
        lemma_queue_of_append(a, b.drop_last());
        assert(queue_of(a + b) =~= queue_of(b) + queue_of(a));
    }
}

pub proof fn lemma_queue_of_push(a: Seq<PriceLevel>, l: PriceLevel)
    ensures
        queue_of(a.push(l)) == l.orders@ + queue_of(a),
{
    assert(a.push(l).drop_last() =~= a);
}

/// Every resting order of well-formed levels rests at its level's price and is
/// not filled; and when every level is priced at least as well as `p`, so is every order.
pub proof fn lemma_queue_elements(levels: Seq<PriceLevel>, side: BidOrAsk, p: Price)
    requires
        levels_wf(levels, side),
    ensures
        forall|k: int| 0 <= k < queue_of(levels).len() ==> (#[trigger] queue_of(levels)[k]).0.filled_size < queue_of(levels)[k].0.size,
        forall|k: int| 0 <= k < queue_of(levels).len() ==> (#[trigger] queue_of(levels)[k]).0.price is Some,
        (forall|i: int| 0 <= i < levels.len() ==> at_least_as_good(side, (#[trigger] levels[i]).price.paisa, p.paisa)) ==>
            forall|k: int| 0 <= k < queue_of(levels).len() ==> at_least_as_good(side, resting_price(#[trigger] queue_of(levels)[k]).paisa, p.paisa),
    decreases levels.len(),
{
    if levels.len() > 0 {
        let rest = levels.drop_last();
        assert(levels_wf(rest, side));
        lemma_queue_elements(rest, side, p);
        let last = levels.last();
        let q = queue_of(levels);
        assert(q == last.orders@ + queue_of(rest));
        assert forall|k: int| 0 <= k < q.len() implies q[k].0.filled_size < q[k].0.size && q[k].0.price is Some by {
            if k < last.orders@.len() {
                assert(resting_ok(levels[levels.len() - 1].orders@[k], levels[levels.len() - 1].price));
            } else {
                assert(q[k] == queue_of(rest)[k - last.orders@.len()]);
            }
        }
        if forall|i: int| 0 <= i < levels.len() ==> at_least_as_good(side, (#[trigger] levels[i]).price.paisa, p.paisa) {
            assert forall|i: int| 0 <= i < rest.len() implies at_least_as_good(side, (#[trigger] rest[i]).price.paisa, p.paisa) by {
                assert(rest[i] == levels[i]);
            }
            assert forall|k: int| 0 <= k < q.len() implies at_least_as_good(side, resting_price(#[trigger] q[k]).paisa, p.paisa) by {
                if k < last.orders@.len() {
                    assert(resting_ok(levels[levels.len() - 1].orders@[k], levels[levels.len() - 1].price));
                    assert(at_least_as_good(side, levels[levels.len() - 1].price.paisa, p.paisa));
                } else {
                    assert(q[k] == queue_of(rest)[k - last.orders@.len()]);
                }
            }
        }
    }
}

/// Matching yields at most one execution per resting order, and never more
/// shares than wanted.
pub proof fn lemma_match_bounds(queue: Seq<Order>, want: nat, side: BidOrAsk, limit: Option<Price>)
    requires
        forall|k: int| 0 <= k < queue.len() ==> (#[trigger] queue[k]).0.filled_size < queue[k].0.size,
    ensures
        match_queue(queue, want, side, limit).0.len() <= queue.len(),
        fills_total(match_queue(queue, want, side, limit).0) <= want,
    decreases queue.len(),
{
    let m = match_queue(queue, want, side, limit);
    if want == 0 || queue.len() == 0 || !crosses(side, limit, resting_price(queue[0])) {
    } else {
        let r = queue[0].remaining();
        let q: nat = if want <= r { want } else { r as nat };
        let f = Fill { price: resting_price(queue[0]), quantity: q as u64, resting_acc_no: queue[0].0.acc_no };
        if q == r {
            let tail = queue.drop_first();
            assert forall|k: int| 0 <= k < tail.len() implies (#[trigger] tail[k]).0.filled_size < tail[k].0.size by {
                assert(tail[k] == queue[k + 1]);
            }
            lemma_match_bounds(tail, (want - q) as nat, side, limit);
            let sub = match_queue(tail, (want - q) as nat, side, limit);
            lemma_fills_total_prepend(f, sub.0);
        } else {
            lemma_fills_total_prepend(f, Seq::empty());
        }
    }
}

pub proof fn lemma_fills_total_prepend(f: Fill, s: Seq<Fill>)
    ensures
        fills_total(seq![f] + s) == f.quantity + fills_total(s),
    decreases s.len(),
{
    if s.len() == 0 {
        assert(seq![f] + s =~= seq![f]);
        assert(seq![f].drop_last() =~= Seq::<Fill>::empty());
        assert(seq![f].last() == f);
        assert(fills_total(seq![f]) == fills_total(Seq::<Fill>::empty()) + f.quantity as nat);
    } else {
        assert((seq![f] + s).drop_last() =~= seq![f] + s.drop_last());
        assert((seq![f] + s).last() == s.last());
        lemma_fills_total_prepend(f, s.drop_last());
    }
}


/// The line of the book's text for one level: the price right-aligned in ten
/// characters, the volume resting at it and the number of orders.
pub open spec fn level_text(l: PriceLevel) -> Seq<char> {
    "  "@ + pad_left(money_text(l.price.paisa as nat), 10) + "  |  "@ + decimal_digits(resting_volume(l.orders@) as nat)
        + " shares ("@ + decimal_digits(l.orders@.len()) + " orders)\n"@
}

/// The lines of `levels`, in the order given.
pub open spec fn levels_text(levels: Seq<PriceLevel>) -> Seq<char>
    decreases levels.len(),
{
    if levels.len() == 0 {
        Seq::empty()
    } else {
        levels_text(levels.drop_last()) + level_text(levels.last())
    }
}

/// `levels` from the last to the first.
pub open spec fn reversed_levels(levels: Seq<PriceLevel>) -> Seq<PriceLevel> {
    Seq::new(levels.len(), |i: int| levels[levels.len() - 1 - i])
}

/// A rule of fifty `=` and a line break.
pub open spec fn double_rule() -> Seq<char> {
    "==================================================\n"@
}

/// The text of a book: its symbol and last traded price, then the asks and the
/// bids, each from the highest price to the lowest, or a note when a side is empty.
pub open spec fn book_text(b: OrderBook) -> Seq<char> {
    double_rule() + "  ORDER BOOK: "@ + b.symbol@ + "  |  LTP: "@ + money_text(b.ltp.paisa as nat) + "\n"@
        + double_rule() + "--- ASKS (SELLERS) ---\n"@
        + (if b.asks@.len() == 0 { "  (No asks resting on book)\n"@ } else { levels_text(b.asks@) })
        + "--------------------------------------------------\n"@ + "--- BIDS (BUYERS) ---\n"@
        + (if b.bids@.len() == 0 { "  (No bids resting on book)\n"@ } else { levels_text(reversed_levels(b.bids@)) })
        + double_rule()
}

/// The volume resting at every level of `levels` fits in a `u64`.
pub open spec fn volumes_fit(levels: Seq<PriceLevel>) -> bool {
    forall|i: int| 0 <= i < levels.len() ==> resting_volume(#[trigger] levels[i].orders@) <= u64::MAX
}

fn level_line(level: &PriceLevel) -> (s: String)
    requires
        resting_volume(level.orders@) <= u64::MAX,
        forall|j: int| 0 <= j < level.orders@.len() ==> resting_ok(#[trigger] level.orders@[j], level.price),
    ensures
        s@ == level_text(*level),
{
    let mut s = String::from_str("  ");
    let price = money_string(level.price.paisa);
    let padded = pad_left_string(price.as_str(), 10);
    s.append(padded.as_str());
    s.append("  |  ");
    let volume = decimal_string(level_volume(&level.orders, level.price));
    s.append(volume.as_str());
    s.append(" shares (");
    let count = decimal_string(level.orders.len() as u64);
    s.append(count.as_str());
    s.append(" orders)\n");
    proof {
        reveal_strlit("  ");
        reveal_strlit("  |  ");
        reveal_strlit(" shares (");
        reveal_strlit(" orders)\n");
    }
    s
}

fn checked_level_volume(orders: &VecDeque<Order>, price: Price) -> (r: Option<u64>)
    requires
        forall|j: int| 0 <= j < orders@.len() ==> resting_ok(#[trigger] orders@[j], price),
    ensures
        r == (if resting_volume(orders@) <= u64::MAX { Some(resting_volume(orders@) as u64) } else { None::<u64> }),
{
    let n = orders.len();
    let mut total: u64 = 0;
    let mut i: usize = 0;
    while i < n
        invariant
            n == orders@.len(),
            i <= n,
            total == resting_volume(orders@.take(i as int)),
            forall|j: int| 0 <= j < orders@.len() ==> resting_ok(#[trigger] orders@[j], price),
        decreases n - i,
    {
        let ghost x = orders@[i as int];
        proof {
            lemma_resting_volume_split(orders@, i + 1);
            lemma_resting_volume_split(orders@.take(i + 1), i as int);
            assert(orders@.take(i + 1).take(i as int) =~= orders@.take(i as int));
            assert(orders@.take(i + 1).skip(i as int) =~= seq![x]);
            assert(seq![x].drop_first() =~= Seq::<Order>::empty());
            assert(seq![x][0] == x);
            assert(resting_volume(seq![x]) == x.remaining() + resting_volume(Seq::<Order>::empty()));
            assert(resting_ok(x, price));
            lemma_volume_nonneg(orders@.skip(i + 1), price);
        }
        match total.checked_add(orders[i].remaining_size()) {
            Some(t) => {
                total = t;
            },
            None => {
                return None;
            },
        }
        i = i + 1;
    }
    proof {
        assert(orders@.take(n as int) =~= orders@);
    }
    Some(total)
}

fn levels_volumes_fit(levels: &Vec<PriceLevel>, side: BidOrAsk) -> (r: bool)
    requires
        levels_wf(levels@, side),
    ensures
        r == volumes_fit(levels@),
{
    let n = levels.len();
    let mut i: usize = 0;
    while i < n
        invariant
            n == levels@.len(),
            i <= n,
            levels_wf(levels@, side),
            forall|k: int| 0 <= k < i ==> resting_volume(#[trigger] levels@[k].orders@) <= u64::MAX,
        decreases n - i,
    {
        if checked_level_volume(&levels[i].orders, levels[i].price).is_none() {
            return false;
        }
        i = i + 1;
    }
    true
}

impl OrderBook {
    /// The levels of both sides carry volumes that fit in a `u64`.
    pub open spec fn volumes_fit(self) -> bool {
        volumes_fit(self.bids@) && volumes_fit(self.asks@)
    }

    /// Whether the volume resting at every level fits in a `u64` (see `volumes_fit`).
    pub fn check_volumes(&self) -> (r: bool)
        requires
            self.wf(),
        ensures
            r == self.volumes_fit(),
    {
        levels_volumes_fit(&self.bids, BidOrAsk::Bid) && levels_volumes_fit(&self.asks, BidOrAsk::Ask)
    }

    /// The book as text (see `book_text`).
    pub fn display(&self) -> (s: String)
        requires
            self.wf(),
            self.volumes_fit(),
        ensures
            s@ == book_text(*self),
    {
        let mut s = String::from_str("==================================================\n");
        s.append("  ORDER BOOK: ");
        s.append(self.symbol.as_str());
        s.append("  |  LTP: ");
        let ltp = money_string(self.ltp.paisa);
        s.append(ltp.as_str());
        s.append("\n");
        s.append("==================================================\n");
        s.append("--- ASKS (SELLERS) ---\n");
        proof {
            reveal_strlit("==================================================\n");
            reveal_strlit("  ORDER BOOK: ");
            reveal_strlit("  |  LTP: ");
            reveal_strlit("\n");
            reveal_strlit("--- ASKS (SELLERS) ---\n");
            reveal_strlit("  (No asks resting on book)\n");
            reveal_strlit("--------------------------------------------------\n");
            reveal_strlit("--- BIDS (BUYERS) ---\n");
            reveal_strlit("  (No bids resting on book)\n");
        }
        let ghost head = s@;
        let n = self.asks.len();
        if n == 0 {
            s.append("  (No asks resting on book)\n");
        } else {
            let mut i: usize = 0;
            while i < n
                invariant
                    n == self.asks@.len(),
                    i <= n,
                    volumes_fit(self.asks@),
                    levels_wf(self.asks@, BidOrAsk::Ask),
                    s@ == head + levels_text(self.asks@.take(i as int)),
                decreases n - i,
            {
                assert(self.asks@.take(i + 1).drop_last() =~= self.asks@.take(i as int));
                let line = level_line(&self.asks[i]);
                s.append(line.as_str());
                i = i + 1;
            }
            assert(self.asks@.take(n as int) =~= self.asks@);
        }
        s.append("--------------------------------------------------\n");
        s.append("--- BIDS (BUYERS) ---\n");
        let ghost mid = s@;
        let m = self.bids.len();
        if m == 0 {
            s.append("  (No bids resting on book)\n");
        } else {
            let ghost rev = reversed_levels(self.bids@);
            let mut i: usize = 0;
            while i < m
                invariant
                    m == self.bids@.len(),
                    i <= m,
                    rev == reversed_levels(self.bids@),
                    volumes_fit(self.bids@),
                    levels_wf(self.bids@, BidOrAsk::Bid),
                    s@ == mid + levels_text(rev.take(i as int)),
                decreases m - i,
            {
                assert(rev.take(i + 1).drop_last() =~= rev.take(i as int));
                assert(rev.take(i + 1).last() == self.bids@[m - 1 - i]);
                let line = level_line(&self.bids[m - 1 - i]);
                s.append(line.as_str());
                i = i + 1;
            }
            assert(rev.take(m as int) =~= rev);
        }
        s.append("==================================================\n");
        s
    }
}

} // verus!
