use vstd::prelude::*;

use crate::channel::LoggedSender;
use crate::clock::{instant_now, nanos_since};
use crate::domain::order::{BidOrAsk, Order};
use crate::domain::orderbook::{
    book_text, double_rule, fills_total, limit_fills, limit_order_done, market_fills, limit_order_ok, market_order_done, market_order_ok, OrderBook,
};
use crate::domain::price::Price;
use crate::domain::registry::{placed, OrderRegistry};
use crate::domain::trade::Trade;
use crate::text::{concat, decimal_digits, decimal_string};

verus! {

/// An exchange: one order book per listed symbol.
#[derive(Debug)]
pub struct Market {
    pub name: String,
    pub books: Vec<OrderBook>,
}

/// A snapshot of one book: last traded price and best prices on each side.
#[derive(Debug)]
pub struct MarketTick {
    pub exchange_name: String,
    pub symbol: String,
    pub ltp: Price,
    /// Best resting bid price; none when no bid rests.
    pub best_bid: Option<Price>,
    /// Best resting ask price; none when no ask rests.
    pub best_ask: Option<Price>,
    pub timestamp_instant: std::time::Instant,
}

/// The message for an order whose symbol is not listed.
pub open spec fn ticker_not_found(symbol: Seq<char>) -> Seq<char> {
    "Ticker '"@ + symbol + "' not found in market."@
}

/// The message for a subscription to a symbol that is not listed.
pub open spec fn subscription_not_found(symbol: Seq<char>) -> Seq<char> {
    "Stock ticker '"@ + symbol + "' not found for subscription."@
}

/// The outcome of routing a limit order: the book of its symbol takes it (see
/// `limit_order_done`) and no other book changes; an order for a symbol that is
/// not listed is refused and nothing changes.
pub open spec fn limit_placed(before: Market, order: Order, after: Market, r: Result<(Vec<Trade>, String), String>) -> bool {
    let sym = order.0.symbol@;
    if before.has_book(sym) {
        &&& after.has_book(sym)
        &&& limit_order_done(before.book_for(sym), order, after.book_for(sym), r)
        &&& after.same_except(before, sym)
    } else {
        &&& after == before
        &&& r matches Err(e) && e@ == ticker_not_found(sym)
    }
}

/// The outcome of routing a market order (see `limit_placed`).
pub open spec fn market_placed(before: Market, order: Order, after: Market, r: Result<(Vec<Trade>, String), String>) -> bool {
    let sym = order.0.symbol@;
    if before.has_book(sym) {
        &&& after.has_book(sym)
        &&& market_order_done(before.book_for(sym), order, after.book_for(sym), r)
        &&& after.same_except(before, sym)
    } else {
        &&& after == before
        &&& r matches Err(e) && e@ == ticker_not_found(sym)
    }
}

/// The message for an order that a listed book cannot take because its trade ids
/// would run out.
pub open spec fn ids_exhausted() -> Seq<char> {
    "Order cannot be matched: trade ids of this book are exhausted."@
}

/// The outcome of routing `order` (see `Market::route_order`): an order that the
/// book of a listed symbol cannot take is refused and nothing changes; any other
/// is placed as a limit order when it has a price and as a market order when not.
pub open spec fn routed(before: Market, order: Order, after: Market, r: Result<(Vec<Trade>, String), String>) -> bool {
    let sym = order.0.symbol@;
    let limit = order.0.price is Some;
    let ok = if limit {
        limit_order_ok(before.book_for(sym), order)
    } else {
        market_order_ok(before.book_for(sym), order)
    };
    if before.has_book(sym) && !ok {
        &&& after == before
        &&& r matches Err(e) && e@ == ids_exhausted()
    } else if limit {
        limit_placed(before, order, after, r)
    } else {
        market_placed(before, order, after, r)
    }
}

/// The trades of a run of routed orders, in order: those of each order that was
/// processed, none of one that was refused.
pub open spec fn trades_of(rs: Seq<Result<(Vec<Trade>, String), String>>) -> Seq<Trade>
    decreases rs.len(),
{
    if rs.len() == 0 {
        Seq::empty()
    } else {
        trades_of(rs.drop_last()) + match rs.last() {
            Ok((t, _)) => t@,
            Err(_) => Seq::empty(),
        }
    }
}

/// `ms` and `rs` are the markets and results of routing `orders` one after the
/// other from `ms[0]`.
pub open spec fn routed_run(ms: Seq<Market>, orders: Seq<Order>, rs: Seq<Result<(Vec<Trade>, String), String>>) -> bool {
    &&& ms.len() == orders.len() + 1
    &&& rs.len() == orders.len()
    &&& forall|i: int| 0 <= i < orders.len() ==> routed(#[trigger] ms[i], orders[i], ms[i + 1], rs[i])
}

impl Market {
    /// A book for `sym` is listed.
    pub open spec fn has_book(self, sym: Seq<char>) -> bool {
        exists|i: int| 0 <= i < self.books@.len() && (#[trigger] self.books@[i]).symbol@ == sym
    }

    /// The position of the book for `sym`.
    pub open spec fn book_index(self, sym: Seq<char>) -> int {
        choose|i: int| 0 <= i < self.books@.len() && (#[trigger] self.books@[i]).symbol@ == sym
    }

    /// The book for `sym`, when it is listed.
    pub open spec fn book_for(self, sym: Seq<char>) -> OrderBook {
        self.books@[self.book_index(sym)]
    }

    /// Every book is well formed and no symbol is listed twice.
    pub open spec fn wf(self) -> bool {
        &&& forall|i: int| 0 <= i < self.books@.len() ==> (#[trigger] self.books@[i]).wf()
        &&& forall|i: int, j: int|
            0 <= i < self.books@.len() && 0 <= j < self.books@.len() && i != j ==> (#[trigger] self.books@[i]).symbol@
                != (#[trigger] self.books@[j]).symbol@
    }

    /// `self` and `other` list the same books for every symbol but `sym`.
    pub open spec fn same_except(self, other: Market, sym: Seq<char>) -> bool {
        forall|s: Seq<char>|
            s != sym ==> (#[trigger] self.has_book(s) == other.has_book(s) && (self.has_book(s) ==> self.book_for(s)
                == other.book_for(s)))
    }

    proof fn lemma_book_for(self, i: int)
        requires
            self.wf(),
            0 <= i < self.books@.len(),
        ensures
            self.has_book(self.books@[i].symbol@),
            self.book_index(self.books@[i].symbol@) == i,
            self.book_for(self.books@[i].symbol@) == self.books@[i],
    {
        let s = self.books@[i].symbol@;
        assert(self.books@[i].symbol@ == s);
        let k = self.book_index(s);
        assert(0 <= k < self.books@.len() && self.books@[k].symbol@ == s);
    }

    /// An exchange named `name` with no books.
    pub fn new(name: String) -> (m: Self)
        ensures
            m.wf(),
            m.name == name,
            m.books@.len() == 0,
    {
        Self { name, books: Vec::new() }
    }

    fn lookup(&self, symbol: &String) -> (r: Option<usize>)
        requires
            self.wf(),
        ensures
            match r {
                Some(i) => i < self.books@.len() && self.books@[i as int].symbol@ == symbol@ && self.book_index(
                    symbol@,
                ) == i,
                None => !self.has_book(symbol@),
            },
    {
        let n = self.books.len();
        let mut i: usize = 0;
        while i < n
            invariant
                self.wf(),
                n == self.books@.len(),
                i <= n,
                forall|k: int| 0 <= k < i ==> (#[trigger] self.books@[k]).symbol@ != symbol@,
            decreases n - i,
        {
            if self.books[i].symbol == *symbol {
                proof {
                    self.lemma_book_for(i as int);
                }
                return Some(i);
            }
            i = i + 1;
        }
        None
    }

    proof fn lemma_update_book(self, other: Market, i: int)
        requires
            self.wf(),
            0 <= i < self.books@.len(),
            other.books@.len() == self.books@.len(),
            forall|k: int| 0 <= k < self.books@.len() && k != i ==> other.books@[k] == self.books@[k],
            other.books@[i].symbol@ == self.books@[i].symbol@,
            other.books@[i].wf(),
        ensures
            other.wf(),
            other.has_book(self.books@[i].symbol@),
            other.book_for(self.books@[i].symbol@) == other.books@[i],
            other.same_except(self, self.books@[i].symbol@),
    {
        assert forall|a: int, b: int|
            0 <= a < other.books@.len() && 0 <= b < other.books@.len() && a != b implies (#[trigger] other.books@[a]).symbol@
                != (#[trigger] other.books@[b]).symbol@ by {
            assert(other.books@[a].symbol@ == self.books@[a].symbol@);
            assert(other.books@[b].symbol@ == self.books@[b].symbol@);
        }
        assert forall|a: int| 0 <= a < other.books@.len() implies (#[trigger] other.books@[a]).wf() by {
            if a != i {
                assert(other.books@[a] == self.books@[a]);
            }
        }
        other.lemma_book_for(i);
        let sym = self.books@[i].symbol@;
        assert forall|s: Seq<char>| s != sym implies (#[trigger] other.has_book(s) == self.has_book(s) && (other.has_book(s)
            ==> other.book_for(s) == self.book_for(s))) by {
            if other.has_book(s) {
                let k = other.book_index(s);
                assert(other.books@[k].symbol@ == self.books@[k].symbol@);
                self.lemma_book_for(k);
                other.lemma_book_for(k);
            }
            if self.has_book(s) {
                let k = self.book_index(s);
                assert(other.books@[k].symbol@ == self.books@[k].symbol@);
                other.lemma_book_for(k);
            }
        }
    }

    /// Lists `symbol` with an empty book whose last traded price is `initial_ltp`,
    /// replacing any book already listed for it.
    pub fn add_stock(&mut self, symbol: String, initial_ltp: Price)
        requires
            old(self).wf(),
        ensures
            final(self).wf(),
            final(self).name == old(self).name,
            final(self).has_book(symbol@),
            final(self).book_for(symbol@).symbol == symbol,
            final(self).book_for(symbol@).ltp == initial_ltp,
            final(self).book_for(symbol@).bids@.len() == 0,
            final(self).book_for(symbol@).asks@.len() == 0,
            final(self).same_except(*old(self), symbol@),
    {
        let found = self.lookup(&symbol);
        let book = OrderBook::new(symbol.clone(), initial_ltp);
        match found {
            Some(i) => {
                let ghost before = *self;
                self.books.set(i, book);
                proof {
                    before.lemma_update_book(*self, i as int);
                }
            },
            None => {
                let ghost before = *self;
                self.books.push(book);
                proof {
                    let n = before.books@.len() as int;
                    assert forall|a: int, b: int|
                        0 <= a < self.books@.len() && 0 <= b < self.books@.len() && a != b implies (#[trigger] self.books@[a]).symbol@
                            != (#[trigger] self.books@[b]).symbol@ by {
                        if a < n && b < n {
                            assert(self.books@[a] == before.books@[a]);
                            assert(self.books@[b] == before.books@[b]);
                        } else if a < n {
                            assert(self.books@[a] == before.books@[a]);
                        } else {
                            assert(self.books@[b] == before.books@[b]);
                        }
                    }
                    assert forall|a: int| 0 <= a < self.books@.len() implies (#[trigger] self.books@[a]).wf() by {
                        if a < n {
                            assert(self.books@[a] == before.books@[a]);
                        }
                    }
                    self.lemma_book_for(n);
                    assert forall|s: Seq<char>| s != symbol@ implies (#[trigger] self.has_book(s) == before.has_book(s) && (
                    self.has_book(s) ==> self.book_for(s) == before.book_for(s))) by {
                        if self.has_book(s) {
                            let k = self.book_index(s);
                            assert(k < n);
                            assert(self.books@[k] == before.books@[k]);
                            before.lemma_book_for(k);
                            self.lemma_book_for(k);
                        }
                        if before.has_book(s) {
                            let k = before.book_index(s);
                            assert(self.books@[k] == before.books@[k]);
                            self.lemma_book_for(k);
                        }
                    }
                }
            },
        }
    }

    /// Routes a limit order to the book of its symbol (see `OrderBook::add_limit_order`);
    /// an order for a symbol that is not listed is refused.
    pub fn place_limit_order(&mut self, order: Order) -> (r: Result<(Vec<Trade>, String), String>)
        requires
            old(self).wf(),
            old(self).has_book(order.0.symbol@) ==> limit_order_ok(old(self).book_for(order.0.symbol@), order),
        ensures
            final(self).wf(),
            final(self).name == old(self).name,
            limit_placed(*old(self), order, *final(self), r),
    {
        match self.lookup(&order.0.symbol) {
            Some(i) => {
                let ghost before = *self;
                let r = self.books[i].add_limit_order(order);
                proof {
                    before.lemma_update_book(*self, i as int);
                }
                r
            },
            None => {
                let mut msg = concat("Ticker '", order.0.symbol.as_str());
                msg.append("' not found in market.");
                Err(msg)
            },
        }
    }

    /// Routes a market order to the book of its symbol (see `OrderBook::add_market_order`);
    /// an order for a symbol that is not listed is refused.
    pub fn place_market_order(&mut self, order: Order) -> (r: Result<(Vec<Trade>, String), String>)
        requires
            old(self).wf(),
            old(self).has_book(order.0.symbol@) ==> market_order_ok(old(self).book_for(order.0.symbol@), order),
        ensures
            final(self).wf(),
            final(self).name == old(self).name,
            market_placed(*old(self), order, *final(self), r),
    {
        match self.lookup(&order.0.symbol) {
            Some(i) => {
                let ghost before = *self;
                let r = self.books[i].add_market_order(order);
                proof {
                    before.lemma_update_book(*self, i as int);
                }
                r
            },
            None => {
                let mut msg = concat("Ticker '", order.0.symbol.as_str());
                msg.append("' not found in market.");
                Err(msg)
            },
        }
    }

    /// Routes the order with handle `h` of `registry` to the book of its symbol,
    /// as a limit order when it has a price and as a market order when it has none
    /// (see `OrderRegistry::place_limit` and `OrderRegistry::place_market`): the
    /// registry's records then hold what the book filled. An order for a symbol
    /// that is not listed is refused, and nothing changes.
    pub fn place_recorded(&mut self, registry: &mut OrderRegistry, h: usize) -> (r: Result<(Vec<Trade>, String), String>)
        requires
            old(self).wf(),
            old(registry).wf(),
            h < old(registry).records@.len(),
            !old(registry).records@[h as int].resting,
            ({
                let o = old(registry).records@[h as int].order;
                old(self).has_book(o.0.symbol@) ==> if o.0.price is Some {
                    limit_order_ok(old(self).book_for(o.0.symbol@), o)
                } else {
                    market_order_ok(old(self).book_for(o.0.symbol@), o)
                }
            }),
        ensures
            final(self).wf(),
            final(registry).wf(),
            final(self).name == old(self).name,
            final(registry).brackets@ == old(registry).brackets@,
            ({
                let o = old(registry).records@[h as int].order;
                let sym = o.0.symbol@;
                let book = old(self).book_for(sym);
                if old(self).has_book(sym) {
                    &&& final(self).has_book(sym)
                    &&& final(self).same_except(*old(self), sym)
                    &&& if o.0.price is Some {
                        &&& limit_order_done(book, o, final(self).book_for(sym), r)
                        &&& placed(old(registry).records@, h as int, fills_total(limit_fills(book, o)), true, final(self).book_for(sym), final(registry).records@)
                    } else {
                        &&& market_order_done(book, o, final(self).book_for(sym), r)
                        &&& placed(old(registry).records@, h as int, fills_total(market_fills(book, o)), false, final(self).book_for(sym), final(registry).records@)
                    }
                } else {
                    &&& *final(self) == *old(self)
                    &&& *final(registry) == *old(registry)
                    &&& r matches Err(e) && e@ == ticker_not_found(sym)
                }
            }),
    {
        let symbol = registry.records[h].order.0.symbol.clone();
        let is_limit = registry.records[h].order.0.price.is_some();
        match self.lookup(&symbol) {
            Some(i) => {
                let ghost before = *self;
                let r = if is_limit {
                    registry.place_limit(&mut self.books[i], h)
                } else {
                    registry.place_market(&mut self.books[i], h)
                };
                proof {
                    before.lemma_update_book(*self, i as int);
                }
                r
            },
            None => {
                let mut msg = concat("Ticker '", symbol.as_str());
                msg.append("' not found in market.");
                Err(msg)
            },
        }
    }

    /// Routes `order` (see `routed`): after the check that the book of a listed
    /// symbol can take it, as a limit order when it has a price and as a market
    /// order when it has none.
    pub fn route_order(&mut self, order: Order) -> (r: Result<(Vec<Trade>, String), String>)
        requires
            old(self).wf(),
        ensures
            final(self).wf(),
            final(self).name == old(self).name,
            routed(*old(self), order, *final(self), r),
    {
        let limit = order.0.price.is_some();
        let listed = self.lookup(&order.0.symbol).is_some();
        if listed && !self.accepts(&order, limit) {
            return Err(String::from_str("Order cannot be matched: trade ids of this book are exhausted."));
        }
        self.submit_order(order)
    }

    /// Routes `orders` one after the other (see `route_order`), timing each, and
    /// gives the trades of all of them in order and the time each took, in
    /// nanoseconds.
    pub fn route_all(&mut self, orders: &Vec<Order>) -> (r: (Vec<Trade>, Vec<u128>))
        requires
            old(self).wf(),
        ensures
            final(self).wf(),
            final(self).name == old(self).name,
            r.1@.len() == orders@.len(),
            exists|ms: Seq<Market>, rs: Seq<Result<(Vec<Trade>, String), String>>|
                {
                    &&& routed_run(ms, orders@, rs)
                    &&& ms[0] == *old(self)
                    &&& ms.last() == *final(self)
                    &&& r.0@ == trades_of(rs)
                },
    {
        let ghost mut ms: Seq<Market> = seq![*self];
        let ghost mut rs: Seq<Result<(Vec<Trade>, String), String>> = Seq::empty();
        let mut trades: Vec<Trade> = Vec::new();
        let mut latencies: Vec<u128> = Vec::new();
        let n = orders.len();
        let mut i: usize = 0;
        while i < n
            invariant
                n == orders@.len(),
                i <= n,
                self.wf(),
                self.name == old(self).name,
                ms[0] == *old(self),
                latencies@.len() == i,
                ms.len() == i + 1,
                rs.len() == i,
                ms.last() == *self,
                forall|k: int| 0 <= k < i ==> routed(#[trigger] ms[k], orders@[k], ms[k + 1], rs[k]),
                trades@ == trades_of(rs),
            decreases n - i,
        {
            let order = orders[i].duplicate();
            let ghost before = *self;
            let t0 = instant_now();
            let r = self.route_order(order);
            latencies.push(nanos_since(&t0));
            let ghost rs0 = rs;
            proof {
                ms = ms.push(*self);
                rs = rs.push(r);
                assert(rs.drop_last() =~= rs0);
            }
            match r {
                Ok((t, _)) => {
                    let mut t = t;
                    trades.append(&mut t);
                },
                Err(_) => {},
            }
            proof {
                assert forall|k: int| 0 <= k < i + 1 implies routed(#[trigger] ms[k], orders@[k], ms[k + 1], rs[k]) by {
                    if k == i {
                        assert(ms[k] == before);
                    }
                }
            }
            i = i + 1;
        }
        proof {
            assert(routed_run(ms, orders@, rs));
            assert(ms[0] == *old(self) && ms.last() == *self && trades@ == trades_of(rs));
        }
        (trades, latencies)
    }

    /// Routes an order with a price as a limit order and one without as a market order.
    pub fn submit_order(&mut self, order: Order) -> (r: Result<(Vec<Trade>, String), String>)
        requires
            old(self).wf(),
            old(self).has_book(order.0.symbol@) ==> if order.0.price is Some {
                limit_order_ok(old(self).book_for(order.0.symbol@), order)
            } else {
                market_order_ok(old(self).book_for(order.0.symbol@), order)
            },
        ensures
            final(self).wf(),
            final(self).name == old(self).name,
            if order.0.price is Some {
                limit_placed(*old(self), order, *final(self), r)
            } else {
                market_placed(*old(self), order, *final(self), r)
            },
    {
        if order.price().is_none() {
            self.place_market_order(order)
        } else {
            self.place_limit_order(order)
        }
    }

    /// Whether the book of `order`'s symbol can take it: the symbol is listed and
    /// the conditions of `place_limit_order` (when `limit`) or `place_market_order` hold.
    pub fn accepts(&self, order: &Order, limit: bool) -> (r: bool)
        requires
            self.wf(),
        ensures
            r == (self.has_book(order.0.symbol@) && if limit {
                limit_order_ok(self.book_for(order.0.symbol@), *order)
            } else {
                market_order_ok(self.book_for(order.0.symbol@), *order)
            }),
    {
        match self.lookup(&order.0.symbol) {
            Some(i) => {
                let book = &self.books[i];
                let fits = book.fits_trade_ids(order.0.bid_or_ask);
                let filled_ok = order.0.filled_size <= order.0.size;
                if limit {
                    fits && filled_ok && (order.0.filled_size >= order.0.size || order.0.price.is_some())
                } else {
                    fits && filled_ok
                }
            },
            None => false,
        }
    }

    /// The book listed for `symbol`, if any.
    pub fn get_orderbook(&self, symbol: &str) -> (r: Option<&OrderBook>)
        requires
            self.wf(),
        ensures
            match r {
                Some(b) => self.has_book(symbol@) && *b == self.book_for(symbol@),
                None => !self.has_book(symbol@),
            },
    {
        let key = String::from_str(symbol);
        match self.lookup(&key) {
            Some(i) => Some(&self.books[i]),
            None => None,
        }
    }

    /// `t` is a snapshot of the book listed for `symbol`: the exchange's name,
    /// the symbol, the last traded price and the best bid and ask, none when that
    /// side is empty.
    pub open spec fn is_snapshot(self, symbol: Seq<char>, t: MarketTick) -> bool {
        let b = self.book_for(symbol);
        &&& t.exchange_name == self.name
        &&& t.symbol@ == symbol
        &&& t.ltp == b.ltp
        &&& t.best_bid == (if b.bids@.len() > 0 { Some(b.bids@.last().price) } else { None::<Price> })
        &&& t.best_ask == (if b.asks@.len() > 0 { Some(b.asks@.last().price) } else { None::<Price> })
    }

    /// A snapshot of the book for `symbol` (see `is_snapshot`), if it is listed.
    pub fn ticker(&self, symbol: &str) -> (r: Option<MarketTick>)
        requires
            self.wf(),
        ensures
            match r {
                Some(t) => self.has_book(symbol@) && self.is_snapshot(symbol@, t),
                None => !self.has_book(symbol@),
            },
    {
        match self.get_orderbook(symbol) {
            Some(book) => Some(
                MarketTick {
                    exchange_name: self.name.clone(),
                    symbol: String::from_str(symbol),
                    ltp: book.ltp,
                    best_bid: book.best_bid(),
                    best_ask: book.best_ask(),
                    timestamp_instant: instant_now(),
                },
            ),
            None => None,
        }
    }

    /// Sends a snapshot of the book for `symbol` (see `is_snapshot`) to
    /// `sender`: exactly one tick is handed to it. A symbol that is not listed is
    /// refused and nothing is sent. Whether the tick reaches a receiver is
    /// ignored.
    pub fn subscribe_ticker(&self, symbol: &str, sender: &mut LoggedSender<MarketTick>) -> (r: Result<(), String>)
        requires
            self.wf(),
        ensures
            final(sender).sender == old(sender).sender,
            self.has_book(symbol@) ==> r is Ok && exists|t: MarketTick|
                self.is_snapshot(symbol@, t) && final(sender).sent@ == old(sender).sent@.push(t),
            !self.has_book(symbol@) ==> (r matches Err(e) && e@ == subscription_not_found(symbol@))
                && final(sender).sent@ == old(sender).sent@,
    {
        match self.ticker(symbol) {
            Some(tick) => {
                let ghost t = tick;
                let _ = sender.send(tick);
                assert(self.is_snapshot(symbol@, t));
                Ok(())
            },
            None => {
                let mut msg = concat("Stock ticker '", symbol);
                msg.append("' not found for subscription.");
                Err(msg)
            },
        }
    }
}


/// The texts of `books`, in order, each after an empty line and followed by a line break.
pub open spec fn books_text(books: Seq<OrderBook>) -> Seq<char>
    decreases books.len(),
{
    if books.len() == 0 {
        Seq::empty()
    } else {
        books_text(books.drop_last()) + "\n"@ + book_text(books.last()) + "\n"@
    }
}

/// The text of an exchange: its name and number of books, then each book,
/// or a note when it lists none.
pub open spec fn market_text(m: Market) -> Seq<char> {
    double_rule() + "  EXCHANGE MARKET: "@ + m.name@ + "\n"@ + "  Active Tickers: "@ + decimal_digits(m.books@.len())
        + "\n"@ + double_rule()
        + (if m.books@.len() == 0 { "  (No stock orderbooks registered yet)\n"@ } else { books_text(m.books@) })
}

impl Market {
    /// The volume resting at each level of each book fits in a `u64`.
    pub open spec fn volumes_fit(self) -> bool {
        forall|i: int| 0 <= i < self.books@.len() ==> (#[trigger] self.books@[i]).volumes_fit()
    }

    /// The exchange as text (see `market_text`).
    pub fn display(&self) -> (s: String)
        requires
            self.wf(),
            self.volumes_fit(),
        ensures
            s@ == market_text(*self),
    {
        let mut s = String::from_str("==================================================\n");
        s.append("  EXCHANGE MARKET: ");
        s.append(self.name.as_str());
        s.append("\n");
        s.append("  Active Tickers: ");
        let n = self.books.len();
        let count = decimal_string(n as u64);
        s.append(count.as_str());
        s.append("\n");
        s.append("==================================================\n");
        proof {
            reveal_strlit("==================================================\n");
            reveal_strlit("  EXCHANGE MARKET: ");
            reveal_strlit("\n");
            reveal_strlit("  Active Tickers: ");
            reveal_strlit("  (No stock orderbooks registered yet)\n");
        }
        let ghost head = s@;
        if n == 0 {
            s.append("  (No stock orderbooks registered yet)\n");
        } else {
            let mut i: usize = 0;
            while i < n
                invariant
                    n == self.books@.len(),
                    i <= n,
                    self.wf(),
                    self.volumes_fit(),
                    s@ == head + books_text(self.books@.take(i as int)),
                decreases n - i,
            {
                assert(self.books@.take(i + 1).drop_last() =~= self.books@.take(i as int));
                let text = self.books[i].display();
                s.append("\n");
                s.append(text.as_str());
                s.append("\n");
                i = i + 1;
            }
            assert(self.books@.take(n as int) =~= self.books@);
        }
        s
    }
}


/// The price `listings` gives `s`: that of its last entry for `s`.
pub open spec fn listed_price(listings: Seq<(String, u64)>, s: Seq<char>) -> Option<u64>
    decreases listings.len(),
{
    if listings.len() == 0 {
        None
    } else if listings.last().0@ == s {
        Some(listings.last().1)
    } else {
        listed_price(listings.drop_last(), s)
    }
}

/// The lowest saved price, in paisa, that is restored at start-up.
pub open spec fn min_restored_price() -> u64 {
    50000
}

/// The position of the first entry of `stocks` for `s`, when there is one.
pub open spec fn first_listing(stocks: Seq<(String, u64)>, s: Seq<char>) -> int {
    choose|i: int| 0 <= i < stocks.len() && stocks[i].0@ == s && forall|k: int| 0 <= k < i ==> #[trigger] stocks[k].0@ != s
}

proof fn lemma_first_listing(stocks: Seq<(String, u64)>, s: Seq<char>, i: int)
    requires
        0 <= i < stocks.len(),
        stocks[i].0@ == s,
        forall|k: int| 0 <= k < i ==> #[trigger] stocks[k].0@ != s,
    ensures
        first_listing(stocks, s) == i,
{
    let p = |j: int| 0 <= j < stocks.len() && stocks[j].0@ == s && forall|k: int| 0 <= k < j ==> #[trigger] stocks[k].0@ != s;
    assert(p(i));
    let j = first_listing(stocks, s);
    assert(p(j));
    if j < i {
        assert(stocks[j].0@ != s);
    } else if j > i {
        assert(stocks[i].0@ != s);
    }
}

/// Restores a saved price of `symbol` into the start-up list `stocks`: the
/// first entry for `symbol` takes `price_paisa`, unless the price is below
/// `min_restored_price` or no entry is for `symbol`.
pub fn restore_saved_price(stocks: &mut Vec<(String, u64)>, symbol: &str, price_paisa: u64)
    ensures
        if price_paisa >= min_restored_price() && exists|k: int| 0 <= k < old(stocks)@.len() && #[trigger] old(stocks)@[k].0@ == symbol@ {
            final(stocks)@ == old(stocks)@.update(
                first_listing(old(stocks)@, symbol@),
                (old(stocks)@[first_listing(old(stocks)@, symbol@)].0, price_paisa),
            )
        } else {
            final(stocks)@ == old(stocks)@
        },
{
    if price_paisa < 50000 {
        return;
    }
    let key = String::from_str(symbol);
    let n = stocks.len();
    let mut i: usize = 0;
    let mut found: Option<usize> = None;
    while i < n && found.is_none()
        invariant
            n == stocks@.len(),
            key@ == symbol@,
            stocks@ == old(stocks)@,
            i <= n,
            forall|k: int| 0 <= k < i ==> #[trigger] stocks@[k].0@ != symbol@,
            match found {
                Some(j) => j < n && stocks@[j as int].0@ == symbol@ && forall|k: int| 0 <= k < j ==> #[trigger] stocks@[k].0@ != symbol@,
                None => true,
            },
        decreases n - i + (if found is None { 1int } else { 0int }),
    {
        if stocks[i].0 == key {
            found = Some(i);
        } else {
            i = i + 1;
        }
    }
    if let Some(j) = found {
        proof {
            lemma_first_listing(old(stocks)@, symbol@, j as int);
        }
        let name = stocks[j].0.clone();
        stocks.set(j, (name, price_paisa));
    }
}

impl Market {
    /// An exchange named `name` listing each symbol of `listings` with an empty
    /// book at the price `listings` gives it (see `listed_price`).
    pub fn with_listings(name: String, listings: &Vec<(String, u64)>) -> (m: Self)
        ensures
            m.wf(),
            m.name == name,
            forall|s: Seq<char>| #[trigger] m.has_book(s) == (listed_price(listings@, s) is Some),
            forall|s: Seq<char>| #[trigger] listed_price(listings@, s) is Some ==> {
                let b = m.book_for(s);
                &&& b.symbol@ == s
                &&& b.ltp == Price { paisa: listed_price(listings@, s).unwrap() }
                &&& b.bids@.len() == 0
                &&& b.asks@.len() == 0
            },
    {
        let mut m = Market::new(name);
        let n = listings.len();
        let mut i: usize = 0;
        while i < n
            invariant
                n == listings@.len(),
                i <= n,
                m.wf(),
                m.name == name,
                forall|s: Seq<char>| #[trigger] m.has_book(s) == (listed_price(listings@.take(i as int), s) is Some),
                forall|s: Seq<char>| #[trigger] listed_price(listings@.take(i as int), s) is Some ==> {
                    let b = m.book_for(s);
                    &&& b.symbol@ == s
                    &&& b.ltp == Price { paisa: listed_price(listings@.take(i as int), s).unwrap() }
                    &&& b.bids@.len() == 0
                    &&& b.asks@.len() == 0
                },
            decreases n - i,
        {
            let ghost before = m;
            let sym = listings[i].0.clone();
            let px = listings[i].1;
            m.add_stock(sym, Price::from_paisa(px));
            proof {
                let t = listings@.take(i + 1);
                assert(t.drop_last() =~= listings@.take(i as int));
                assert(t.last() == listings@[i as int]);
                assert forall|s: Seq<char>| #[trigger] m.has_book(s) == (listed_price(t, s) is Some) by {
                    if s != listings@[i as int].0@ {
                        assert(m.has_book(s) == before.has_book(s));
                    }
                }
                assert forall|s: Seq<char>| #[trigger] listed_price(t, s) is Some implies {
                    let b = m.book_for(s);
                    &&& b.symbol@ == s
                    &&& b.ltp == Price { paisa: listed_price(t, s).unwrap() }
                    &&& b.bids@.len() == 0
                    &&& b.asks@.len() == 0
                } by {
                    if s != listings@[i as int].0@ {
                        assert(listed_price(t, s) == listed_price(listings@.take(i as int), s));
                        assert(before.has_book(s));
                        assert(m.has_book(s) == before.has_book(s));
                        assert(m.book_for(s) == before.book_for(s));
                    }
                }
            }
            i = i + 1;
        }
        assert(listings@.take(n as int) =~= listings@);
        m
    }
}

} // verus!
