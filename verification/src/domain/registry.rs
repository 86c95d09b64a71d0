use vstd::prelude::*;

use crate::domain::order::{BidOrAsk, Order, OrderInner, OrderType};
use crate::domain::orderbook::{
    crosses, fills_total, lemma_fills_bounded, lemma_trades_total_fills, limit_fills, limit_order_done, limit_order_ok,
    market_fills, market_order_done, market_order_ok, match_queue, queue_of, resting_price, Fill, OrderBook, PriceLevel,
};
use crate::domain::price::Price;
use crate::domain::trade::{total_quantity, Trade};
use crate::domain::user::{User, UserInner};

verus! {

/// The one record of an order: its data, the bracket it belongs to (by bracket
/// handle), and whether it is resting on a book.
#[derive(Debug)]
pub struct OrderRecord {
    pub order: Order,
    pub bracket: Option<usize>,
    pub resting: bool,
}

/// One bracket: the handles of its parent and of its exit orders, and whether it
/// has been cancelled.
#[derive(Debug, Clone, Copy)]
pub struct BracketRecord {
    pub parent: usize,
    pub stop_loss: Option<usize>,
    pub target: Option<usize>,
    pub cancelled: bool,
}

/// Orders kept by handle. Each order, a parent and each of its exit orders
/// alike, has exactly one record, and each bracket has one record that its
/// three orders share: a fill or a cancel made through any handle is seen through
/// every handle, and the state of a bracket follows from its one record.
#[derive(Debug)]
pub struct OrderRegistry {
    pub records: Vec<OrderRecord>,
    pub brackets: Vec<BracketRecord>,
}

/// `o` with its filled size set to `f`.
pub open spec fn with_filled(o: Order, f: u64) -> Order {
    Order(OrderInner { filled_size: f, ..o.0 })
}

/// `r` with the filled size of its order set to `f`.
pub open spec fn filled_record(r: OrderRecord, f: u64) -> OrderRecord {
    OrderRecord { order: with_filled(r.order, f), ..r }
}

/// `o` without the exit orders and the bracket state it carries: what a record holds.
pub open spec fn flat(o: Order) -> Order {
    Order(OrderInner { bracket_state: None, sl_child: None, tp_child: None, ..o.0 })
}

/// The order is complete: its filled size has reached its size.
pub open spec fn complete(o: Order) -> bool {
    o.0.filled_size >= o.0.size
}

/// The order with handle `m`, if there is one, is complete.
pub open spec fn member_complete(recs: Seq<OrderRecord>, m: Option<usize>) -> bool {
    m matches Some(i) && complete(recs[i as int].order)
}

/// The bracket is over: it was cancelled, or one of its exit orders is complete,
/// which cancels the other (one cancels the other).
pub open spec fn bracket_over(recs: Seq<OrderRecord>, br: BracketRecord) -> bool {
    br.cancelled || member_complete(recs, br.stop_loss) || member_complete(recs, br.target)
}

/// Whether the order with handle `h` may trade: an order outside a bracket always;
/// the parent of a bracket until the bracket is over; an exit order once its
/// parent is complete, until the bracket is over.
pub open spec fn order_active(recs: Seq<OrderRecord>, brs: Seq<BracketRecord>, h: int) -> bool {
    match recs[h].bracket {
        None => true,
        Some(b) => {
            let br = brs[b as int];
            if recs[h].order.is_exit() {
                complete(recs[br.parent as int].order) && !bracket_over(recs, br)
            } else {
                !bracket_over(recs, br)
            }
        },
    }
}

/// The handle of the stop-loss exit of the parent with handle `h`, if it has one.
pub open spec fn stop_loss_of(recs: Seq<OrderRecord>, brs: Seq<BracketRecord>, h: int) -> Option<usize> {
    match recs[h].bracket {
        Some(b) => if brs[b as int].parent == h {
            brs[b as int].stop_loss
        } else {
            None
        },
        None => None,
    }
}

/// The handle of the target exit of the parent with handle `h`, if it has one.
pub open spec fn target_of(recs: Seq<OrderRecord>, brs: Seq<BracketRecord>, h: int) -> Option<usize> {
    match recs[h].bracket {
        Some(b) => if brs[b as int].parent == h {
            brs[b as int].target
        } else {
            None
        },
        None => None,
    }
}

/// The bracket with handle `b` is well formed: its parent is a limit or market
/// order and its exits are of the stop-loss and target kinds, each recorded as
/// belonging to it.
pub open spec fn bracket_wf(recs: Seq<OrderRecord>, br: BracketRecord, b: int) -> bool {
    &&& br.parent < recs.len()
    &&& recs[br.parent as int].bracket == Some(b as usize)
    &&& !recs[br.parent as int].order.is_exit()
    &&& (br.stop_loss matches Some(s) ==> s < recs.len() && recs[s as int].bracket == Some(b as usize)
        && recs[s as int].order.0.order_type == OrderType::StopLoss)
    &&& (br.target matches Some(t) ==> t < recs.len() && recs[t as int].bracket == Some(b as usize)
        && recs[t as int].order.0.order_type == OrderType::Target)
}

/// Every bracket handle that a record holds is valid, and every bracket is well formed.
pub open spec fn registry_wf(recs: Seq<OrderRecord>, brs: Seq<BracketRecord>) -> bool {
    &&& recs.len() <= usize::MAX
    &&& brs.len() <= usize::MAX
    &&& forall|h: int| 0 <= h < recs.len() ==> ((#[trigger] recs[h]).bracket matches Some(b) ==> b < brs.len())
    &&& forall|b: int| 0 <= b < brs.len() ==> bracket_wf(recs, #[trigger] brs[b], b)
}

/// The records after `qty` more of the order with handle `h` is filled.
pub open spec fn fill_records(recs: Seq<OrderRecord>, h: int, qty: nat) -> Seq<OrderRecord> {
    recs.update(h, filled_record(recs[h], (recs[h].order.0.filled_size + qty) as u64))
}

/// The brackets after the order with handle `h` is cancelled: its bracket, if it
/// has one, is recorded as cancelled.
pub open spec fn cancel_brackets(recs: Seq<OrderRecord>, brs: Seq<BracketRecord>, h: int) -> Seq<BracketRecord> {
    match recs[h].bracket {
        Some(b) => brs.update(b as int, BracketRecord { cancelled: true, ..brs[b as int] }),
        None => brs,
    }
}

/// Two lists of records agree on everything but filled sizes and resting flags.
pub open spec fn same_shape(a: Seq<OrderRecord>, b: Seq<OrderRecord>) -> bool {
    &&& a.len() == b.len()
    &&& forall|i: int| 0 <= i < a.len() ==> (#[trigger] a[i]).bracket == b[i].bracket
        && a[i].order.0.order_type == b[i].order.0.order_type
}

/// Changing filled sizes and resting flags keeps the registry well formed.
proof fn lemma_same_shape_wf(a: Seq<OrderRecord>, b: Seq<OrderRecord>, brs: Seq<BracketRecord>)
    requires
        registry_wf(a, brs),
        same_shape(a, b),
    ensures
        registry_wf(b, brs),
{
    assert forall|h: int| 0 <= h < b.len() implies ((#[trigger] b[h]).bracket matches Some(k) ==> k < brs.len()) by {
        assert(a[h].bracket == b[h].bracket);
    }
    assert forall|k: int| 0 <= k < brs.len() implies bracket_wf(b, #[trigger] brs[k], k) by {
        assert(bracket_wf(a, brs[k], k));
        let br = brs[k];
        assert(a[br.parent as int].bracket == b[br.parent as int].bracket);
        if let Some(s) = br.stop_loss {
            assert(a[s as int].bracket == b[s as int].bracket);
        }
        if let Some(t) = br.target {
            assert(a[t as int].bracket == b[t as int].bracket);
        }
    }
}

impl OrderRecord {
    /// A copy of the record.
    pub fn duplicate(&self) -> (r: OrderRecord)
        ensures
            r == *self,
    {
        OrderRecord { order: self.order.duplicate(), bracket: self.bracket, resting: self.resting }
    }
}

/// A copy of `o` without the exit orders and bracket state it carries.
fn flat_copy(o: &Order) -> (r: Order)
    ensures
        r == flat(*o),
{
    Order(
        OrderInner {
            id: o.0.id.clone(),
            symbol: o.0.symbol.clone(),
            price: o.0.price,
            size: o.0.size,
            filled_size: o.0.filled_size,
            bid_or_ask: o.0.bid_or_ask,
            order_type: o.0.order_type,
            acc_no: o.0.acc_no.clone(),
            timestamp: o.0.timestamp,
            bracket_state: None,
            sl_child: None,
            tp_child: None,
        },
    )
}

impl OrderRegistry {
    /// The registry is well formed (see `registry_wf`).
    pub open spec fn wf(self) -> bool {
        registry_wf(self.records@, self.brackets@)
    }

    /// Whether the order with handle `h` may trade (see `order_active`).
    pub open spec fn spec_is_active(self, h: int) -> bool {
        order_active(self.records@, self.brackets@, h)
    }

    /// A registry with no orders.
    pub fn new() -> (r: Self)
        ensures
            r.wf(),
            r.records@.len() == 0,
            r.brackets@.len() == 0,
    {
        OrderRegistry { records: Vec::new(), brackets: Vec::new() }
    }

    /// The number of orders recorded.
    pub fn len(&self) -> (n: usize)
        ensures
            n == self.records@.len(),
    {
        self.records.len()
    }

    /// Records an order built by `OrderBuilder::build`, with its exit orders, and
    /// gives the handle of the order. Its exit orders get the next handles, the
    /// stop-loss first; when it has a bracket state, a bracket record joins the
    /// three, cancelled as that state says.
    pub fn add(&mut self, order: Order) -> (h: usize)
        requires
            old(self).wf(),
            order.family_wf(),
            !order.is_exit(),
            old(self).records@.len() + 3 <= usize::MAX,
            old(self).brackets@.len() + 1 <= usize::MAX,
        ensures
            final(self).wf(),
            h == old(self).records@.len(),
            forall|i: int| 0 <= i < h ==> #[trigger] final(self).records@[i] == old(self).records@[i],
            final(self).records@[h as int] == (OrderRecord {
                order: flat(order),
                bracket: if order.0.bracket_state is Some {
                    Some(old(self).brackets@.len() as usize)
                } else {
                    None
                },
                resting: false,
            }),
            stop_loss_of(final(self).records@, final(self).brackets@, h as int) == (match order.0.sl_child {
                Some(c) => Some((h + 1) as usize),
                None => None,
            }),
            target_of(final(self).records@, final(self).brackets@, h as int) == (match order.0.tp_child {
                Some(c) => Some((if order.0.sl_child is Some { h + 2 } else { h + 1 }) as usize),
                None => None,
            }),
            match order.0.sl_child {
                Some(c) => final(self).records@[h + 1] == (OrderRecord {
                    order: flat(*c),
                    bracket: Some(old(self).brackets@.len() as usize),
                    resting: false,
                }),
                None => true,
            },
            match order.0.tp_child {
                Some(c) => final(self).records@[if order.0.sl_child is Some { h + 2 } else { h + 1 }] == (OrderRecord {
                    order: flat(*c),
                    bracket: Some(old(self).brackets@.len() as usize),
                    resting: false,
                }),
                None => true,
            },
            final(self).records@.len() == h + 1 + (if order.0.sl_child is Some { 1int } else { 0 }) + (
            if order.0.tp_child is Some { 1int } else { 0 }),
            match order.0.bracket_state {
                Some(bs) => final(self).brackets@.len() == old(self).brackets@.len() + 1
                    && final(self).brackets@.last().cancelled == bs.is_bracket_cancelled
                    && forall|b: int| 0 <= b < old(self).brackets@.len() ==> #[trigger] final(self).brackets@[b] == old(self).brackets@[b],
                None => final(self).brackets@ == old(self).brackets@,
            },
    {
        let ghost recs0 = self.records@;
        let ghost brs0 = self.brackets@;
        let h = self.records.len();
        let bracket = match order.0.bracket_state {
            Some(_) => Some(self.brackets.len()),
            None => None,
        };
        self.records.push(OrderRecord { order: flat_copy(&order), bracket, resting: false });
        let sl = match &order.0.sl_child {
            Some(c) => {
                let s = self.records.len();
                self.records.push(OrderRecord { order: flat_copy(&**c), bracket, resting: false });
                Some(s)
            },
            None => None,
        };
        let tp = match &order.0.tp_child {
            Some(c) => {
                let t = self.records.len();
                self.records.push(OrderRecord { order: flat_copy(&**c), bracket, resting: false });
                Some(t)
            },
            None => None,
        };
        match order.0.bracket_state {
            Some(bs) => {
                self.brackets.push(
                    BracketRecord { parent: h, stop_loss: sl, target: tp, cancelled: bs.is_bracket_cancelled },
                );
            },
            None => {},
        }
        proof {
            let recs = self.records@;
            let brs = self.brackets@;
            assert forall|i: int| 0 <= i < recs.len() implies ((#[trigger] recs[i]).bracket matches Some(b) ==> b < brs.len()) by {
                if i < recs0.len() {
                    assert(recs[i] == recs0[i]);
                }
            }
            assert forall|b: int| 0 <= b < brs.len() implies bracket_wf(recs, #[trigger] brs[b], b) by {
                if b < brs0.len() {
                    assert(brs[b] == brs0[b]);
                    assert(bracket_wf(recs0, brs0[b], b));
                    let br = brs0[b];
                    assert(recs[br.parent as int] == recs0[br.parent as int]);
                    if let Some(s) = br.stop_loss {
                        assert(recs[s as int] == recs0[s as int]);
                    }
                    if let Some(t) = br.target {
                        assert(recs[t as int] == recs0[t as int]);
                    }
                }
            }
        }
        h
    }

    /// Fills `qty` more of the order with handle `h`. Its one record changes, so
    /// the fill is seen through every handle; the state of its bracket follows.
    pub fn fill(&mut self, h: usize, qty: u64)
        requires
            old(self).wf(),
            h < old(self).records@.len(),
            old(self).records@[h as int].order.0.filled_size + qty <= u64::MAX,
        ensures
            final(self).wf(),
            final(self).records@ == fill_records(old(self).records@, h as int, qty as nat),
            final(self).brackets@ == old(self).brackets@,
    {
        let ghost recs0 = self.records@;
        let mut r = self.records[h].duplicate();
        r.order.0.filled_size = r.order.0.filled_size + qty;
        self.records.set(h, r);
        proof {
            assert(self.records@ =~= fill_records(recs0, h as int, qty as nat));
            lemma_same_shape_wf(recs0, self.records@, self.brackets@);
        }
    }

    /// Cancels the order with handle `h`: its bracket, if it has one, is recorded
    /// as cancelled, which ends every order of the bracket. An order outside a
    /// bracket is not changed.
    pub fn cancel(&mut self, h: usize)
        requires
            old(self).wf(),
            h < old(self).records@.len(),
        ensures
            final(self).wf(),
            final(self).records@ == old(self).records@,
            final(self).brackets@ == cancel_brackets(old(self).records@, old(self).brackets@, h as int),
    {
        let ghost brs0 = self.brackets@;
        match self.records[h].bracket {
            Some(b) => {
                let mut br = self.brackets[b];
                br.cancelled = true;
                self.brackets.set(b, br);
                proof {
                    let brs = self.brackets@;
                    assert forall|k: int| 0 <= k < brs.len() implies bracket_wf(self.records@, #[trigger] brs[k], k) by {
                        assert(bracket_wf(self.records@, brs0[k], k));
                    }
                }
            },
            None => {},
        }
    }

    /// Whether the order with handle `h` may trade (see `order_active`).
    pub fn is_active(&self, h: usize) -> (r: bool)
        requires
            self.wf(),
            h < self.records@.len(),
        ensures
            r == self.spec_is_active(h as int),
    {
        match self.records[h].bracket {
            None => true,
            Some(b) => {
                let br = self.brackets[b];
                assert(bracket_wf(self.records@, self.brackets@[b as int], b as int));
                let sl_done = match br.stop_loss {
                    Some(s) => self.records[s].order.0.filled_size >= self.records[s].order.0.size,
                    None => false,
                };
                let tp_done = match br.target {
                    Some(t) => self.records[t].order.0.filled_size >= self.records[t].order.0.size,
                    None => false,
                };
                let over = br.cancelled || sl_done || tp_done;
                let exit = match self.records[h].order.0.order_type {
                    OrderType::StopLoss | OrderType::Target => true,
                    OrderType::Limit | OrderType::Market => false,
                };
                if exit {
                    let p = br.parent;
                    self.records[p].order.0.filled_size >= self.records[p].order.0.size && !over
                } else {
                    !over
                }
            },
        }
    }

    /// The filled size of the order with handle `h`.
    pub fn filled_size(&self, h: usize) -> (r: u64)
        requires
            h < self.records@.len(),
        ensures
            r == self.records@[h as int].order.0.filled_size,
    {
        self.records[h].order.0.filled_size
    }

    /// The size of the order with handle `h`.
    pub fn size(&self, h: usize) -> (r: u64)
        requires
            h < self.records@.len(),
        ensures
            r == self.records@[h as int].order.0.size,
    {
        self.records[h].order.0.size
    }

    /// Size minus filled size of the order with handle `h`.
    pub fn remaining_size(&self, h: usize) -> (r: u64)
        requires
            h < self.records@.len(),
            self.records@[h as int].order.0.filled_size <= self.records@[h as int].order.0.size,
        ensures
            r == self.records@[h as int].order.remaining(),
    {
        self.records[h].order.0.size - self.records[h].order.0.filled_size
    }

    /// Whether the order with handle `h` is filled.
    pub fn is_filled(&self, h: usize) -> (r: bool)
        requires
            h < self.records@.len(),
        ensures
            r == complete(self.records@[h as int].order),
    {
        self.records[h].order.0.filled_size >= self.records[h].order.0.size
    }

    /// Whether the order with handle `h` is resting on a book.
    pub fn is_resting(&self, h: usize) -> (r: bool)
        requires
            h < self.records@.len(),
        ensures
            r == self.records@[h as int].resting,
    {
        self.records[h].resting
    }

    /// A copy of the order with handle `h`, as it stands now.
    pub fn order(&self, h: usize) -> (r: Order)
        requires
            h < self.records@.len(),
        ensures
            r == self.records@[h as int].order,
    {
        self.records[h].order.duplicate()
    }

    /// The handle of the stop-loss exit of the parent with handle `h`, if it has one.
    pub fn sl_child(&self, h: usize) -> (r: Option<usize>)
        requires
            self.wf(),
            h < self.records@.len(),
        ensures
            r == stop_loss_of(self.records@, self.brackets@, h as int),
    {
        match self.records[h].bracket {
            Some(b) => {
                if self.brackets[b].parent == h {
                    self.brackets[b].stop_loss
                } else {
                    None
                }
            },
            None => None,
        }
    }

    /// The handle of the target exit of the parent with handle `h`, if it has one.
    pub fn tp_child(&self, h: usize) -> (r: Option<usize>)
        requires
            self.wf(),
            h < self.records@.len(),
        ensures
            r == target_of(self.records@, self.brackets@, h as int),
    {
        match self.records[h].bracket {
            Some(b) => {
                if self.brackets[b].parent == h {
                    self.brackets[b].target
                } else {
                    None
                }
            },
            None => None,
        }
    }
}

/// The filled size of the first order of `q` whose id is `id`, if there is one.
pub open spec fn find_filled(q: Seq<Order>, id: Seq<char>) -> Option<u64>
    decreases q.len(),
{
    if q.len() == 0 {
        None
    } else if q[0].0.id@ == id {
        Some(q[0].0.filled_size)
    } else {
        find_filled(q.drop_first(), id)
    }
}

/// The filled size that `book` holds for the order with id `id` resting on `side`.
pub open spec fn book_filled(book: OrderBook, side: BidOrAsk, id: Seq<char>) -> Option<u64> {
    find_filled(queue_of(book.levels_of(side)), id)
}

/// A record once `book` has traded: a record resting in that book takes the
/// filled size that the book holds for its id; when the book no longer holds it,
/// the book has filled it completely (see `lemma_leaving_order_was_filled`) and it
/// no longer rests. Other records are unchanged.
pub open spec fn synced_record(r: OrderRecord, book: OrderBook) -> OrderRecord {
    if r.resting && r.order.0.symbol@ == book.symbol@ {
        match book_filled(book, r.order.0.bid_or_ask, r.order.0.id@) {
            Some(f) => filled_record(r, f),
            None => OrderRecord { order: with_filled(r.order, r.order.0.size), bracket: r.bracket, resting: false },
        }
    } else {
        r
    }
}

/// The records after the order with handle `h` has traded `traded` shares on
/// `book`: its filled size grows by `traded`, and it rests when `may_rest` and
/// something of it remains; every other record is brought in line with the book
/// (see `synced_record`).
pub open spec fn placed(before: Seq<OrderRecord>, h: int, traded: nat, may_rest: bool, book: OrderBook, after: Seq<OrderRecord>) -> bool {
    let o = before[h].order;
    let f = o.0.filled_size + traded;
    &&& after.len() == before.len()
    &&& after[h] == (OrderRecord {
        order: with_filled(o, f as u64),
        bracket: before[h].bracket,
        resting: may_rest && f < o.0.size,
    })
    &&& forall|i: int| 0 <= i < before.len() && i != h ==> #[trigger] after[i] == synced_record(before[i], book)
}

proof fn lemma_find_present(q: Seq<Order>, k: int)
    requires
        0 <= k < q.len(),
    ensures
        find_filled(q, q[k].0.id@) is Some,
    decreases q.len(),
{
    if q[0].0.id@ != q[k].0.id@ {
        assert(q.drop_first()[k - 1] == q[k]);
        lemma_find_present(q.drop_first(), k - 1);
    }
}

/// A resting order leaves the queue only by being filled for all it had
/// remaining: when, after matching, no order is left with the id of the `k`-th
/// resting order, the `k`-th execution was against that order and took its whole
/// remaining quantity. This is what a record that a book no longer holds is
/// brought in line with (see `synced_record`).
pub proof fn lemma_leaving_order_was_filled(queue: Seq<Order>, want: nat, side: BidOrAsk, limit: Option<Price>, k: int)
    requires
        0 <= k < queue.len(),
        find_filled(match_queue(queue, want, side, limit).1, queue[k].0.id@) is None,
    ensures
        k < match_queue(queue, want, side, limit).0.len(),
        match_queue(queue, want, side, limit).0[k].quantity == queue[k].remaining(),
    decreases queue.len(),
{
    if want == 0 || queue.len() == 0 || !crosses(side, limit, resting_price(queue[0])) {
        lemma_find_present(queue, k);
    } else {
        let r = queue[0].remaining();
        let q: nat = if want <= r {
            want
        } else {
            r as nat
        };
        if q == r {
            if k > 0 {
                let sub = match_queue(queue.drop_first(), (want - q) as nat, side, limit);
                assert(queue.drop_first()[k - 1] == queue[k]);
                lemma_leaving_order_was_filled(queue.drop_first(), (want - q) as nat, side, limit, k - 1);
                let f = Fill { price: resting_price(queue[0]), quantity: q as u64, resting_acc_no: queue[0].0.acc_no };
                assert((seq![f] + sub.0)[k] == sub.0[k - 1]);
            }
        } else {
            let rest = queue.update(0, queue[0].filled_by(q));
            assert(rest[k].0.id@ == queue[k].0.id@);
            lemma_find_present(rest, k);
        }
    }
}

proof fn lemma_find_append(a: Seq<Order>, b: Seq<Order>, id: Seq<char>)
    ensures
        find_filled(a + b, id) == (match find_filled(a, id) {
            Some(f) => Some(f),
            None => find_filled(b, id),
        }),
    decreases a.len(),
{
    if a.len() == 0 {
        assert(a + b =~= b);
    } else {
        assert((a + b)[0] == a[0]);
        assert((a + b).drop_first() =~= a.drop_first() + b);
        lemma_find_append(a.drop_first(), b, id);
    }
}

proof fn lemma_queue_of_prefix(levels: Seq<PriceLevel>, i: int)
    requires
        0 < i <= levels.len(),
    ensures
        queue_of(levels.subrange(0, i)) == levels[i - 1].orders@ + queue_of(levels.subrange(0, i - 1)),
{
    let s = levels.subrange(0, i);
    assert(s.last() == levels[i - 1]);
    assert(s.drop_last() =~= levels.subrange(0, i - 1));
}

fn find_in_levels(levels: &Vec<PriceLevel>, id: &String) -> (r: Option<u64>)
    ensures
        r == find_filled(queue_of(levels@), id@),
{
    let mut i = levels.len();
    proof {
        assert(levels@.subrange(0, i as int) =~= levels@);
    }
    while i > 0
        invariant
            i <= levels@.len(),
            find_filled(queue_of(levels@), id@) == find_filled(queue_of(levels@.subrange(0, i as int)), id@),
        decreases i,
    {
        let level = &levels[i - 1];
        let n = level.orders.len();
        let mut k: usize = 0;
        proof {
            assert(level.orders@.subrange(0, n as int) =~= level.orders@);
            lemma_queue_of_prefix(levels@, i as int);
            lemma_find_append(level.orders@, queue_of(levels@.subrange(0, i - 1)), id@);
        }
        while k < n
            invariant
                0 < i <= levels@.len(),
                *level == levels@[i - 1],
                n == level.orders@.len(),
                k <= n,
                find_filled(level.orders@, id@) == find_filled(level.orders@.subrange(k as int, n as int), id@),
                find_filled(queue_of(levels@), id@) == (match find_filled(level.orders@, id@) {
                    Some(f) => Some(f),
                    None => find_filled(queue_of(levels@.subrange(0, i - 1)), id@),
                }),
            decreases n - k,
        {
            let ghost sub = level.orders@.subrange(k as int, n as int);
            proof {
                assert(sub[0] == level.orders@[k as int]);
                assert(sub.drop_first() =~= level.orders@.subrange(k + 1, n as int));
            }
            if level.orders[k].0.id == *id {
                return Some(level.orders[k].0.filled_size);
            }
            k = k + 1;
        }
        proof {
            assert(level.orders@.subrange(n as int, n as int) =~= Seq::<Order>::empty());
        }
        i = i - 1;
    }
    proof {
        assert(levels@.subrange(0, 0) =~= Seq::<PriceLevel>::empty());
    }
    None
}

/// The filled size that `book` holds for the order with id `id` resting on `side`.
pub fn book_filled_size(book: &OrderBook, side: BidOrAsk, id: &String) -> (r: Option<u64>)
    ensures
        r == book_filled(*book, side, id@),
{
    match side {
        BidOrAsk::Bid => find_in_levels(&book.bids, id),
        BidOrAsk::Ask => find_in_levels(&book.asks, id),
    }
}

impl OrderRegistry {
    fn settle(&mut self, book: &OrderBook, h: usize, traded: u64, may_rest: bool)
        requires
            old(self).wf(),
            h < old(self).records@.len(),
            old(self).records@[h as int].order.0.filled_size + traded <= u64::MAX,
        ensures
            final(self).wf(),
            final(self).brackets@ == old(self).brackets@,
            placed(old(self).records@, h as int, traded as nat, may_rest, *book, final(self).records@),
    {
        let ghost recs0 = self.records@;
        let ghost brs0 = self.brackets@;
        let mut rec = self.records[h].duplicate();
        rec.order.0.filled_size = rec.order.0.filled_size + traded;
        rec.resting = may_rest && rec.order.0.filled_size < rec.order.0.size;
        let ghost rec_h = rec;
        self.records.set(h, rec);
        let n = self.records.len();
        let mut i: usize = 0;
        while i < n
            invariant
                n == self.records@.len(),
                n == recs0.len(),
                h < n,
                i <= n,
                self.records@[h as int] == rec_h,
                self.brackets@ == brs0,
                registry_wf(recs0, brs0),
                same_shape(recs0, self.records@),
                forall|j: int| 0 <= j < i && j != h ==> #[trigger] self.records@[j] == synced_record(recs0[j], *book),
                forall|j: int| i <= j < n && j != h ==> #[trigger] self.records@[j] == recs0[j],
            decreases n - i,
        {
            if i != h {
                let rr = &self.records[i];
                if rr.resting && rr.order.0.symbol == book.symbol {
                    let found = book_filled_size(book, rr.order.0.bid_or_ask, &rr.order.0.id);
                    let mut nr = rr.duplicate();
                    match found {
                        Some(f) => {
                            nr.order.0.filled_size = f;
                        },
                        None => {
                            nr.order.0.filled_size = nr.order.0.size;
                            nr.resting = false;
                        },
                    }
                    self.records.set(i, nr);
                }
            }
            i = i + 1;
        }
        proof {
            lemma_same_shape_wf(recs0, self.records@, self.brackets@);
        }
    }

    /// Places the order with handle `h` on `book` as a limit order (see
    /// `OrderBook::add_limit_order`). Its record then holds what the book filled
    /// of it, and it rests when something of it remains; every record resting in
    /// the book takes the filled size that the book now holds for it.
    pub fn place_limit(&mut self, book: &mut OrderBook, h: usize) -> (r: Result<(Vec<Trade>, String), String>)
        requires
            old(self).wf(),
            h < old(self).records@.len(),
            !old(self).records@[h as int].resting,
            limit_order_ok(*old(book), old(self).records@[h as int].order),
        ensures
            limit_order_done(*old(book), old(self).records@[h as int].order, *final(book), r),
            placed(
                old(self).records@,
                h as int,
                fills_total(limit_fills(*old(book), old(self).records@[h as int].order)),
                true,
                *final(book),
                final(self).records@,
            ),
            final(self).brackets@ == old(self).brackets@,
            final(self).wf(),
    {
        let o = self.records[h].order.duplicate();
        let ghost o0 = o;
        let ghost book0 = *book;
        proof {
            lemma_fills_bounded(book0, o0);
        }
        let r = book.add_limit_order(o);
        let traded: u64 = match &r {
            Ok((trades, _)) => {
                proof {
                    lemma_trades_total_fills(trades@, limit_fills(book0, o0), book0.symbol, o0.0.acc_no, o0.0.bid_or_ask);
                }
                total_quantity(trades)
            },
            Err(_) => 0,
        };
        self.settle(book, h, traded, true);
        r
    }

    /// Places the order with handle `h` on `book` as a market order (see
    /// `OrderBook::add_market_order`). Its record then holds what the book filled
    /// of it, and it never rests; every record resting in the book takes the
    /// filled size that the book now holds for it.
    pub fn place_market(&mut self, book: &mut OrderBook, h: usize) -> (r: Result<(Vec<Trade>, String), String>)
        requires
            old(self).wf(),
            h < old(self).records@.len(),
            !old(self).records@[h as int].resting,
            market_order_ok(*old(book), old(self).records@[h as int].order),
        ensures
            market_order_done(*old(book), old(self).records@[h as int].order, *final(book), r),
            placed(
                old(self).records@,
                h as int,
                fills_total(market_fills(*old(book), old(self).records@[h as int].order)),
                false,
                *final(book),
                final(self).records@,
            ),
            final(self).brackets@ == old(self).brackets@,
            final(self).wf(),
    {
        let o = self.records[h].order.duplicate();
        let ghost o0 = o;
        let ghost book0 = *book;
        proof {
            lemma_fills_bounded(book0, o0);
        }
        let r = book.add_market_order(o);
        let traded: u64 = match &r {
            Ok((trades, _)) => {
                proof {
                    lemma_trades_total_fills(trades@, market_fills(book0, o0), book0.symbol, o0.0.acc_no, o0.0.bid_or_ask);
                }
                total_quantity(trades)
            },
            Err(_) => 0,
        };
        self.settle(book, h, traded, false);
        r
    }
}

/// Users kept by handle. Each user has one record, so a rename made through one
/// handle is seen through every handle on that user.
#[derive(Debug)]
pub struct UserRegistry {
    pub users: Vec<User>,
}

impl UserRegistry {
    /// A registry with no users.
    pub fn new() -> (r: Self)
        ensures
            r.users@.len() == 0,
    {
        UserRegistry { users: Vec::new() }
    }

    /// Records `user` and gives its handle.
    pub fn add(&mut self, user: User) -> (h: usize)
        ensures
            h == old(self).users@.len(),
            final(self).users@ == old(self).users@.push(user),
    {
        let h = self.users.len();
        self.users.push(user);
        h
    }

    /// Renames the user with handle `h`; its id and every other user are kept.
    pub fn rename(&mut self, h: usize, new_name: String)
        requires
            h < old(self).users@.len(),
        ensures
            final(self).users@ == old(self).users@.update(
                h as int,
                User(UserInner { id: old(self).users@[h as int].0.id, name: new_name }),
            ),
    {
        let id = self.users[h].0.id.clone();
        self.users.set(h, User(UserInner { id, name: new_name }));
    }

    /// The name of the user with handle `h`.
    pub fn name(&self, h: usize) -> (r: String)
        requires
            h < self.users@.len(),
        ensures
            r == self.users@[h as int].0.name,
    {
        self.users[h].0.name.clone()
    }

    /// The id of the user with handle `h`.
    pub fn id(&self, h: usize) -> (r: String)
        requires
            h < self.users@.len(),
        ensures
            r == self.users@[h as int].0.id,
    {
        self.users[h].0.id.clone()
    }
}

/// While the parent of a bracket is not complete, neither of its exit orders may trade.
pub proof fn lemma_exits_wait_for_parent(recs: Seq<OrderRecord>, brs: Seq<BracketRecord>, b: int)
    requires
        registry_wf(recs, brs),
        0 <= b < brs.len(),
        !complete(recs[brs[b].parent as int].order),
    ensures
        brs[b].stop_loss matches Some(s) ==> !order_active(recs, brs, s as int),
        brs[b].target matches Some(t) ==> !order_active(recs, brs, t as int),
{
    assert(bracket_wf(recs, brs[b], b));
}

/// Filling the parent of a bracket until it is complete makes the parent's
/// exit orders active at once, unless the bracket was already over: the exits
/// read the parent's one record, whichever handle the fill was made through.
pub proof fn lemma_parent_fill_activates_exits(recs: Seq<OrderRecord>, brs: Seq<BracketRecord>, b: int, qty: nat)
    requires
        registry_wf(recs, brs),
        0 <= b < brs.len(),
        !bracket_over(recs, brs[b]),
        recs[brs[b].parent as int].order.0.filled_size + qty >= recs[brs[b].parent as int].order.0.size,
        recs[brs[b].parent as int].order.0.filled_size + qty <= u64::MAX,
    ensures
        order_active(fill_records(recs, brs[b].parent as int, qty), brs, brs[b].parent as int),
        brs[b].stop_loss matches Some(s) ==> order_active(fill_records(recs, brs[b].parent as int, qty), brs, s as int),
        brs[b].target matches Some(t) ==> order_active(fill_records(recs, brs[b].parent as int, qty), brs, t as int),
{
    assert(bracket_wf(recs, brs[b], b));
    let p = brs[b].parent as int;
    let recs2 = fill_records(recs, p, qty);
    if let Some(s) = brs[b].stop_loss {
        assert(s as int != p);
        assert(recs2[s as int] == recs[s as int]);
    }
    if let Some(t) = brs[b].target {
        assert(t as int != p);
        assert(recs2[t as int] == recs[t as int]);
    }
}

/// When an exit order of a bracket becomes complete, no order of that bracket may
/// trade any more: the parent, the exit itself and its sibling (one cancels the
/// other).
pub proof fn lemma_exit_fill_ends_bracket(recs: Seq<OrderRecord>, brs: Seq<BracketRecord>, b: int, e: int, qty: nat, y: int)
    requires
        registry_wf(recs, brs),
        0 <= b < brs.len(),
        0 <= e < recs.len(),
        brs[b].stop_loss == Some(e as usize) || brs[b].target == Some(e as usize),
        recs[e].order.0.filled_size + qty >= recs[e].order.0.size,
        recs[e].order.0.filled_size + qty <= u64::MAX,
        0 <= y < recs.len(),
        recs[y].bracket == Some(b as usize),
    ensures
        !order_active(fill_records(recs, e, qty), brs, y),
{
    assert(bracket_wf(recs, brs[b], b));
    let recs2 = fill_records(recs, e, qty);
    assert(recs2[e] == filled_record(recs[e], (recs[e].order.0.filled_size + qty) as u64));
    assert(bracket_over(recs2, brs[b]));
}

/// Cancelling any order of a bracket, parent or exit, ends every order of that
/// bracket, and no later fill of any order brings one back.
pub proof fn lemma_cancel_ends_bracket(recs: Seq<OrderRecord>, brs: Seq<BracketRecord>, x: int, y: int, z: int, qty: nat)
    requires
        registry_wf(recs, brs),
        0 <= x < recs.len(),
        recs[x].bracket is Some,
        0 <= y < recs.len(),
        recs[y].bracket == recs[x].bracket,
        0 <= z < recs.len(),
        recs[z].order.0.filled_size + qty <= u64::MAX,
    ensures
        !order_active(recs, cancel_brackets(recs, brs, x), y),
        !order_active(fill_records(recs, z, qty), cancel_brackets(recs, brs, x), y),
{
    let recs2 = fill_records(recs, z, qty);
    assert(recs2[y].bracket == recs[y].bracket);
    assert(recs2[y].order.0.order_type == recs[y].order.0.order_type);
}

/// Cancelling an order outside a bracket changes nothing.
pub proof fn lemma_cancel_outside_bracket(recs: Seq<OrderRecord>, brs: Seq<BracketRecord>, x: int)
    requires
        0 <= x < recs.len(),
        recs[x].bracket is None,
    ensures
        cancel_brackets(recs, brs, x) == brs,
{
}

/// A fill made through one handle is seen through every handle: after `qty` more
/// of the order with handle `h` is filled, the parent of a bracket still reaches
/// the same exit orders, and the record reached has the new filled size.
pub proof fn lemma_fill_seen_through_family(recs: Seq<OrderRecord>, brs: Seq<BracketRecord>, h: int, qty: nat, p: int)
    requires
        registry_wf(recs, brs),
        0 <= h < recs.len(),
        0 <= p < recs.len(),
        recs[h].order.0.filled_size + qty <= u64::MAX,
    ensures
        stop_loss_of(fill_records(recs, h, qty), brs, p) == stop_loss_of(recs, brs, p),
        target_of(fill_records(recs, h, qty), brs, p) == target_of(recs, brs, p),
        fill_records(recs, h, qty)[h].order.0.filled_size == recs[h].order.0.filled_size + qty,
{
    assert(fill_records(recs, h, qty)[p].bracket == recs[p].bracket);
}

} // verus!
