use vstd::prelude::*;

use crate::clock::system_time_now;
use crate::domain::price::{money_string, money_text, Price};
use crate::rng::random_u64_in;
use crate::text::{decimal_digits, decimal_string, digit_char};

verus! {

/// The side of an order: a bid buys, an ask sells.
#[derive(Debug, Clone, Copy, PartialEq, Eq, Structural, Hash)]
pub enum BidOrAsk {
    Bid,
    Ask,
}

/// How an order was created: a plain limit or market order, or one of the
/// two exit legs of a bracket.
#[derive(Debug, Clone, Copy, PartialEq, Eq, Structural, Hash)]
pub enum OrderType {
    Limit,
    Market,
    StopLoss,
    Target,
}

/// Lifecycle states of an order.
#[derive(Debug, Clone, Copy, PartialEq, Eq, Structural, Hash)]
pub enum OrderStatus {
    New,
    PartiallyFilled,
    Filled,
    Cancelled,
}

/// The opposite side.
pub open spec fn opposite_side(side: BidOrAsk) -> BidOrAsk {
    match side {
        BidOrAsk::Bid => BidOrAsk::Ask,
        BidOrAsk::Ask => BidOrAsk::Bid,
    }
}

/// The text a side is shown as.
pub open spec fn side_text(side: BidOrAsk) -> Seq<char> {
    match side {
        BidOrAsk::Bid => "BID"@,
        BidOrAsk::Ask => "ASK"@,
    }
}

impl BidOrAsk {
    /// "BID" for a bid, "ASK" for an ask.
    pub fn display(&self) -> (s: String)
        ensures
            s@ == side_text(*self),
    {
        match self {
            BidOrAsk::Bid => String::from_str("BID"),
            BidOrAsk::Ask => String::from_str("ASK"),
        }
    }

    /// The opposite side.
    pub fn opposite(&self) -> (s: BidOrAsk)
        ensures
            s == opposite_side(*self),
    {
        match self {
            BidOrAsk::Bid => BidOrAsk::Ask,
            BidOrAsk::Ask => BidOrAsk::Bid,
        }
    }
}

/// The bracket flags that an order value carries: whether the parent has been
/// filled, and whether the bracket has been cancelled. Each order value holds its
/// own copy; the state that the orders of a bracket share once they are recorded
/// is kept in `OrderRegistry`.
#[derive(Debug, Clone, Copy, PartialEq, Eq, Structural)]
pub struct BracketState {
    pub is_parent_filled: bool,
    pub is_bracket_cancelled: bool,
}

impl BracketState {
    /// A bracket whose parent is not filled and which is not cancelled.
    pub fn new() -> (b: Self)
        ensures
            !b.is_parent_filled,
            !b.is_bracket_cancelled,
    {
        Self { is_parent_filled: false, is_bracket_cancelled: false }
    }
}

/// The data of an order.
#[derive(Debug)]
pub struct OrderInner {
    pub id: String,
    pub symbol: String,
    pub price: Option<Price>,
    pub size: u64,
    pub filled_size: u64,
    pub bid_or_ask: BidOrAsk,
    pub order_type: OrderType,
    pub acc_no: String,
    pub timestamp: std::time::SystemTime,
    pub bracket_state: Option<BracketState>,
    pub sl_child: Option<Box<Order>>,
    pub tp_child: Option<Box<Order>>,
}

/// An order value. A parent order of a bracket carries its stop-loss and target
/// exit orders, and each of the three carries its own copy of the bracket flags.
/// Values are copied, not shared: where several holders must see one order's
/// fills, the order is recorded in an `OrderRegistry` and passed by handle.
#[derive(Debug)]
pub struct Order(pub OrderInner);

/// The first number that an order id is drawn from.
pub open spec fn min_order_id() -> nat {
    1000_0000_0000_0000
}

/// The last number that an order id is drawn from.
pub open spec fn max_order_id() -> nat {
    9999_9999_9999_9999
}

/// `s` is the decimal form of a number drawn for an order id: sixteen digits.
pub open spec fn is_order_id(s: Seq<char>) -> bool {
    exists|n: nat| min_order_id() <= n <= max_order_id() && s == decimal_digits(n)
}

impl Order {
    /// Size minus filled size.
    pub open spec fn remaining(self) -> int {
        self.0.size - self.0.filled_size
    }

    /// The order is filled when its filled size reaches its size.
    pub open spec fn spec_is_filled(self) -> bool {
        self.0.filled_size >= self.0.size
    }

    /// This order with its own copy of the bracket state replaced.
    pub open spec fn with_bracket(self, b: Option<BracketState>) -> Order {
        Order(OrderInner { bracket_state: b, ..self.0 })
    }

    /// This order with the exit orders it carries holding its bracket state.
    pub open spec fn synced(self) -> Order {
        Order(
            OrderInner {
                sl_child: match self.0.sl_child {
                    Some(c) => Some(Box::new((*c).with_bracket(self.0.bracket_state))),
                    None => None,
                },
                tp_child: match self.0.tp_child {
                    Some(c) => Some(Box::new((*c).with_bracket(self.0.bracket_state))),
                    None => None,
                },
                ..self.0
            },
        )
    }

    /// The order is one of the two exit legs of a bracket.
    pub open spec fn is_exit(self) -> bool {
        self.0.order_type == OrderType::StopLoss || self.0.order_type == OrderType::Target
    }

    /// The order value after `qty` more of it is filled: when it becomes filled
    /// and carries bracket flags, they record that the parent is filled and, when
    /// it is an exit order, that the bracket is done, which deactivates every
    /// order holding those flags (one cancels the other).
    pub open spec fn filled_by(self, qty: nat) -> Order {
        let f = self.0.filled_size + qty;
        let o = Order(OrderInner { filled_size: f as u64, ..self.0 });
        if f >= self.0.size {
            match self.0.bracket_state {
                Some(b) => o.with_bracket(
                    Some(BracketState { is_parent_filled: true, is_bracket_cancelled: b.is_bracket_cancelled || self.is_exit() }),
                ).synced(),
                None => o,
            }
        } else {
            o
        }
    }

    /// The order after its bracket is cancelled; an order outside a bracket is unchanged.
    pub open spec fn cancelled(self) -> Order {
        match self.0.bracket_state {
            Some(b) => self.with_bracket(
                Some(BracketState { is_parent_filled: b.is_parent_filled, is_bracket_cancelled: true }),
            ).synced(),
            None => self,
        }
    }

    /// A limit or market order is active unless its bracket is cancelled; an exit
    /// order is active once its parent is filled, unless the bracket is cancelled.
    pub open spec fn spec_is_active(self) -> bool {
        match self.0.order_type {
            OrderType::Limit | OrderType::Market => match self.0.bracket_state {
                Some(b) => !b.is_bracket_cancelled,
                None => true,
            },
            OrderType::StopLoss | OrderType::Target => match self.0.bracket_state {
                Some(b) => b.is_parent_filled && !b.is_bracket_cancelled,
                None => true,
            },
        }
    }

    /// The order and the exit orders it carries have pairwise different ids.
    pub open spec fn ids_distinct(self) -> bool {
        &&& (self.0.sl_child matches Some(c) ==> c.0.id@ != self.0.id@)
        &&& (self.0.tp_child matches Some(c) ==> c.0.id@ != self.0.id@)
        &&& match (self.0.sl_child, self.0.tp_child) {
            (Some(c), Some(d)) => c.0.id@ != d.0.id@,
            _ => true,
        }
    }

    /// The exit orders carry no exit orders of their own, are of the stop-loss and
    /// target kinds, and hold the same bracket state as the order that carries them.
    pub open spec fn family_wf(self) -> bool {
        &&& (self.0.sl_child matches Some(c) ==> {
            &&& c.0.bracket_state == self.0.bracket_state
            &&& c.0.order_type == OrderType::StopLoss
            &&& c.0.sl_child is None
            &&& c.0.tp_child is None
        })
        &&& (self.0.tp_child matches Some(c) ==> {
            &&& c.0.bracket_state == self.0.bracket_state
            &&& c.0.order_type == OrderType::Target
            &&& c.0.sl_child is None
            &&& c.0.tp_child is None
        })
        &&& (self.0.sl_child is Some || self.0.tp_child is Some ==> self.0.bracket_state is Some)
    }

    /// A copy of this order, equal to it in every field.
    pub fn duplicate(&self) -> (r: Order)
        ensures
            r == *self,
        decreases self,
    {
        let sl_child = match &self.0.sl_child {
            Some(c) => Some(Box::new((**c).duplicate())),
            None => None,
        };
        let tp_child = match &self.0.tp_child {
            Some(c) => Some(Box::new((**c).duplicate())),
            None => None,
        };
        Order(
            OrderInner {
                id: self.0.id.clone(),
                symbol: self.0.symbol.clone(),
                price: self.0.price,
                size: self.0.size,
                filled_size: self.0.filled_size,
                bid_or_ask: self.0.bid_or_ask,
                order_type: self.0.order_type,
                acc_no: self.0.acc_no.clone(),
                timestamp: self.0.timestamp,
                bracket_state: self.0.bracket_state,
                sl_child,
                tp_child,
            },
        )
    }

    fn sync_children(&mut self)
        ensures
            *final(self) == old(self).synced(),
    {
        let b = self.0.bracket_state;
        let sl = self.0.sl_child.take();
        match sl {
            Some(mut c) => {
                c.0.bracket_state = b;
                self.0.sl_child = Some(c);
            },
            None => {},
        }
        let tp = self.0.tp_child.take();
        match tp {
            Some(mut c) => {
                c.0.bracket_state = b;
                self.0.tp_child = Some(c);
            },
            None => {},
        }
    }

    /// A new order without exit orders.
    pub fn new(symbol: String, price: Option<Price>, size: u64, bid_or_ask: BidOrAsk, acc_no: String) -> (o: Self)
        ensures
            built_from(o, OrderBuilder { symbol, price, size, bid_or_ask, acc_no, stop_loss: None, target: None }),
    {
        OrderBuilder::new(symbol, price, size, bid_or_ask, acc_no).build()
    }

    /// A builder for an order with optional stop-loss and target exit orders.
    pub fn builder(symbol: String, price: Option<Price>, size: u64, bid_or_ask: BidOrAsk, acc_no: String) -> (b: OrderBuilder)
        ensures
            b == (OrderBuilder { symbol, price, size, bid_or_ask, acc_no, stop_loss: None, target: None }),
    {
        OrderBuilder::new(symbol, price, size, bid_or_ask, acc_no)
    }

    /// Fills `qty` more of this order value. When that fills it and it carries
    /// bracket flags, they record that the parent is filled and, for an exit order,
    /// that the bracket is done; the exit orders that this value carries take the
    /// new flags (see `filled_by`). Other copies are not changed:
    /// `OrderRegistry::fill` changes the one record that every handle reads.
    pub fn fill(&mut self, qty: u64)
        requires
            old(self).0.filled_size + qty <= u64::MAX,
        ensures
            *final(self) == old(self).filled_by(qty as nat),
    {
        self.0.filled_size = self.0.filled_size + qty;
        if self.0.filled_size >= self.0.size {
            match self.0.bracket_state {
                Some(b) => {
                    let exit = match self.0.order_type {
                        OrderType::StopLoss | OrderType::Target => true,
                        OrderType::Limit | OrderType::Market => false,
                    };
                    self.0.bracket_state = Some(
                        BracketState { is_parent_filled: true, is_bracket_cancelled: b.is_bracket_cancelled || exit },
                    );
                    self.sync_children();
                },
                None => {},
            }
        }
    }

    /// Marks the bracket flags of this value, and of the exit orders it carries,
    /// as cancelled. Other copies are not changed: `OrderRegistry::cancel` ends
    /// the bracket for every handle.
    pub fn cancel(&mut self)
        ensures
            *final(self) == old(self).cancelled(),
    {
        match self.0.bracket_state {
            Some(b) => {
                self.0.bracket_state = Some(
                    BracketState { is_parent_filled: b.is_parent_filled, is_bracket_cancelled: true },
                );
                self.sync_children();
            },
            None => {},
        }
    }

    /// Whether the order may currently trade (see `spec_is_active`).
    pub fn is_active(&self) -> (r: bool)
        ensures
            r == self.spec_is_active(),
    {
        match self.0.order_type {
            OrderType::Limit | OrderType::Market => match self.0.bracket_state {
                Some(b) => !b.is_bracket_cancelled,
                None => true,
            },
            OrderType::StopLoss | OrderType::Target => match self.0.bracket_state {
                Some(b) => b.is_parent_filled && !b.is_bracket_cancelled,
                None => true,
            },
        }
    }

    pub fn id(&self) -> (r: String)
        ensures
            r == self.0.id,
    {
        self.0.id.clone()
    }

    pub fn symbol(&self) -> (r: String)
        ensures
            r == self.0.symbol,
    {
        self.0.symbol.clone()
    }

    pub fn price(&self) -> (r: Option<Price>)
        ensures
            r == self.0.price,
    {
        self.0.price
    }

    pub fn size(&self) -> (r: u64)
        ensures
            r == self.0.size,
    {
        self.0.size
    }

    pub fn filled_size(&self) -> (r: u64)
        ensures
            r == self.0.filled_size,
    {
        self.0.filled_size
    }

    /// Size minus filled size; the subtraction needs the filled size not to exceed the size.
    pub fn remaining_size(&self) -> (r: u64)
        requires
            self.0.filled_size <= self.0.size,
        ensures
            r == self.remaining(),
    {
        self.0.size - self.0.filled_size
    }

    pub fn is_filled(&self) -> (r: bool)
        ensures
            r == self.spec_is_filled(),
    {
        self.0.filled_size >= self.0.size
    }

    pub fn bid_or_ask(&self) -> (r: BidOrAsk)
        ensures
            r == self.0.bid_or_ask,
    {
        self.0.bid_or_ask
    }

    pub fn acc_no(&self) -> (r: String)
        ensures
            r == self.0.acc_no,
    {
        self.0.acc_no.clone()
    }

    /// A copy of the stop-loss exit order that this value carries, if there is one;
    /// a fill made on the copy is not seen here. `OrderRegistry::sl_child` gives the
    /// handle of the one record that every holder reads.
    pub fn sl_child(&self) -> (r: Option<Order>)
        ensures
            match self.0.sl_child {
                Some(c) => r == Some(*c),
                None => r is None,
            },
    {
        match &self.0.sl_child {
            Some(c) => Some((**c).duplicate()),
            None => None,
        }
    }

    /// A copy of the target exit order that this value carries, if there is one;
    /// a fill made on the copy is not seen here. `OrderRegistry::tp_child` gives the
    /// handle of the one record that every holder reads.
    pub fn tp_child(&self) -> (r: Option<Order>)
        ensures
            match self.0.tp_child {
                Some(c) => r == Some(*c),
                None => r is None,
            },
    {
        match &self.0.tp_child {
            Some(c) => Some((**c).duplicate()),
            None => None,
        }
    }
}

/// The name an order type is shown by.
pub open spec fn order_type_text(t: OrderType) -> Seq<char> {
    match t {
        OrderType::Limit => "Limit"@,
        OrderType::Market => "Market"@,
        OrderType::StopLoss => "StopLoss"@,
        OrderType::Target => "Target"@,
    }
}

impl OrderType {
    /// The name of the order type, such as "StopLoss".
    pub fn display(&self) -> (s: String)
        ensures
            s@ == order_type_text(*self),
    {
        match self {
            OrderType::Limit => String::from_str("Limit"),
            OrderType::Market => String::from_str("Market"),
            OrderType::StopLoss => String::from_str("StopLoss"),
            OrderType::Target => String::from_str("Target"),
        }
    }
}

/// The text of an order: symbol, account, type, side, size, limit price
/// (or "MARKET") and how much of it has been filled.
pub open spec fn order_text(o: Order) -> Seq<char> {
    let price = match o.0.price {
        Some(p) => money_text(p.paisa as nat),
        None => "MARKET"@,
    };
    "["@ + o.0.symbol@ + "] Acc: "@ + o.0.acc_no@ + " | "@ + order_type_text(o.0.order_type) + " "@
        + side_text(o.0.bid_or_ask) + " "@ + decimal_digits(o.0.size as nat) + " @ "@ + price + " (Filled: "@
        + decimal_digits(o.0.filled_size as nat) + "/"@ + decimal_digits(o.0.size as nat) + ")"@
}

impl Order {
    /// The order as text (see `order_text`), such as
    /// `[TCS] Acc: 101 | Limit BID 10 @ ₹150.00 (Filled: 0/10)`.
    pub fn display(&self) -> (s: String)
        ensures
            s@ == order_text(*self),
    {
        let price = match self.0.price {
            Some(p) => money_string(p.paisa),
            None => String::from_str("MARKET"),
        };
        let mut s = String::from_str("[");
        s.append(self.0.symbol.as_str());
        s.append("] Acc: ");
        s.append(self.0.acc_no.as_str());
        s.append(" | ");
        let kind = self.0.order_type.display();
        s.append(kind.as_str());
        s.append(" ");
        let side = self.0.bid_or_ask.display();
        s.append(side.as_str());
        s.append(" ");
        let size = decimal_string(self.0.size);
        s.append(size.as_str());
        s.append(" @ ");
        s.append(price.as_str());
        s.append(" (Filled: ");
        let filled = decimal_string(self.0.filled_size);
        s.append(filled.as_str());
        s.append("/");
        s.append(size.as_str());
        s.append(")");
        proof {
            reveal_strlit("MARKET");
            reveal_strlit("[");
            reveal_strlit("] Acc: ");
            reveal_strlit(" | ");
            reveal_strlit(" ");
            reveal_strlit(" @ ");
            reveal_strlit(" (Filled: ");
            reveal_strlit("/");
            reveal_strlit(")");
        }
        s
    }
}

impl Clone for Order {
    /// A copy equal to this value in every field; later changes to one copy are
    /// not seen in the other.
    fn clone(&self) -> (r: Self)
        ensures
            r == *self,
    {
        self.duplicate()
    }
}

/// The parameters of an order to be built, with optional bracket exit prices.
#[derive(Debug, Clone)]
pub struct OrderBuilder {
    pub symbol: String,
    pub price: Option<Price>,
    pub size: u64,
    pub bid_or_ask: BidOrAsk,
    pub acc_no: String,
    pub stop_loss: Option<Price>,
    pub target: Option<Price>,
}

/// `c` is the exit order of kind `kind` at `exit_price` that `b` builds, holding bracket state `bs`.
pub open spec fn built_exit(c: Order, b: OrderBuilder, exit_price: Price, kind: OrderType, bs: Option<BracketState>) -> bool {
    &&& is_order_id(c.0.id@)
    &&& c.0.symbol == b.symbol
    &&& c.0.price == Some(exit_price)
    &&& c.0.size == b.size
    &&& c.0.filled_size == 0
    &&& c.0.bid_or_ask == opposite_side(b.bid_or_ask)
    &&& c.0.order_type == kind
    &&& c.0.acc_no == b.acc_no
    &&& c.0.bracket_state == bs
    &&& c.0.sl_child is None
    &&& c.0.tp_child is None
}

/// `o` is the order that `b` builds: a limit-type parent with a fresh id, nothing
/// filled, a bracket state exactly when an exit price is given, and one exit order
/// on the opposite side for each exit price given.
pub open spec fn built_from(o: Order, b: OrderBuilder) -> bool {
    let bs = if b.stop_loss is Some || b.target is Some {
        Some(BracketState { is_parent_filled: false, is_bracket_cancelled: false })
    } else {
        None
    };
    &&& is_order_id(o.0.id@)
    &&& o.0.symbol == b.symbol
    &&& o.0.price == b.price
    &&& o.0.size == b.size
    &&& o.0.filled_size == 0
    &&& o.0.bid_or_ask == b.bid_or_ask
    &&& o.0.order_type == OrderType::Limit
    &&& o.0.acc_no == b.acc_no
    &&& o.0.bracket_state == bs
    &&& match b.stop_loss {
        Some(p) => o.0.sl_child matches Some(c) && built_exit(*c, b, p, OrderType::StopLoss, bs),
        None => o.0.sl_child is None,
    }
    &&& match b.target {
        Some(p) => o.0.tp_child matches Some(c) && built_exit(*c, b, p, OrderType::Target, bs),
        None => o.0.tp_child is None,
    }
}

/// The number after `n` among the numbers order ids are drawn from, wrapping
/// from the last to the first.
pub open spec fn next_order_number(n: u64) -> u64 {
    if n >= 9999_9999_9999_9999 {
        1000_0000_0000_0000
    } else {
        (n + 1) as u64
    }
}

fn following_order_number(n: u64) -> (r: u64)
    ensures
        r == next_order_number(n),
{
    if n >= 9999_9999_9999_9999 {
        1000_0000_0000_0000
    } else {
        n + 1
    }
}

fn order_id_text(n: u64) -> (s: String)
    requires
        min_order_id() <= n <= max_order_id(),
    ensures
        is_order_id(s@),
        s@ == decimal_digits(n as nat),
{
    let s = decimal_string(n);
    assert(min_order_id() <= n as nat <= max_order_id() && s@ == decimal_digits(n as nat));
    s
}

proof fn lemma_decimal_digits_nonempty(n: nat)
    ensures
        decimal_digits(n).len() >= 1,
        n >= 10 ==> decimal_digits(n).len() >= 2,
    decreases n,
{
    if n >= 10 {
        lemma_decimal_digits_nonempty(n / 10);
    }
}

/// Different numbers have different decimal representations.
proof fn lemma_decimal_digits_injective(a: nat, b: nat)
    requires
        decimal_digits(a) == decimal_digits(b),
    ensures
        a == b,
    decreases a,
{
    lemma_decimal_digits_nonempty(a);
    lemma_decimal_digits_nonempty(b);
    if a < 10 && b < 10 {
        assert(decimal_digits(a)[0] == digit_char(a));
        assert(decimal_digits(b)[0] == digit_char(b));
    } else if a >= 10 && b >= 10 {
        let da = decimal_digits(a);
        let db = decimal_digits(b);
        assert(da.last() == digit_char(a % 10));
        assert(db.last() == digit_char(b % 10));
        assert(da.drop_last() =~= decimal_digits(a / 10));
        assert(db.drop_last() =~= decimal_digits(b / 10));
        lemma_decimal_digits_injective(a / 10, b / 10);
    }
}

impl OrderBuilder {
    pub fn new(symbol: String, price: Option<Price>, size: u64, bid_or_ask: BidOrAsk, acc_no: String) -> (b: Self)
        ensures
            b == (OrderBuilder { symbol, price, size, bid_or_ask, acc_no, stop_loss: None, target: None }),
    {
        Self { symbol, price, size, bid_or_ask, acc_no, stop_loss: None, target: None }
    }

    /// The same parameters with a stop-loss exit at `sl`.
    pub fn stop_loss(self, sl: Price) -> (b: Self)
        ensures
            b == (OrderBuilder { stop_loss: Some(sl), ..self }),
    {
        let mut b = self;
        b.stop_loss = Some(sl);
        b
    }

    /// The same parameters with a target exit at `tp`.
    pub fn target(self, tp: Price) -> (b: Self)
        ensures
            b == (OrderBuilder { target: Some(tp), ..self }),
    {
        let mut b = self;
        b.target = Some(tp);
        b
    }

    /// Builds the parent order and its exit orders, each with a fresh random
    /// sixteen-digit id.
    pub fn build(self) -> (o: Order)
        ensures
            built_from(o, self),
            o.family_wf(),
            o.ids_distinct(),
    {
        let n1 = random_u64_in(1000_0000_0000_0000u64, 9999_9999_9999_9999u64);
        let mut n2 = random_u64_in(1000_0000_0000_0000u64, 9999_9999_9999_9999u64);
        if n2 == n1 {
            n2 = following_order_number(n2);
        }
        let mut n3 = random_u64_in(1000_0000_0000_0000u64, 9999_9999_9999_9999u64);
        if n3 == n1 || n3 == n2 {
            n3 = following_order_number(n3);
        }
        if n3 == n1 || n3 == n2 {
            n3 = following_order_number(n3);
        }
        assert(n1 != n2);
        assert(n3 != n1 && n3 != n2);
        let parent_id = order_id_text(n1);
        let sl_id = order_id_text(n2);
        let tp_id = order_id_text(n3);
        proof {
            if parent_id@ == sl_id@ {
                lemma_decimal_digits_injective(n1 as nat, n2 as nat);
            }
            if parent_id@ == tp_id@ {
                lemma_decimal_digits_injective(n1 as nat, n3 as nat);
            }
            if sl_id@ == tp_id@ {
                lemma_decimal_digits_injective(n2 as nat, n3 as nat);
            }
        }
        assert(parent_id@ != sl_id@ && parent_id@ != tp_id@ && sl_id@ != tp_id@);
        let ghost ids = (parent_id@, sl_id@, tp_id@);
        let has_bracket = self.stop_loss.is_some() || self.target.is_some();
        let bracket_state = if has_bracket {
            Some(BracketState::new())
        } else {
            None
        };
        let exit_side = self.bid_or_ask.opposite();
        let sl_child = match self.stop_loss {
            Some(sl_price) => Some(
                Box::new(
                    Order(
                        OrderInner {
                            id: sl_id,
                            symbol: self.symbol.clone(),
                            price: Some(sl_price),
                            size: self.size,
                            filled_size: 0,
                            bid_or_ask: exit_side,
                            order_type: OrderType::StopLoss,
                            acc_no: self.acc_no.clone(),
                            timestamp: system_time_now(),
                            bracket_state,
                            sl_child: None,
                            tp_child: None,
                        },
                    ),
                ),
            ),
            None => None,
        };
        let tp_child = match self.target {
            Some(tp_price) => Some(
                Box::new(
                    Order(
                        OrderInner {
                            id: tp_id,
                            symbol: self.symbol.clone(),
                            price: Some(tp_price),
                            size: self.size,
                            filled_size: 0,
                            bid_or_ask: exit_side,
                            order_type: OrderType::Target,
                            acc_no: self.acc_no.clone(),
                            timestamp: system_time_now(),
                            bracket_state,
                            sl_child: None,
                            tp_child: None,
                        },
                    ),
                ),
            ),
            None => None,
        };
        let ghost b = self;
        let o = Order(
            OrderInner {
                id: parent_id,
                symbol: self.symbol,
                price: self.price,
                size: self.size,
                filled_size: 0,
                bid_or_ask: self.bid_or_ask,
                order_type: OrderType::Limit,
                acc_no: self.acc_no,
                timestamp: system_time_now(),
                bracket_state,
                sl_child,
                tp_child,
            },
        );
        assert(built_from(o, b));
        assert(o.0.id@ == ids.0);
        assert(o.0.sl_child matches Some(c) ==> c.0.id@ == ids.1);
        assert(o.0.tp_child matches Some(c) ==> c.0.id@ == ids.2);
        assert(o.ids_distinct());
        o
    }
}

/// While the parent of a bracket is not filled, neither of its exit orders is active.
pub proof fn lemma_exits_inactive_until_parent_filled(o: Order)
    requires
        o.family_wf(),
        o.0.bracket_state matches Some(b) && !b.is_parent_filled,
    ensures
        o.0.sl_child matches Some(c) ==> !c.spec_is_active(),
        o.0.tp_child matches Some(c) ==> !c.spec_is_active(),
{
}

/// Filling a bracket's parent activates its exit orders at once, unless the
/// bracket was cancelled; the family stays well formed.
pub proof fn lemma_exits_activate_on_parent_fill(o: Order, qty: nat)
    requires
        !o.is_exit(),
        o.family_wf(),
        o.0.bracket_state matches Some(b) && !b.is_bracket_cancelled,
        o.0.filled_size + qty >= o.0.size,
        o.0.filled_size + qty <= u64::MAX,
    ensures
        o.filled_by(qty).family_wf(),
        o.filled_by(qty).0.sl_child matches Some(c) ==> c.spec_is_active(),
        o.filled_by(qty).0.tp_child matches Some(c) ==> c.spec_is_active(),
{
}

/// Cancelling a bracket deactivates the parent and both exit orders at once
/// (one cancels the other); the family stays well formed.
pub proof fn lemma_cancel_deactivates_bracket(o: Order)
    requires
        o.family_wf(),
        o.0.bracket_state is Some,
    ensures
        o.cancelled().family_wf(),
        !o.cancelled().spec_is_active(),
        o.cancelled().0.sl_child matches Some(c) ==> !c.spec_is_active(),
        o.cancelled().0.tp_child matches Some(c) ==> !c.spec_is_active(),
{
}

/// Cancelling any order of a bracket, parent or exit, records the bracket as
/// cancelled in the state it carries: every order holding that state no longer
/// trades, and filling any of them later does not bring it back.
pub proof fn lemma_cancel_ends_family(x: Order, t: Order, qty: nat)
    requires
        x.0.bracket_state is Some,
        t.0.bracket_state == x.cancelled().0.bracket_state,
        t.0.filled_size + qty <= u64::MAX,
    ensures
        !x.cancelled().spec_is_active(),
        !t.spec_is_active(),
        !t.filled_by(qty).spec_is_active(),
{
}

/// When an exit order fills, the bracket state it carries records the bracket as
/// done: the exit itself and every order holding that state, its sibling exit
/// included, no longer trade (one cancels the other).
pub proof fn lemma_exit_fill_cancels_sibling(e: Order, qty: nat, t: Order)
    requires
        e.is_exit(),
        e.0.bracket_state is Some,
        e.0.filled_size + qty >= e.0.size,
        e.0.filled_size + qty <= u64::MAX,
        t.0.bracket_state == e.filled_by(qty).0.bracket_state,
    ensures
        !e.filled_by(qty).spec_is_active(),
        !t.spec_is_active(),
{
}

/// Filling an order in two steps gives the same order as filling it in one.
pub proof fn lemma_fill_twice(o: Order, a: nat, b: nat)
    requires
        o.0.filled_size + a + b <= u64::MAX,
    ensures
        o.filled_by(a).filled_by(b) == o.filled_by(a + b),
{
}

} // verus!
