use vstd::prelude::*;

use crate::clock::system_time_now;
use crate::domain::holding::Holding;
use crate::domain::market::{ticker_not_found, Market};
use crate::domain::order::{BidOrAsk, Order};
use crate::domain::orderbook::{applied, fills_total, lemma_fills_bounded, lemma_trades_total_fills, limit_fills, limit_order_done, limit_order_ok, market_fills, market_order_done, market_order_ok, OrderBook};
use crate::domain::price::{money_string, money_text, Price};
use crate::domain::registry::{book_filled, book_filled_size, with_filled};
use crate::domain::trade::{total_quantity, trades_total, Trade};
use crate::domain::user::User;
use crate::text::{concat, decimal_digits, decimal_string};

verus! {

/// The orders a portfolio has placed and not yet seen filled, for one symbol.
#[derive(Debug)]
pub struct OpenOrders {
    pub symbol: String,
    pub orders: Vec<Order>,
}

/// The lots a portfolio holds of one symbol, oldest first.
#[derive(Debug)]
pub struct HoldingList {
    pub symbol: String,
    pub lots: Vec<Holding>,
}

/// A trading account: cash in paisa, open orders and holdings by symbol.
#[derive(Debug)]
pub struct Portfolio {
    pub user: User,
    pub acc_no: String,
    pub balance_paisa: u64,
    pub open_orders: Vec<OpenOrders>,
    pub holdings: Vec<HoldingList>,
}

/// The position of the first key equal to `sym`, or -1 when there is none.
pub open spec fn first_index(keys: Seq<Seq<char>>, sym: Seq<char>) -> int
    decreases keys.len(),
{
    if keys.len() == 0 {
        -1
    } else if keys[0] == sym {
        0
    } else {
        let r = first_index(keys.drop_first(), sym);
        if r < 0 {
            -1
        } else {
            r + 1
        }
    }
}

pub proof fn lemma_first_index(keys: Seq<Seq<char>>, sym: Seq<char>)
    ensures
        -1 <= first_index(keys, sym) < keys.len(),
        first_index(keys, sym) >= 0 ==> keys[first_index(keys, sym)] == sym,
        forall|k: int| 0 <= k < keys.len() && (first_index(keys, sym) < 0 || k < first_index(keys, sym)) ==> keys[k] != sym,
    decreases keys.len(),
{
    if keys.len() > 0 && keys[0] != sym {
        lemma_first_index(keys.drop_first(), sym);
        assert forall|k: int| 0 <= k < keys.len() && (first_index(keys, sym) < 0 || k < first_index(keys, sym)) implies keys[k] != sym by {
            if k > 0 {
                assert(keys[k] == keys.drop_first()[k - 1]);
            }
        }
    }
}

/// Only the first match counts: the position is fixed by the keys before it.
pub proof fn lemma_first_index_is(keys: Seq<Seq<char>>, sym: Seq<char>, i: int)
    requires
        -1 <= i <= keys.len(),
        forall|k: int| 0 <= k < i ==> keys[k] != sym,
        i == keys.len() || i == -1 || keys[i] == sym,
        i == -1 ==> forall|k: int| 0 <= k < keys.len() ==> keys[k] != sym,
    ensures
        first_index(keys, sym) == (if i == keys.len() { -1 } else { i }),
{
    lemma_first_index(keys, sym);
    let f = first_index(keys, sym);
    if f >= 0 && i >= 0 && i < keys.len() {
        if f < i {
            assert(keys[f] != sym);
        } else if f > i {
            assert(keys[i] != sym);
        }
    }
    if f >= 0 && (i == keys.len() || i == -1) {
        assert(keys[f] == sym);
    }
}

pub proof fn lemma_first_index_push(keys: Seq<Seq<char>>, k: Seq<char>, sym: Seq<char>)
    ensures
        first_index(keys.push(k), sym) == (if first_index(keys, sym) >= 0 {
            first_index(keys, sym)
        } else if k == sym {
            keys.len() as int
        } else {
            -1
        }),
{
    let ks = keys.push(k);
    lemma_first_index(keys, sym);
    let f = first_index(keys, sym);
    if f >= 0 {
        lemma_first_index_is(ks, sym, f);
    } else if k == sym {
        lemma_first_index_is(ks, sym, keys.len() as int);
    } else {
        lemma_first_index_is(ks, sym, -1);
    }
}

/// The total number of shares in a list of lots.
pub open spec fn quantity_sum(lots: Seq<Holding>) -> nat
    decreases lots.len(),
{
    if lots.len() == 0 {
        0
    } else {
        quantity_sum(lots.drop_last()) + lots.last().quantity as nat
    }
}

pub proof fn lemma_quantity_sum_append(a: Seq<Holding>, b: Seq<Holding>)
    ensures
        quantity_sum(a + b) == quantity_sum(a) + quantity_sum(b),
    decreases b.len(),
{
    if b.len() == 0 {
        assert(a + b =~= a);
    } else {
        assert((a + b).drop_last() =~= a + b.drop_last());
        assert((a + b).last() == b.last());
        lemma_quantity_sum_append(a, b.drop_last());
    }
}

pub proof fn lemma_quantity_sum_first(lots: Seq<Holding>)
    requires
        lots.len() > 0,
    ensures
        quantity_sum(lots) == lots[0].quantity + quantity_sum(lots.drop_first()),
{
    assert(lots =~= seq![lots[0]] + lots.drop_first());
    lemma_quantity_sum_append(seq![lots[0]], lots.drop_first());
    assert(seq![lots[0]].drop_last() =~= Seq::<Holding>::empty());
    assert(seq![lots[0]].last() == lots[0]);
    assert(quantity_sum(seq![lots[0]]) == quantity_sum(Seq::<Holding>::empty()) + lots[0].quantity as nat);
}

/// Selling `q` shares takes them from the oldest lots first: a lot that is used
/// up is removed, and the first lot not used up is reduced.
pub open spec fn consume(lots: Seq<Holding>, q: nat) -> Seq<Holding>
    decreases lots.len(),
{
    if q == 0 || lots.len() == 0 {
        lots
    } else if lots[0].quantity <= q {
        consume(lots.drop_first(), (q - lots[0].quantity) as nat)
    } else {
        lots.update(0, Holding { quantity: (lots[0].quantity - q) as u64, ..lots[0] })
    }
}

/// Selling takes exactly the shares sold, or all of them when fewer are held.
pub proof fn lemma_consume_total(lots: Seq<Holding>, q: nat)
    ensures
        quantity_sum(consume(lots, q)) == quantity_sum(lots) - (if q <= quantity_sum(lots) { q } else { quantity_sum(lots) }),
    decreases lots.len(),
{
    if q == 0 || lots.len() == 0 {
    } else {
        lemma_quantity_sum_first(lots);
        if lots[0].quantity <= q {
            lemma_consume_total(lots.drop_first(), (q - lots[0].quantity) as nat);
        } else {
            let u = lots.update(0, Holding { quantity: (lots[0].quantity - q) as u64, ..lots[0] });
            lemma_quantity_sum_first(u);
            assert(u.drop_first() =~= lots.drop_first());
        }
    }
}

/// Selling keeps the lots that remain in purchase order and takes from the
/// oldest first: for some `k`, the lots before position `k` are used up
/// (together they hold no more than was sold), and what is left is the lots from
/// `k` on, of which only the first is reduced, by what the used-up lots did not
/// cover; a lot is used up exactly when what is still to be sold covers it.
pub proof fn lemma_consume_keeps_order(lots: Seq<Holding>, q: nat) -> (k: int)
    ensures
        0 <= k <= lots.len(),
        quantity_sum(lots.take(k)) <= q,
        consume(lots, q).len() == lots.len() - k,
        forall|j: int| 1 <= j < consume(lots, q).len() ==> #[trigger] consume(lots, q)[j] == lots[k + j],
        consume(lots, q).len() > 0 ==> consume(lots, q)[0] == (Holding {
            quantity: (lots[k].quantity - (q - quantity_sum(lots.take(k)))) as u64,
            ..lots[k]
        }),
        k < lots.len() && quantity_sum(lots.take(k)) < q ==> lots[k].quantity > q - quantity_sum(lots.take(k)),
    decreases lots.len(),
{
    if q == 0 || lots.len() == 0 {
        assert(lots.take(0) =~= Seq::<Holding>::empty());
        0
    } else if lots[0].quantity <= q {
        let rest = lots.drop_first();
        let k1 = lemma_consume_keeps_order(rest, (q - lots[0].quantity) as nat);
        let k = k1 + 1;
        assert(lots.take(k) =~= seq![lots[0]] + rest.take(k1));
        lemma_quantity_sum_append(seq![lots[0]], rest.take(k1));
        assert(seq![lots[0]].drop_last() =~= Seq::<Holding>::empty());
        assert(quantity_sum(seq![lots[0]]) == quantity_sum(Seq::<Holding>::empty()) + lots[0].quantity as nat);
        assert forall|j: int| 1 <= j < consume(lots, q).len() implies #[trigger] consume(lots, q)[j] == lots[k + j] by {
            assert(rest[k1 + j] == lots[k + j]);
        }
        if consume(lots, q).len() > 0 {
            assert(rest[k1] == lots[k]);
        }
        k
    } else {
        assert(lots.take(0) =~= Seq::<Holding>::empty());
        0
    }
}

/// A buy passes the risk check exactly when the cash covers the whole order:
/// its size times its price (its limit, or the last traded price of a market
/// order); when it does not, the check reports that total against the cash.
pub proof fn lemma_buy_check_covers_whole_order(pf: Portfolio, order: Order, market: Market, p: Price)
    requires
        order.0.bid_or_ask == BidOrAsk::Bid,
        buy_price(order, market) == Some(p),
    ensures
        pf.validation(order, market) is Ok <==> pf.balance_paisa >= order.0.size * p.paisa,
        pf.balance_paisa < order.0.size * p.paisa ==> pf.validation(order, market) == Err::<(), Seq<char>>(
            funds_message((order.0.size * p.paisa) as nat, pf.balance_paisa as nat),
        ),
{
}

/// A sell passes the risk check exactly when the shares held of its symbol cover
/// its size; a buy whose price cannot be found (a market order for a symbol that
/// is not listed) is refused.
pub proof fn lemma_sell_check_covers_whole_order(pf: Portfolio, order: Order, market: Market)
    ensures
        order.0.bid_or_ask == BidOrAsk::Ask ==> (pf.validation(order, market) is Ok <==> pf.shares_of(order.0.symbol@)
            >= order.0.size),
        order.0.bid_or_ask == BidOrAsk::Bid && buy_price(order, market) is None ==> pf.validation(order, market)
            == Err::<(), Seq<char>>(ticker_not_found(order.0.symbol@)),
{
}

/// Tracking keeps one entry per symbol: when the symbols of `v` are pairwise
/// different, so are those after tracking `o` under `sym`; the one entry for
/// `sym` lists the orders it listed before followed by `o` (just `o` when there
/// was none), and the entries of other symbols are kept.
pub proof fn lemma_tracking_keeps_one_entry_per_symbol(v: Seq<(Seq<char>, Seq<Order>)>, sym: Seq<char>, o: Order)
    requires
        forall|i: int, j: int| 0 <= i < j < v.len() ==> (#[trigger] v[i]).0 != (#[trigger] v[j]).0,
    ensures
        forall|i: int, j: int|
            0 <= i < j < with_tracked(v, sym, o).len() ==> (#[trigger] with_tracked(v, sym, o)[i]).0 != (
            #[trigger] with_tracked(v, sym, o)[j]).0,
        exists|i: int| 0 <= i < with_tracked(v, sym, o).len() && (#[trigger] with_tracked(v, sym, o)[i]).0 == sym,
        forall|i: int, j: int|
            0 <= i < with_tracked(v, sym, o).len() && (#[trigger] with_tracked(v, sym, o)[i]).0 == sym && 0 <= j
                < v.len() && (#[trigger] v[j]).0 == sym ==> with_tracked(v, sym, o)[i].1 == v[j].1.push(o),
        (forall|j: int| 0 <= j < v.len() ==> (#[trigger] v[j]).0 != sym) ==> forall|i: int|
            0 <= i < with_tracked(v, sym, o).len() && (#[trigger] with_tracked(v, sym, o)[i]).0 == sym
                ==> with_tracked(v, sym, o)[i].1 == seq![o],
        forall|i: int| 0 <= i < v.len() && (#[trigger] v[i]).0 != sym ==> with_tracked(v, sym, o)[i] == v[i],
{
    let keys = entry_keys(v);
    lemma_first_index(keys, sym);
    let f = first_index(keys, sym);
    let w = with_tracked(v, sym, o);
    assert forall|k: int| 0 <= k < v.len() implies #[trigger] keys[k] == v[k].0 by {}
    if f >= 0 {
        assert(w[f].0 == sym);
        assert forall|i: int, j: int| 0 <= i < j < w.len() implies (#[trigger] w[i]).0 != (#[trigger] w[j]).0 by {
            assert(w[i].0 == v[i].0);
            assert(w[j].0 == v[j].0);
        }
        assert forall|i: int, j: int|
            0 <= i < w.len() && (#[trigger] w[i]).0 == sym && 0 <= j < v.len() && (#[trigger] v[j]).0 == sym implies w[i].1
                == v[j].1.push(o) by {
            assert(v[f].0 == keys[f]);
            if i != f {
                assert(w[i] == v[i]);
                if i < f {
                    assert(v[i].0 != v[f].0);
                } else {
                    assert(v[f].0 != v[i].0);
                }
            }
            if j < f {
                assert(v[j].0 != v[f].0);
            } else if j > f {
                assert(v[f].0 != v[j].0);
            }
        }
    } else {
        assert(w[v.len() as int].0 == sym);
        assert forall|i: int, j: int| 0 <= i < j < w.len() implies (#[trigger] w[i]).0 != (#[trigger] w[j]).0 by {
            if j == v.len() {
                assert(keys[i] == v[i].0);
            } else {
                assert(w[i] == v[i]);
                assert(w[j] == v[j]);
            }
        }
        assert forall|i: int| 0 <= i < w.len() && (#[trigger] w[i]).0 == sym implies w[i].1 == seq![o] by {
            if i < v.len() {
                assert(keys[i] == v[i].0);
            }
        }
        assert forall|i: int, j: int|
            0 <= i < w.len() && (#[trigger] w[i]).0 == sym && 0 <= j < v.len() && (#[trigger] v[j]).0 == sym implies w[i].1
                == v[j].1.push(o) by {
            assert(keys[j] == v[j].0);
        }
    }
}


/// Selling what was just bought returns the shares held to what they were.
pub proof fn lemma_sell_after_buy(lots: Seq<Holding>, h: Holding)
    ensures
        quantity_sum(consume(lots.push(h), h.quantity as nat)) == quantity_sum(lots),
{
    lemma_consume_total(lots.push(h), h.quantity as nat);
    assert(lots.push(h).drop_last() =~= lots);
}

/// The orders of `os` that are not filled, in order.
pub open spec fn unfilled(os: Seq<Order>) -> Seq<Order>
    decreases os.len(),
{
    if os.len() == 0 {
        os
    } else {
        let r = unfilled(os.drop_last());
        if os.last().spec_is_filled() {
            r
        } else {
            r.push(os.last())
        }
    }
}


pub proof fn lemma_unfilled_idempotent(os: Seq<Order>)
    ensures
        unfilled(unfilled(os)) == unfilled(os),
        forall|k: int| 0 <= k < unfilled(os).len() ==> !(#[trigger] unfilled(os)[k]).spec_is_filled(),
    decreases os.len(),
{
    if os.len() > 0 {
        lemma_unfilled_idempotent(os.drop_last());
        let r = unfilled(os.drop_last());
        if !os.last().spec_is_filled() {
            assert(r.push(os.last()).drop_last() =~= r);
            assert(r.push(os.last()).last() == os.last());
            assert forall|k: int| 0 <= k < unfilled(os).len() implies !(#[trigger] unfilled(os)[k]).spec_is_filled() by {
                if k < r.len() {
                    assert(unfilled(os)[k] == r[k]);
                }
            }
        }
    }
}

/// Dropping the filled open orders a second time changes nothing.
pub proof fn lemma_cleaned_idempotent(v: Seq<(Seq<char>, Seq<Order>)>)
    ensures
        cleaned(cleaned(v)) == cleaned(v),
    decreases v.len(),
{
    if v.len() > 0 {
        lemma_cleaned_idempotent(v.drop_last());
        let r = cleaned(v.drop_last());
        let k = unfilled(v.last().1);
        if k.len() > 0 {
            lemma_unfilled_idempotent(v.last().1);
            assert(r.push((v.last().0, k)).drop_last() =~= r);
            assert(r.push((v.last().0, k)).last() == (v.last().0, k));
        }
    }
}

/// Dropping the filled open orders keeps one entry per symbol: every entry left
/// is the entry of one symbol with its unfilled orders, and when the symbols were
/// pairwise different they still are.
pub proof fn lemma_cleaned_keeps_one_entry_per_symbol(v: Seq<(Seq<char>, Seq<Order>)>)
    ensures
        forall|i: int|
            0 <= i < cleaned(v).len() ==> exists|j: int|
                0 <= j < v.len() && #[trigger] cleaned(v)[i] == (v[j].0, unfilled(v[j].1)) && unfilled(v[j].1).len() > 0,
        (forall|i: int, j: int| 0 <= i < j < v.len() ==> (#[trigger] v[i]).0 != (#[trigger] v[j]).0) ==> forall|i: int, j: int|
            0 <= i < j < cleaned(v).len() ==> (#[trigger] cleaned(v)[i]).0 != (#[trigger] cleaned(v)[j]).0,
    decreases v.len(),
{
    if v.len() > 0 {
        let u = v.drop_last();
        lemma_cleaned_keeps_one_entry_per_symbol(u);
        let r = cleaned(u);
        let k = unfilled(v.last().1);
        assert forall|i: int| 0 <= i < cleaned(v).len() implies exists|j: int|
            0 <= j < v.len() && #[trigger] cleaned(v)[i] == (v[j].0, unfilled(v[j].1)) && unfilled(v[j].1).len() > 0 by {
            if i < r.len() {
                assert(cleaned(v)[i] == r[i]);
                let j = choose|j: int| 0 <= j < u.len() && #[trigger] r[i] == (u[j].0, unfilled(u[j].1)) && unfilled(u[j].1).len() > 0;
                assert(u[j] == v[j]);
            } else {
                assert(cleaned(v)[i] == (v.last().0, k));
                assert(v[v.len() - 1] == v.last());
            }
        }
        if forall|i: int, j: int| 0 <= i < j < v.len() ==> (#[trigger] v[i]).0 != (#[trigger] v[j]).0 {
            assert forall|i: int, j: int| 0 <= i < j < u.len() implies (#[trigger] u[i]).0 != (#[trigger] u[j]).0 by {
                assert(u[i] == v[i] && u[j] == v[j]);
            }
            assert forall|i: int, j: int| 0 <= i < j < cleaned(v).len() implies (#[trigger] cleaned(v)[i]).0 != (
            #[trigger] cleaned(v)[j]).0 by {
                if j < r.len() {
                    assert(cleaned(v)[i] == r[i] && cleaned(v)[j] == r[j]);
                } else {
                    assert(cleaned(v)[i] == r[i]);
                    let a = choose|a: int| 0 <= a < u.len() && #[trigger] r[i] == (u[a].0, unfilled(u[a].1)) && unfilled(u[a].1).len() > 0;
                    assert(u[a] == v[a]);
                    assert(v[v.len() - 1] == v.last());
                    assert(cleaned(v)[j] == (v.last().0, k));
                }
            }
        }
    }
}

/// The open orders by symbol, as symbol and orders.
pub open spec fn open_view(v: Seq<OpenOrders>) -> Seq<(Seq<char>, Seq<Order>)> {
    v.map_values(|e: OpenOrders| (e.symbol@, e.orders@))
}

/// The open orders without the filled orders, and without symbols left with none.
pub open spec fn cleaned(v: Seq<(Seq<char>, Seq<Order>)>) -> Seq<(Seq<char>, Seq<Order>)>
    decreases v.len(),
{
    if v.len() == 0 {
        v
    } else {
        let r = cleaned(v.drop_last());
        let k = unfilled(v.last().1);
        if k.len() > 0 {
            r.push((v.last().0, k))
        } else {
            r
        }
    }
}

/// The symbols of entries of symbol and orders.
pub open spec fn entry_keys(v: Seq<(Seq<char>, Seq<Order>)>) -> Seq<Seq<char>> {
    v.map_values(|e: (Seq<char>, Seq<Order>)| e.0)
}

/// The open orders with `o` tracked under `sym`: appended to the first entry for
/// `sym`, or in a new entry at the end.
pub open spec fn with_tracked(v: Seq<(Seq<char>, Seq<Order>)>, sym: Seq<char>, o: Order) -> Seq<(Seq<char>, Seq<Order>)> {
    let i = first_index(entry_keys(v), sym);
    if i >= 0 {
        v.update(i, (sym, v[i].1.push(o)))
    } else {
        v.push((sym, seq![o]))
    }
}

/// The symbols of a list of holdings, in order.
pub open spec fn holding_list_keys(list: Seq<HoldingList>) -> Seq<Seq<char>> {
    list.map_values(|h: HoldingList| h.symbol@)
}

/// The symbols of a list of open orders, in order.
pub open spec fn open_keys(list: Seq<OpenOrders>) -> Seq<Seq<char>> {
    entry_keys(open_view(list))
}

/// The message for a buy that costs more than the cash available.
pub open spec fn funds_message(required: nat, available: nat) -> Seq<char> {
    "Insufficient funds: Required "@ + money_text(required) + ", Available "@ + money_text(available)
}

/// The message for a sell of more shares than are held.
pub open spec fn shares_message(sym: Seq<char>, required: nat, available: nat) -> Seq<char> {
    "Insufficient shares for '"@ + sym + "': Required "@ + decimal_digits(required) + ", Available "@ + decimal_digits(
        available,
    )
}

/// The price a buy is checked at: its limit, or for a market order the last
/// traded price of its symbol, when the symbol is listed.
pub open spec fn buy_price(order: Order, market: Market) -> Option<Price> {
    match order.0.price {
        Some(p) => Some(p),
        None => if market.has_book(order.0.symbol@) {
            Some(market.book_for(order.0.symbol@).ltp)
        } else {
            None
        },
    }
}

fn find_holding(list: &Vec<HoldingList>, symbol: &String) -> (r: Option<usize>)
    ensures
        match r {
            Some(i) => i < list@.len() && first_index(holding_list_keys(list@), symbol@) == i,
            None => first_index(holding_list_keys(list@), symbol@) == -1,
        },
{
    let ghost keys = holding_list_keys(list@);
    let n = list.len();
    let mut i: usize = 0;
    while i < n
        invariant
            n == list@.len(),
            keys == holding_list_keys(list@),
            i <= n,
            forall|k: int| 0 <= k < i ==> keys[k] != symbol@,
        decreases n - i,
    {
        if list[i].symbol == *symbol {
            proof {
                lemma_first_index_is(keys, symbol@, i as int);
            }
            return Some(i);
        }
        i = i + 1;
    }
    proof {
        lemma_first_index_is(keys, symbol@, n as int);
    }
    None
}

fn find_open(list: &Vec<OpenOrders>, symbol: &String) -> (r: Option<usize>)
    ensures
        match r {
            Some(i) => i < list@.len() && first_index(open_keys(list@), symbol@) == i,
            None => first_index(open_keys(list@), symbol@) == -1,
        },
{
    let ghost keys = open_keys(list@);
    let n = list.len();
    let mut i: usize = 0;
    while i < n
        invariant
            n == list@.len(),
            keys == open_keys(list@),
            i <= n,
            forall|k: int| 0 <= k < i ==> keys[k] != symbol@,
        decreases n - i,
    {
        if list[i].symbol == *symbol {
            proof {
                lemma_first_index_is(keys, symbol@, i as int);
            }
            return Some(i);
        }
        i = i + 1;
    }
    proof {
        lemma_first_index_is(keys, symbol@, n as int);
    }
    None
}

fn filter_unfilled(os: &Vec<Order>) -> (r: Vec<Order>)
    ensures
        r@ == unfilled(os@),
{
    let n = os.len();
    let mut kept: Vec<Order> = Vec::new();
    let mut i: usize = 0;
    while i < n
        invariant
            n == os@.len(),
            i <= n,
            kept@ == unfilled(os@.take(i as int)),
        decreases n - i,
    {
        proof {
            assert(os@.take(i + 1).drop_last() =~= os@.take(i as int));
            assert(os@.take(i + 1).last() == os@[i as int]);
        }
        if !os[i].is_filled() {
            kept.push(os[i].duplicate());
        }
        i = i + 1;
    }
    proof {
        assert(os@.take(n as int) =~= os@);
    }
    kept
}

/// An open order once `book` has traded: a limit order of the book's symbol takes
/// the filled size that the book holds for its id on its side; when the book no
/// longer holds it, the book has filled it completely. Other orders are unchanged.
pub open spec fn synced_open_order(o: Order, book: OrderBook) -> Order {
    if o.0.symbol@ == book.symbol@ && o.0.price is Some {
        match book_filled(book, o.0.bid_or_ask, o.0.id@) {
            Some(f) => with_filled(o, f),
            None => with_filled(o, o.0.size),
        }
    } else {
        o
    }
}

/// The open orders, by symbol, once `book` has traded (see `synced_open_order`).
pub open spec fn synced_view(v: Seq<(Seq<char>, Seq<Order>)>, book: OrderBook) -> Seq<(Seq<char>, Seq<Order>)> {
    v.map_values(|e: (Seq<char>, Seq<Order>)| (e.0, e.1.map_values(|o: Order| synced_open_order(o, book))))
}

fn synced_copy(o: &Order, book: &OrderBook) -> (r: Order)
    ensures
        r == synced_open_order(*o, *book),
{
    let mut c = o.duplicate();
    if o.0.symbol == book.symbol && o.0.price.is_some() {
        match book_filled_size(book, o.0.bid_or_ask, &o.0.id) {
            Some(f) => {
                c.0.filled_size = f;
            },
            None => {
                c.0.filled_size = c.0.size;
            },
        }
    }
    c
}

fn synced_orders(os: &Vec<Order>, book: &OrderBook) -> (r: Vec<Order>)
    ensures
        r@ == os@.map_values(|o: Order| synced_open_order(o, *book)),
{
    let n = os.len();
    let mut out: Vec<Order> = Vec::new();
    let mut i: usize = 0;
    while i < n
        invariant
            n == os@.len(),
            i <= n,
            out@ =~= os@.take(i as int).map_values(|o: Order| synced_open_order(o, *book)),
        decreases n - i,
    {
        let c = synced_copy(&os[i], book);
        out.push(c);
        proof {
            assert(os@.take(i + 1) =~= os@.take(i as int).push(os@[i as int]));
        }
        i = i + 1;
    }
    proof {
        assert(os@.take(n as int) =~= os@);
    }
    out
}

impl Portfolio {
    /// The symbols of the holdings, in order.
    pub open spec fn holding_keys(self) -> Seq<Seq<char>> {
        holding_list_keys(self.holdings@)
    }

    /// The lots held of `sym`, oldest first (none when the symbol is not held).
    pub open spec fn lots_of(self, sym: Seq<char>) -> Seq<Holding> {
        let i = first_index(self.holding_keys(), sym);
        if i >= 0 {
            self.holdings@[i].lots@
        } else {
            Seq::empty()
        }
    }

    /// The number of shares held of `sym`.
    pub open spec fn shares_of(self, sym: Seq<char>) -> nat {
        quantity_sum(self.lots_of(sym))
    }

    /// The outcome of the pre-trade risk check of `order` against `market`: a buy
    /// must be affordable at its price (see `buy_price`), a sell must be covered
    /// by the shares held.
    pub open spec fn validation(self, order: Order, market: Market) -> Result<(), Seq<char>> {
        match order.0.bid_or_ask {
            BidOrAsk::Bid => match buy_price(order, market) {
                None => Err(ticker_not_found(order.0.symbol@)),
                Some(p) => {
                    let cost = order.0.size * p.paisa;
                    if self.balance_paisa < cost {
                        Err(funds_message(cost as nat, self.balance_paisa as nat))
                    } else {
                        Ok(())
                    }
                },
            },
            BidOrAsk::Ask => {
                let available = self.shares_of(order.0.symbol@);
                if available < order.0.size {
                    Err(shares_message(order.0.symbol@, order.0.size as nat, available))
                } else {
                    Ok(())
                }
            },
        }
    }

    /// The quantities the risk check computes fit in a `u64`.
    pub open spec fn validation_fits(self, order: Order, market: Market) -> bool {
        match order.0.bid_or_ask {
            BidOrAsk::Bid => buy_price(order, market) matches Some(p) ==> order.0.size * p.paisa <= u64::MAX,
            BidOrAsk::Ask => self.shares_of(order.0.symbol@) <= u64::MAX,
        }
    }

    /// A portfolio with `initial_balance_paisa` in cash and nothing else.
    pub fn new(user: User, acc_no: String, initial_balance_paisa: u64) -> (p: Self)
        ensures
            p.user == user,
            p.acc_no == acc_no,
            p.balance_paisa == initial_balance_paisa,
            p.open_orders@.len() == 0,
            p.holdings@.len() == 0,
    {
        Self { user, acc_no, balance_paisa: initial_balance_paisa, open_orders: Vec::new(), holdings: Vec::new() }
    }

    /// The number of shares held of `symbol`.
    pub fn total_shares(&self, symbol: &str) -> (r: u64)
        requires
            self.shares_of(symbol@) <= u64::MAX,
        ensures
            r == self.shares_of(symbol@),
    {
        let key = String::from_str(symbol);
        match find_holding(&self.holdings, &key) {
            Some(i) => {
                let lots = &self.holdings[i].lots;
                let n = lots.len();
                let mut total: u64 = 0;
                let mut j: usize = 0;
                while j < n
                    invariant
                        n == lots@.len(),
                        j <= n,
                        total == quantity_sum(lots@.take(j as int)),
                        quantity_sum(lots@) <= u64::MAX,
                    decreases n - j,
                {
                    proof {
                        assert(lots@.take(j + 1).drop_last() =~= lots@.take(j as int));
                        assert(lots@ =~= lots@.take(j + 1) + lots@.skip(j + 1));
                        lemma_quantity_sum_append(lots@.take(j + 1), lots@.skip(j + 1));
                    }
                    total = total + lots[j].quantity;
                    j = j + 1;
                }
                proof {
                    assert(lots@.take(n as int) =~= lots@);
                }
                total
            },
            None => 0,
        }
    }

    /// The number of shares held of `symbol`, or none when it does not fit in a `u64`.
    pub fn checked_total_shares(&self, symbol: &str) -> (r: Option<u64>)
        ensures
            r == (if self.shares_of(symbol@) <= u64::MAX { Some(self.shares_of(symbol@) as u64) } else { None::<u64> }),
    {
        let key = String::from_str(symbol);
        match find_holding(&self.holdings, &key) {
            Some(i) => {
                let lots = &self.holdings[i].lots;
                let n = lots.len();
                let mut total: u64 = 0;
                let mut j: usize = 0;
                while j < n
                    invariant
                        n == lots@.len(),
                        j <= n,
                        total == quantity_sum(lots@.take(j as int)),
                        self.shares_of(symbol@) == quantity_sum(lots@),
                    decreases n - j,
                {
                    proof {
                        assert(lots@.take(j + 1).drop_last() =~= lots@.take(j as int));
                        assert(lots@.take(j + 1).last() == lots@[j as int]);
                        assert(lots@ =~= lots@.take(j + 1) + lots@.skip(j + 1));
                        lemma_quantity_sum_append(lots@.take(j + 1), lots@.skip(j + 1));
                    }
                    match total.checked_add(lots[j].quantity) {
                        Some(t) => {
                            total = t;
                        },
                        None => {
                            return None;
                        },
                    }
                    j = j + 1;
                }
                proof {
                    assert(lots@.take(n as int) =~= lots@);
                }
                Some(total)
            },
            None => Some(0),
        }
    }

    /// Brings the open orders in line with `book` once it has traded (see
    /// `synced_open_order`), then drops those that are filled: an order that the
    /// book filled while it rested leaves the open orders.
    pub fn refresh_open_orders(&mut self, book: &OrderBook)
        ensures
            open_view(final(self).open_orders@) == cleaned(synced_view(open_view(old(self).open_orders@), *book)),
            final(self).holdings == old(self).holdings,
            final(self).balance_paisa == old(self).balance_paisa,
            final(self).acc_no == old(self).acc_no,
            final(self).user == old(self).user,
    {
        let ghost v0 = open_view(self.open_orders@);
        let n = self.open_orders.len();
        let mut out: Vec<OpenOrders> = Vec::new();
        let mut i: usize = 0;
        while i < n
            invariant
                n == self.open_orders@.len(),
                v0 == open_view(self.open_orders@),
                i <= n,
                open_view(out@) =~= synced_view(v0.take(i as int), *book),
            decreases n - i,
        {
            let orders = synced_orders(&self.open_orders[i].orders, book);
            let e = OpenOrders { symbol: self.open_orders[i].symbol.clone(), orders };
            let ghost before = out@;
            out.push(e);
            proof {
                assert(v0.take(i + 1) =~= v0.take(i as int).push(v0[i as int]));
                assert(open_view(out@) =~= open_view(before).push((e.symbol@, e.orders@)));
            }
            i = i + 1;
        }
        proof {
            assert(v0.take(n as int) =~= v0);
        }
        self.open_orders = out;
        self.cleanup_open_orders();
    }

    /// Drops the filled orders from the open orders, and the symbols left with none.
    pub fn cleanup_open_orders(&mut self)
        ensures
            open_view(final(self).open_orders@) == cleaned(open_view(old(self).open_orders@)),
            final(self).holdings == old(self).holdings,
            final(self).balance_paisa == old(self).balance_paisa,
            final(self).acc_no == old(self).acc_no,
            final(self).user == old(self).user,
    {
        let ghost v0 = open_view(self.open_orders@);
        let n = self.open_orders.len();
        let mut kept: Vec<OpenOrders> = Vec::new();
        let mut i: usize = 0;
        while i < n
            invariant
                n == self.open_orders@.len(),
                v0 == open_view(self.open_orders@),
                i <= n,
                open_view(kept@) == cleaned(v0.take(i as int)),
            decreases n - i,
        {
            let orders = filter_unfilled(&self.open_orders[i].orders);
            proof {
                assert(v0.take(i + 1).drop_last() =~= v0.take(i as int));
                assert(v0.take(i + 1).last() == v0[i as int]);
            }
            if orders.len() > 0 {
                let ghost before = kept@;
                kept.push(OpenOrders { symbol: self.open_orders[i].symbol.clone(), orders });
                proof {
                    assert(open_view(kept@) =~= open_view(before).push(open_view(kept@).last()));
                }
            }
            i = i + 1;
        }
        proof {
            assert(v0.take(n as int) =~= v0);
        }
        self.open_orders = kept;
    }


    /// The pre-trade risk check (see `validation`).
    pub fn validate_order(&self, order: &Order, market: &Market) -> (r: Result<(), String>)
        requires
            market.wf(),
            self.validation_fits(*order, *market),
        ensures
            match (r, self.validation(*order, *market)) {
                (Ok(_), Ok(_)) => true,
                (Err(e), Err(m)) => e@ == m,
                _ => false,
            },
    {
        match order.bid_or_ask() {
            BidOrAsk::Bid => {
                let required_price = match order.price() {
                    Some(price) => price,
                    None => match market.get_orderbook(order.0.symbol.as_str()) {
                        Some(book) => book.ltp,
                        None => {
                            let mut e = concat("Ticker '", order.0.symbol.as_str());
                            e.append("' not found in market.");
                            return Err(e);
                        },
                    },
                };
                let total_cost = order.size() * required_price.paisa;
                if self.balance_paisa < total_cost {
                    let mut e = String::from_str("Insufficient funds: Required ");
                    let required = money_string(total_cost);
                    e.append(required.as_str());
                    e.append(", Available ");
                    let available = money_string(self.balance_paisa);
                    e.append(available.as_str());
                    return Err(e);
                }
            },
            BidOrAsk::Ask => {
                let available_shares = self.total_shares(order.0.symbol.as_str());
                if available_shares < order.size() {
                    let mut e = concat("Insufficient shares for '", order.0.symbol.as_str());
                    e.append("': Required ");
                    let required = decimal_string(order.size());
                    e.append(required.as_str());
                    e.append(", Available ");
                    let available = decimal_string(available_shares);
                    e.append(available.as_str());
                    return Err(e);
                }
            },
        }
        Ok(())
    }

    fn track(&mut self, key: String, o: Order)
        ensures
            open_view(final(self).open_orders@) == with_tracked(open_view(old(self).open_orders@), key@, o),
            final(self).holdings == old(self).holdings,
            final(self).balance_paisa == old(self).balance_paisa,
            final(self).acc_no == old(self).acc_no,
            final(self).user == old(self).user,
    {
        let ghost v0 = open_view(self.open_orders@);
        match find_open(&self.open_orders, &key) {
            Some(i) => {
                let ghost e0 = self.open_orders@[i as int];
                self.open_orders[i].orders.push(o);
                proof {
                    lemma_first_index(entry_keys(v0), key@);
                    assert(entry_keys(v0)[i as int] == key@);
                    assert(open_view(self.open_orders@) =~= v0.update(i as int, (key@, v0[i as int].1.push(o))));
                }
            },
            None => {
                let mut os: Vec<Order> = Vec::new();
                os.push(o);
                let ghost e = OpenOrders { symbol: key, orders: os };
                self.open_orders.push(OpenOrders { symbol: key, orders: os });
                proof {
                    assert(os@ =~= seq![o]);
                    assert(open_view(self.open_orders@) =~= v0.push((key@, seq![o])));
                }
            },
        }
    }

    /// Checks `order` against the portfolio (see `validate_order`); when it passes,
    /// tracks it among the open orders, routes it to `market` as a limit order, then
    /// brings the open orders in line with the book of its symbol and drops those
    /// that are filled (see `refresh_open_orders`). An order that fails the check never
    /// reaches the market.
    pub fn dispatch_limit_order(&mut self, order: Order, market: &mut Market) -> (r: Result<(Vec<Trade>, String), String>)
        requires
            old(market).wf(),
            old(self).validation_fits(order, *old(market)),
            old(market).has_book(order.0.symbol@) ==> limit_order_ok(old(market).book_for(order.0.symbol@), order),
        ensures
            final(market).wf(),
            match old(self).validation(order, *old(market)) {
                Err(m) => {
                    &&& r matches Err(e) && e@ == m
                    &&& *final(self) == *old(self)
                    &&& *final(market) == *old(market)
                },
                Ok(_) => {
                    let sym = order.0.symbol@;
                    let book = old(market).book_for(sym);
                    &&& final(self).holdings == old(self).holdings
                    &&& final(self).balance_paisa == old(self).balance_paisa
                    &&& final(self).acc_no == old(self).acc_no
                    &&& final(self).user == old(self).user
                    &&& if old(market).has_book(sym) {
                        &&& final(market).has_book(sym)
                        &&& limit_order_done(book, order, final(market).book_for(sym), r)
                        &&& final(market).same_except(*old(market), sym)
                        &&& final(market).name == old(market).name
                        &&& open_view(final(self).open_orders@) == cleaned(synced_view(
                            with_tracked(open_view(old(self).open_orders@), sym, applied(order, fills_total(limit_fills(book, order)))),
                            final(market).book_for(sym),
                        ))
                    } else {
                        &&& *final(market) == *old(market)
                        &&& r matches Err(e) && e@ == ticker_not_found(sym)
                        &&& open_view(final(self).open_orders@) == with_tracked(open_view(old(self).open_orders@), sym, order)
                    }
                },
            },
    {
        match self.validate_order(&order, market) {
            Err(e) => {
                return Err(e);
            },
            Ok(()) => {},
        }
        let copy = order.duplicate();
        let key = order.symbol();
        let ghost sym = order.0.symbol@;
        let ghost book = market.book_for(sym);
        let ghost o0 = order;
        match market.place_limit_order(order) {
            Err(e) => {
                self.track(key, copy);
                Err(e)
            },
            Ok((trades, msg)) => {
                proof {
                    lemma_trades_total_fills(trades@, limit_fills(book, o0), book.symbol, o0.0.acc_no, o0.0.bid_or_ask);
                    lemma_fills_bounded(book, o0);
                }
                let total = total_quantity(&trades);
                let mut filled = copy;
                if total > 0 {
                    filled.fill(total);
                }
                self.track(key.clone(), filled);
                match market.get_orderbook(key.as_str()) {
                    Some(b) => self.refresh_open_orders(b),
                    None => self.cleanup_open_orders(),
                }
                Ok((trades, msg))
            },
        }
    }

    /// Checks `order` against the portfolio (see `validate_order`); when it passes,
    /// tracks it among the open orders, routes it to `market` as a market order, then
    /// brings the open orders in line with the book of its symbol and drops those
    /// that are filled (see `refresh_open_orders`). An order that fails the check never
    /// reaches the market.
    pub fn dispatch_market_order(&mut self, order: Order, market: &mut Market) -> (r: Result<(Vec<Trade>, String), String>)
        requires
            old(market).wf(),
            old(self).validation_fits(order, *old(market)),
            old(market).has_book(order.0.symbol@) ==> market_order_ok(old(market).book_for(order.0.symbol@), order),
        ensures
            final(market).wf(),
            match old(self).validation(order, *old(market)) {
                Err(m) => {
                    &&& r matches Err(e) && e@ == m
                    &&& *final(self) == *old(self)
                    &&& *final(market) == *old(market)
                },
                Ok(_) => {
                    let sym = order.0.symbol@;
                    let book = old(market).book_for(sym);
                    &&& final(self).holdings == old(self).holdings
                    &&& final(self).balance_paisa == old(self).balance_paisa
                    &&& final(self).acc_no == old(self).acc_no
                    &&& final(self).user == old(self).user
                    &&& if old(market).has_book(sym) {
                        &&& final(market).has_book(sym)
                        &&& market_order_done(book, order, final(market).book_for(sym), r)
                        &&& final(market).same_except(*old(market), sym)
                        &&& final(market).name == old(market).name
                        &&& open_view(final(self).open_orders@) == cleaned(synced_view(
                            with_tracked(open_view(old(self).open_orders@), sym, applied(order, fills_total(market_fills(book, order)))),
                            final(market).book_for(sym),
                        ))
                    } else {
                        &&& *final(market) == *old(market)
                        &&& r matches Err(e) && e@ == ticker_not_found(sym)
                        &&& open_view(final(self).open_orders@) == with_tracked(open_view(old(self).open_orders@), sym, order)
                    }
                },
            },
    {
        match self.validate_order(&order, market) {
            Err(e) => {
                return Err(e);
            },
            Ok(()) => {},
        }
        let copy = order.duplicate();
        let key = order.symbol();
        let ghost sym = order.0.symbol@;
        let ghost book = market.book_for(sym);
        let ghost o0 = order;
        match market.place_market_order(order) {
            Err(e) => {
                self.track(key, copy);
                Err(e)
            },
            Ok((trades, msg)) => {
                proof {
                    lemma_trades_total_fills(trades@, market_fills(book, o0), book.symbol, o0.0.acc_no, o0.0.bid_or_ask);
                    lemma_fills_bounded(book, o0);
                }
                let total = total_quantity(&trades);
                let mut filled = copy;
                if total > 0 {
                    filled.fill(total);
                }
                self.track(key.clone(), filled);
                match market.get_orderbook(key.as_str()) {
                    Some(b) => self.refresh_open_orders(b),
                    None => self.cleanup_open_orders(),
                }
                Ok((trades, msg))
            },
        }
    }

    /// Settles one trade: a purchase when this account is the buyer, a sale when
    /// it is the seller (see `apply_buy_trade` and `apply_sell_trade`).
    pub fn settle_trade(&mut self, trade: &Trade)
        requires
            trade.quantity * trade.price.paisa <= u64::MAX,
            trade.seller_acc_no@ == old(self).acc_no@ ==> old(self).balance_paisa + trade.quantity * trade.price.paisa <= u64::MAX,
        ensures
            ({
                let c = trade.quantity * trade.price.paisa;
                let is_buy = trade.buyer_acc_no@ == old(self).acc_no@;
                let is_sell = trade.seller_acc_no@ == old(self).acc_no@;
                let b1 = if is_buy && old(self).balance_paisa >= c { old(self).balance_paisa - c } else { old(self).balance_paisa as int };
                let sym = trade.symbol@;
                let l0 = old(self).lots_of(sym);
                &&& final(self).balance_paisa == (if is_sell { b1 + c } else { b1 })
                &&& is_buy ==> exists|h: Holding|
                    h.symbol@ == sym && h.quantity == trade.quantity && h.buy_price == trade.price
                        && final(self).lots_of(sym) == (if is_sell { consume(#[trigger] l0.push(h), trade.quantity as nat) } else { l0.push(h) })
                &&& !is_buy ==> final(self).lots_of(sym) == (if is_sell { consume(l0, trade.quantity as nat) } else { l0 })
                &&& forall|s: Seq<char>| s != sym ==> #[trigger] final(self).lots_of(s) == old(self).lots_of(s)
                &&& open_view(final(self).open_orders@) == (if is_buy || is_sell {
                    cleaned(open_view(old(self).open_orders@))
                } else {
                    open_view(old(self).open_orders@)
                })
                &&& final(self).acc_no == old(self).acc_no
                &&& final(self).user == old(self).user
            }),
    {
        let ghost s0 = *self;
        if trade.buyer_acc_no == self.acc_no {
            self.apply_buy_trade(trade.symbol.as_str(), trade.quantity, trade.price);
        }
        let ghost s1 = *self;
        if trade.seller_acc_no == self.acc_no {
            self.apply_sell_trade(trade.symbol.as_str(), trade.quantity, trade.price);
            proof {
                lemma_cleaned_idempotent(open_view(s0.open_orders@));
            }
        }
        proof {
            let sym = trade.symbol@;
            if trade.buyer_acc_no@ == s0.acc_no@ {
                let h = s1.lots_of(sym).last();
                assert(s1.lots_of(sym) =~= s0.lots_of(sym).push(h));
            }
        }
    }

    /// Settles a purchase of `qty` shares of `symbol` at `price`: the cost is
    /// paid when the cash covers it, and a new lot is added behind the others.
    pub fn apply_buy_trade(&mut self, symbol: &str, qty: u64, price: Price)
        requires
            qty * price.paisa <= u64::MAX,
        ensures
            final(self).balance_paisa == (if old(self).balance_paisa >= qty * price.paisa {
                old(self).balance_paisa - qty * price.paisa
            } else {
                old(self).balance_paisa as int
            }),
            final(self).lots_of(symbol@).len() == old(self).lots_of(symbol@).len() + 1,
            final(self).lots_of(symbol@).drop_last() == old(self).lots_of(symbol@),
            final(self).lots_of(symbol@).last().symbol@ == symbol@,
            final(self).lots_of(symbol@).last().quantity == qty,
            final(self).lots_of(symbol@).last().buy_price == price,
            forall|s: Seq<char>| s != symbol@ ==> #[trigger] final(self).lots_of(s) == old(self).lots_of(s),
            open_view(final(self).open_orders@) == cleaned(open_view(old(self).open_orders@)),
            final(self).acc_no == old(self).acc_no,
            final(self).user == old(self).user,
    {
        let ghost old_self = *self;
        let total_cost = qty * price.paisa;
        if self.balance_paisa >= total_cost {
            self.balance_paisa = self.balance_paisa - total_cost;
        }
        let key = String::from_str(symbol);
        let holding = Holding { symbol: String::from_str(symbol), quantity: qty, buy_price: price, bought_at: system_time_now() };
        let ghost h = holding;
        let ghost keys0 = self.holding_keys();
        match find_holding(&self.holdings, &key) {
            Some(i) => {
                self.holdings[i].lots.push(holding);
                proof {
                    lemma_first_index(keys0, symbol@);
                    assert(self.holding_keys() =~= keys0);
                    assert forall|s: Seq<char>| s != symbol@ implies #[trigger] self.lots_of(s) == old_self.lots_of(s) by {
                        let f = first_index(keys0, s);
                        if f >= 0 {
                            lemma_first_index(keys0, s);
                            assert(f != i);
                        }
                    }
                    assert(self.lots_of(symbol@).drop_last() =~= old_self.lots_of(symbol@));
                }
            },
            None => {
                let mut lots: Vec<Holding> = Vec::new();
                lots.push(holding);
                let entry = HoldingList { symbol: key, lots };
                let ghost e = entry;
                self.holdings.push(entry);
                proof {
                    assert(self.holding_keys() =~= keys0.push(symbol@));
                    assert forall|s: Seq<char>| #[trigger] first_index(self.holding_keys(), s) == (if first_index(keys0, s) >= 0 {
                        first_index(keys0, s)
                    } else if symbol@ == s {
                        keys0.len() as int
                    } else {
                        -1
                    }) by {
                        lemma_first_index_push(keys0, symbol@, s);
                    }
                    assert forall|s: Seq<char>| s != symbol@ implies #[trigger] self.lots_of(s) == old_self.lots_of(s) by {
                        let f = first_index(keys0, s);
                        if f >= 0 {
                            lemma_first_index(keys0, s);
                            assert(self.holdings@[f] == old_self.holdings@[f]);
                        }
                    }
                    assert(e.lots@ =~= seq![h]);
                    assert(self.lots_of(symbol@).drop_last() =~= old_self.lots_of(symbol@));
                }
            },
        }
        let ghost mid = *self;
        self.cleanup_open_orders();
        proof {
            assert(self.holding_keys() == mid.holding_keys());
            assert forall|s: Seq<char>| s != symbol@ implies #[trigger] self.lots_of(s) == old_self.lots_of(s) by {
                assert(self.lots_of(s) == mid.lots_of(s));
            }
            assert(self.lots_of(symbol@) == mid.lots_of(symbol@));
        }
    }

    /// Settles a sale of `qty` shares of `symbol` at `price`: the proceeds are
    /// credited and the shares are taken from the oldest lots first.
    pub fn apply_sell_trade(&mut self, symbol: &str, qty: u64, price: Price)
        requires
            old(self).balance_paisa + qty * price.paisa <= u64::MAX,
        ensures
            final(self).balance_paisa == old(self).balance_paisa + qty * price.paisa,
            final(self).lots_of(symbol@) == consume(old(self).lots_of(symbol@), qty as nat),
            forall|s: Seq<char>| s != symbol@ ==> #[trigger] final(self).lots_of(s) == old(self).lots_of(s),
            open_view(final(self).open_orders@) == cleaned(open_view(old(self).open_orders@)),
            final(self).acc_no == old(self).acc_no,
            final(self).user == old(self).user,
    {
        let ghost old_self = *self;
        let total_earned = qty * price.paisa;
        self.balance_paisa = self.balance_paisa + total_earned;
        let key = String::from_str(symbol);
        let ghost keys0 = self.holding_keys();
        match find_holding(&self.holdings, &key) {
            Some(i) => {
                let mut lots: Vec<Holding> = Vec::new();
                std::mem::swap(&mut lots, &mut self.holdings[i].lots);
                let ghost lots0 = lots@;
                let mut qty_to_sell = qty;
                while qty_to_sell > 0 && lots.len() > 0
                    invariant
                        consume(lots0, qty as nat) == consume(lots@, qty_to_sell as nat),
                    decreases lots@.len() as int + (if qty_to_sell > 0 { 1int } else { 0int }),
                {
                    if lots[0].quantity <= qty_to_sell {
                        qty_to_sell = qty_to_sell - lots[0].quantity;
                        let ghost before = lots@;
                        lots.remove(0);
                        proof {
                            assert(lots@ =~= before.drop_first());
                        }
                    } else {
                        let ghost before = lots@;
                        let mut first = lots.remove(0);
                        first.quantity = first.quantity - qty_to_sell;
                        lots.insert(0, first);
                        proof {
                            assert(lots@ =~= before.update(0, Holding { quantity: (before[0].quantity - qty_to_sell) as u64, ..before[0] }));
                            assert(consume(lots@, 0) == lots@);
                        }
                        qty_to_sell = 0;
                    }
                }
                std::mem::swap(&mut lots, &mut self.holdings[i].lots);
                proof {
                    lemma_first_index(keys0, symbol@);
                    assert(self.holding_keys() =~= keys0);
                    assert forall|s: Seq<char>| s != symbol@ implies #[trigger] self.lots_of(s) == old_self.lots_of(s) by {
                        let f = first_index(keys0, s);
                        if f >= 0 {
                            lemma_first_index(keys0, s);
                            assert(f != i);
                        }
                    }
                }
            },
            None => {},
        }
        let ghost mid = *self;
        self.cleanup_open_orders();
        proof {
            assert(self.holding_keys() == mid.holding_keys());
            assert forall|s: Seq<char>| s != symbol@ implies #[trigger] self.lots_of(s) == old_self.lots_of(s) by {
                assert(self.lots_of(s) == mid.lots_of(s));
            }
            assert(self.lots_of(symbol@) == mid.lots_of(symbol@));
        }
    }
}

} // verus!
