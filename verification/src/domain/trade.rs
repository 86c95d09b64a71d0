use vstd::prelude::*;

use crate::clock::system_time_now;
use crate::domain::price::Price;

verus! {

/// One execution between a buyer and a seller, as the order book reports it.
#[derive(Debug)]
pub struct Trade {
    pub id: u64,
    pub symbol: String,
    pub price: Price,
    pub quantity: u64,
    pub buyer_acc_no: String,
    pub seller_acc_no: String,
    pub timestamp: std::time::SystemTime,
}

impl Trade {
    /// A trade stamped with the current time.
    pub fn new(
        id: u64,
        symbol: String,
        price: Price,
        quantity: u64,
        buyer_acc_no: String,
        seller_acc_no: String,
    ) -> (t: Self)
        ensures
            t.id == id,
            t.symbol == symbol,
            t.price == price,
            t.quantity == quantity,
            t.buyer_acc_no == buyer_acc_no,
            t.seller_acc_no == seller_acc_no,
    {
        Self { id, symbol, price, quantity, buyer_acc_no, seller_acc_no, timestamp: system_time_now() }
    }
}

/// The total quantity of a list of trades.
pub open spec fn trades_total(trades: Seq<Trade>) -> nat
    decreases trades.len(),
{
    if trades.len() == 0 {
        0
    } else {
        trades_total(trades.drop_last()) + trades.last().quantity as nat
    }
}

/// The total quantity of `trades`.
pub fn total_quantity(trades: &Vec<Trade>) -> (r: u64)
    requires
        trades_total(trades@) <= u64::MAX,
    ensures
        r == trades_total(trades@),
{
    let n = trades.len();
    let mut total: u64 = 0;
    let mut i: usize = 0;
    while i < n
        invariant
            n == trades@.len(),
            i <= n,
            total == trades_total(trades@.take(i as int)),
            trades_total(trades@) <= u64::MAX,
        decreases n - i,
    {
        proof {
            assert(trades@.take(i + 1).drop_last() =~= trades@.take(i as int));
            lemma_trades_total_prefix(trades@, i + 1);
        }
        total = total + trades[i].quantity;
        i = i + 1;
    }
    proof {
        assert(trades@.take(n as int) =~= trades@);
    }
    total
}

/// The total of a prefix never exceeds the total.
pub proof fn lemma_trades_total_prefix(trades: Seq<Trade>, i: int)
    requires
        0 <= i <= trades.len(),
    ensures
        trades_total(trades.take(i)) <= trades_total(trades),
    decreases trades.len() - i,
{
    if i < trades.len() {
        lemma_trades_total_prefix(trades, i + 1);
        assert(trades.take(i + 1).drop_last() =~= trades.take(i));
    } else {
        assert(trades.take(i) =~= trades);
    }
}

} // verus!
