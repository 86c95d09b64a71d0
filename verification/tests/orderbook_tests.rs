use stock_exchange_rust::domain::order::{BidOrAsk, Order, OrderType};
use stock_exchange_rust::domain::orderbook::OrderBook;
use stock_exchange_rust::domain::price::Price;

fn limit(side: BidOrAsk, price: u64, size: u64, acc: &str) -> Order {
    Order::new("TCS".to_string(), Some(Price::from_paisa(price)), size, side, acc.to_string())
}

fn market(side: BidOrAsk, size: u64, acc: &str) -> Order {
    Order::new("TCS".to_string(), None, size, side, acc.to_string())
}

#[test]
fn limit_bid_sweeps_asks_in_price_order() {
    let mut book = OrderBook::new("TCS".to_string(), Price::from_paisa(1000));
    book.add_limit_order(limit(BidOrAsk::Ask, 1100, 50, "B")).unwrap();
    book.add_limit_order(limit(BidOrAsk::Ask, 1000, 100, "A")).unwrap();
    let (trades, msg) = book.add_limit_order(limit(BidOrAsk::Bid, 1100, 120, "X")).unwrap();
    assert_eq!(msg, "Limit Bid Processed.");
    assert_eq!(trades.len(), 2);
    assert_eq!(trades[0].id, 1000);
    assert_eq!(trades[0].price.paisa, 1000);
    assert_eq!(trades[0].quantity, 100);
    assert_eq!(trades[0].buyer_acc_no, "X");
    assert_eq!(trades[0].seller_acc_no, "A");
    assert_eq!(trades[1].id, 1001);
    assert_eq!(trades[1].price.paisa, 1100);
    assert_eq!(trades[1].quantity, 20);
    assert_eq!(trades[1].seller_acc_no, "B");
    assert_eq!(book.ltp.paisa, 1100);
    assert_eq!(book.best_ask(), Some(Price::from_paisa(1100)));
    assert_eq!(book.best_bid(), None);
    let depth = book.depth(BidOrAsk::Ask, 5);
    assert_eq!(depth, vec![(Price::from_paisa(1100), 30, 1)]);
}

#[test]
fn limit_order_rests_when_it_does_not_cross() {
    let mut book = OrderBook::new("TCS".to_string(), Price::from_paisa(1000));
    book.add_limit_order(limit(BidOrAsk::Ask, 1050, 10, "A")).unwrap();
    let (trades, msg) = book.add_limit_order(limit(BidOrAsk::Bid, 1000, 7, "X")).unwrap();
    assert!(trades.is_empty());
    assert_eq!(msg, "Limit Bid Processed.");
    assert_eq!(book.best_bid(), Some(Price::from_paisa(1000)));
    assert_eq!(book.best_ask(), Some(Price::from_paisa(1050)));
    assert_eq!(book.ltp.paisa, 1000);
    assert!(book.best_bid().unwrap() < book.best_ask().unwrap());
}

#[test]
fn partial_fill_leaves_remainder_resting_on_own_side() {
    let mut book = OrderBook::new("TCS".to_string(), Price::from_paisa(1000));
    book.add_limit_order(limit(BidOrAsk::Bid, 990, 5, "A")).unwrap();
    let (trades, msg) = book.add_limit_order(limit(BidOrAsk::Ask, 980, 8, "S")).unwrap();
    assert_eq!(msg, "Limit Ask Processed.");
    assert_eq!(trades.len(), 1);
    assert_eq!(trades[0].price.paisa, 990);
    assert_eq!(trades[0].quantity, 5);
    assert_eq!(trades[0].buyer_acc_no, "A");
    assert_eq!(trades[0].seller_acc_no, "S");
    assert_eq!(book.best_bid(), None);
    assert_eq!(book.best_ask(), Some(Price::from_paisa(980)));
    assert_eq!(book.depth(BidOrAsk::Ask, 5), vec![(Price::from_paisa(980), 3, 1)]);
}

#[test]
fn same_price_orders_fill_oldest_first() {
    let mut book = OrderBook::new("TCS".to_string(), Price::from_paisa(1000));
    book.add_limit_order(limit(BidOrAsk::Ask, 1000, 10, "FIRST")).unwrap();
    book.add_limit_order(limit(BidOrAsk::Ask, 1000, 10, "SECOND")).unwrap();
    let (trades, msg) = book.add_market_order(market(BidOrAsk::Bid, 15, "X")).unwrap();
    assert_eq!(msg, "Order Processed.");
    assert_eq!(trades.len(), 2);
    assert_eq!(trades[0].seller_acc_no, "FIRST");
    assert_eq!(trades[0].quantity, 10);
    assert_eq!(trades[1].seller_acc_no, "SECOND");
    assert_eq!(trades[1].quantity, 5);
    assert_eq!(book.depth(BidOrAsk::Ask, 5), vec![(Price::from_paisa(1000), 5, 1)]);
}

#[test]
fn market_order_on_empty_side_is_not_fulfilled_and_never_rests() {
    let mut book = OrderBook::new("TCS".to_string(), Price::from_paisa(1000));
    let (trades, msg) = book.add_market_order(market(BidOrAsk::Bid, 15, "X")).unwrap();
    assert!(trades.is_empty());
    assert_eq!(msg, "Order Cannot Be Fulfilled.");
    assert_eq!(book.best_bid(), None);
    assert_eq!(book.best_ask(), None);
    assert_eq!(book.ltp.paisa, 1000);
}

#[test]
fn market_sell_walks_down_the_bids() {
    let mut book = OrderBook::new("TCS".to_string(), Price::from_paisa(1000));
    book.add_limit_order(limit(BidOrAsk::Bid, 990, 5, "LOW")).unwrap();
    book.add_limit_order(limit(BidOrAsk::Bid, 1010, 5, "HIGH")).unwrap();
    let (trades, _) = book.add_market_order(market(BidOrAsk::Ask, 20, "S")).unwrap();
    assert_eq!(trades.len(), 2);
    assert_eq!(trades[0].price.paisa, 1010);
    assert_eq!(trades[0].buyer_acc_no, "HIGH");
    assert_eq!(trades[1].price.paisa, 990);
    assert_eq!(book.ltp.paisa, 990);
    assert_eq!(book.best_bid(), None);
    assert_eq!(book.best_ask(), None);
}

#[test]
fn depth_lists_best_levels_first() {
    let mut book = OrderBook::new("TCS".to_string(), Price::from_paisa(1000));
    for (p, q) in [(990u64, 1u64), (995, 2), (980, 3), (995, 4)] {
        book.add_limit_order(limit(BidOrAsk::Bid, p, q, "B")).unwrap();
    }
    assert_eq!(
        book.depth(BidOrAsk::Bid, 2),
        vec![(Price::from_paisa(995), 6, 2), (Price::from_paisa(990), 1, 1)]
    );
    assert!(book.fits_trade_ids(BidOrAsk::Ask));
}

#[test]
fn filled_incoming_order_marks_bracket_parent_filled() {
    let mut book = OrderBook::new("TCS".to_string(), Price::from_paisa(1000));
    book.add_limit_order(limit(BidOrAsk::Ask, 1000, 10, "A")).unwrap();
    let order = Order::builder("TCS".to_string(), Some(Price::from_paisa(1000)), 10, BidOrAsk::Bid, "X".to_string())
        .stop_loss(Price::from_paisa(900))
        .build();
    let sl = order.sl_child().unwrap();
    assert_eq!(sl.0.order_type, OrderType::StopLoss);
    assert!(!sl.is_active());
    let (trades, _) = book.add_limit_order(order).unwrap();
    assert_eq!(trades.len(), 1);
    assert_eq!(trades[0].quantity, 10);
}
