use stock_exchange_rust::domain::market::Market;
use stock_exchange_rust::domain::order::{BidOrAsk, Order};
use stock_exchange_rust::domain::orderbook::OrderBook;
use stock_exchange_rust::domain::price::Price;
use stock_exchange_rust::domain::registry::{OrderRegistry, UserRegistry};
use stock_exchange_rust::domain::user::User;
use stock_exchange_rust::hft::account::HftUser;

fn p(paisa: u64) -> Price {
    Price::from_paisa(paisa)
}

fn limit(price: u64, size: u64, side: BidOrAsk, acc: &str) -> Order {
    Order::new("TCS".to_string(), Some(p(price)), size, side, acc.to_string())
}

fn bracket(reg: &mut OrderRegistry, size: u64) -> usize {
    let o = Order::builder("TCS".to_string(), Some(p(100)), size, BidOrAsk::Bid, "A".to_string())
        .stop_loss(p(90))
        .target(p(120))
        .build();
    reg.add(o)
}

#[test]
fn incoming_bid_handle_sees_partial_fill_and_rests() {
    let mut book = OrderBook::new("TCS".to_string(), p(90));
    let mut reg = OrderRegistry::new();
    let s1 = reg.add(limit(100, 2, BidOrAsk::Ask, "S1"));
    let s2 = reg.add(limit(102, 2, BidOrAsk::Ask, "S2"));
    reg.place_limit(&mut book, s1).unwrap();
    reg.place_limit(&mut book, s2).unwrap();
    let o = reg.add(limit(101, 5, BidOrAsk::Bid, "B"));
    let (trades, msg) = reg.place_limit(&mut book, o).unwrap();
    assert_eq!(msg, "Limit Bid Processed.");
    assert_eq!(trades.len(), 1);
    assert_eq!(trades[0].id, 1000);
    assert_eq!(trades[0].price, p(100));
    assert_eq!(trades[0].quantity, 2);
    assert_eq!(trades[0].buyer_acc_no, "B");
    assert_eq!(trades[0].seller_acc_no, "S1");
    assert_eq!(book.ltp, p(100));
    assert_eq!(reg.filled_size(o), 2);
    assert_eq!(reg.remaining_size(o), 3);
    assert!(reg.is_resting(o));
    assert!(reg.is_filled(s1));
    assert!(!reg.is_resting(s1));
    assert_eq!(reg.remaining_size(s2), 2);
    assert_eq!(book.bids.len(), 1);
    assert_eq!(book.bids[0].orders[0].id(), reg.order(o).id());
}

#[test]
fn resting_handles_see_fills_in_time_priority() {
    let mut book = OrderBook::new("TCS".to_string(), p(90));
    let mut reg = OrderRegistry::new();
    let s1 = reg.add(limit(100, 3, BidOrAsk::Ask, "S1"));
    let s2 = reg.add(limit(100, 3, BidOrAsk::Ask, "S2"));
    reg.place_limit(&mut book, s1).unwrap();
    reg.place_limit(&mut book, s2).unwrap();
    let b = reg.add(limit(100, 4, BidOrAsk::Bid, "B"));
    let (trades, _) = reg.place_limit(&mut book, b).unwrap();
    assert_eq!(trades.len(), 2);
    assert_eq!(trades[0].quantity, 3);
    assert_eq!(trades[0].seller_acc_no, "S1");
    assert_eq!(trades[1].id, 1001);
    assert_eq!(trades[1].quantity, 1);
    assert_eq!(trades[1].seller_acc_no, "S2");
    assert!(reg.is_filled(s1));
    assert_eq!(reg.remaining_size(s2), 2);
    assert!(reg.is_resting(s2));
    assert!(reg.is_filled(b));
    assert!(!reg.is_resting(b));
    assert!(book.bids.is_empty());
    assert_eq!(book.asks[0].orders.len(), 1);
    assert_eq!(book.asks[0].orders[0].id(), reg.order(s2).id());
}

#[test]
fn incoming_ask_handle_sees_fill_against_best_bid() {
    let mut book = OrderBook::new("TCS".to_string(), p(90));
    let mut reg = OrderRegistry::new();
    let b2 = reg.add(limit(98, 2, BidOrAsk::Bid, "B2"));
    let b1 = reg.add(limit(100, 2, BidOrAsk::Bid, "B1"));
    reg.place_limit(&mut book, b2).unwrap();
    reg.place_limit(&mut book, b1).unwrap();
    let o = reg.add(limit(99, 3, BidOrAsk::Ask, "S"));
    let (trades, msg) = reg.place_limit(&mut book, o).unwrap();
    assert_eq!(msg, "Limit Ask Processed.");
    assert_eq!(trades.len(), 1);
    assert_eq!(trades[0].price, p(100));
    assert_eq!(trades[0].buyer_acc_no, "B1");
    assert_eq!(reg.remaining_size(o), 1);
    assert!(reg.is_filled(b1));
    assert_eq!(reg.filled_size(b2), 0);
    assert_eq!(book.asks[0].price, p(99));
}

#[test]
fn market_order_handles_see_fills_across_levels() {
    let mut book = OrderBook::new("TCS".to_string(), p(90));
    let mut reg = OrderRegistry::new();
    let s1 = reg.add(limit(100, 2, BidOrAsk::Ask, "S1"));
    let s2 = reg.add(limit(105, 3, BidOrAsk::Ask, "S2"));
    reg.place_limit(&mut book, s1).unwrap();
    reg.place_limit(&mut book, s2).unwrap();
    let o = reg.add(Order::new("TCS".to_string(), None, 4, BidOrAsk::Bid, "B".to_string()));
    let (trades, msg) = reg.place_market(&mut book, o).unwrap();
    assert_eq!(msg, "Order Processed.");
    assert_eq!(trades.len(), 2);
    assert_eq!(trades[1].price, p(105));
    assert_eq!(trades[1].quantity, 2);
    assert_eq!(book.ltp, p(105));
    assert!(reg.is_filled(o));
    assert!(reg.is_filled(s1));
    assert_eq!(reg.remaining_size(s2), 1);
}

#[test]
fn market_ask_keeps_unfilled_part_on_its_handle() {
    let mut book = OrderBook::new("TCS".to_string(), p(90));
    let mut reg = OrderRegistry::new();
    let b1 = reg.add(limit(100, 2, BidOrAsk::Bid, "B1"));
    reg.place_limit(&mut book, b1).unwrap();
    let o = reg.add(Order::new("TCS".to_string(), None, 5, BidOrAsk::Ask, "S".to_string()));
    let (trades, _) = reg.place_market(&mut book, o).unwrap();
    assert_eq!(trades.len(), 1);
    assert_eq!(reg.filled_size(o), 2);
    assert_eq!(reg.remaining_size(o), 3);
    assert!(!reg.is_resting(o));
    assert!(book.bids.is_empty());
    assert!(book.asks.is_empty());
}

#[test]
fn exits_wait_for_parent_then_activate_together() {
    let mut reg = OrderRegistry::new();
    let parent = bracket(&mut reg, 10);
    let sl = reg.sl_child(parent).unwrap();
    let tp = reg.tp_child(parent).unwrap();
    assert_eq!(sl, parent + 1);
    assert_eq!(tp, parent + 2);
    assert!(reg.is_active(parent));
    assert!(!reg.is_active(sl));
    assert!(!reg.is_active(tp));
    reg.fill(parent, 4);
    assert!(!reg.is_active(sl));
    reg.fill(parent, 6);
    assert_eq!(reg.filled_size(parent), 10);
    assert!(reg.is_active(parent));
    assert!(reg.is_active(sl));
    assert!(reg.is_active(tp));
}

#[test]
fn exit_fill_ends_the_whole_bracket() {
    let mut reg = OrderRegistry::new();
    let parent = bracket(&mut reg, 10);
    let sl = reg.sl_child(parent).unwrap();
    let tp = reg.tp_child(parent).unwrap();
    reg.fill(parent, 10);
    reg.fill(sl, 10);
    assert!(!reg.is_active(tp));
    assert!(!reg.is_active(sl));
    assert!(!reg.is_active(parent));
}

#[test]
fn cancel_through_an_exit_ends_every_member() {
    let mut reg = OrderRegistry::new();
    let parent = bracket(&mut reg, 10);
    let tp = reg.tp_child(parent).unwrap();
    let sl = reg.sl_child(parent).unwrap();
    reg.cancel(tp);
    assert!(!reg.is_active(parent));
    assert!(!reg.is_active(sl));
    assert!(!reg.is_active(tp));
    reg.fill(parent, 10);
    assert!(!reg.is_active(sl));
    assert!(!reg.is_active(tp));
}

#[test]
fn cancel_outside_a_bracket_changes_nothing() {
    let mut reg = OrderRegistry::new();
    let h = reg.add(limit(100, 5, BidOrAsk::Bid, "A"));
    reg.cancel(h);
    assert!(reg.is_active(h));
    assert_eq!(reg.sl_child(h), None);
}

#[test]
fn fill_through_exit_handle_is_seen_through_parent() {
    let mut reg = OrderRegistry::new();
    let parent = bracket(&mut reg, 10);
    let sl = reg.sl_child(parent).unwrap();
    reg.fill(sl, 7);
    assert_eq!(reg.filled_size(reg.sl_child(parent).unwrap()), 7);
    assert_eq!(reg.order(sl).filled_size(), 7);
}

#[test]
fn rename_is_seen_through_every_handle() {
    let mut users = UserRegistry::new();
    let h = users.add(User::new("u1".to_string(), "Asha".to_string()));
    let other = users.add(User::new("u2".to_string(), "Ravi".to_string()));
    let same = h;
    users.rename(h, "Asha K".to_string());
    assert_eq!(users.name(same), "Asha K");
    assert_eq!(users.id(same), "u1");
    assert_eq!(users.name(other), "Ravi");
}

#[test]
fn prices_order_by_paisa() {
    assert!(p(5) < p(7));
    assert!(p(700) > p(699));
    assert!(p(42) <= p(42));
    assert_eq!(p(3).partial_cmp(&p(3)), Some(std::cmp::Ordering::Equal));
}

#[test]
fn trader_with_restored_balance() {
    let h = HftUser::new_with_balance("HFT_BOT_01".to_string(), "Bot".to_string(), 12_345);
    assert_eq!(h.cash_balance_paisa(), 12_345);
    assert_eq!(h.initial_cash_paisa, 12_345);
    assert_eq!(h.account_number(), "999");
    assert_eq!(h.realized_pnl_paisa(), 0);
    assert_eq!(h.user.name(), "Bot");
}

#[test]
fn market_routes_recorded_orders_and_refuses_unknown_symbols() {
    let mut m = Market::new("X".to_string());
    m.add_stock("TCS".to_string(), p(100));
    let mut reg = OrderRegistry::new();
    let s = reg.add(limit(100, 4, BidOrAsk::Ask, "S"));
    m.place_recorded(&mut reg, s).unwrap();
    assert!(reg.is_resting(s));
    let b = reg.add(Order::new("TCS".to_string(), None, 3, BidOrAsk::Bid, "B".to_string()));
    let (trades, msg) = m.place_recorded(&mut reg, b).unwrap();
    assert_eq!(msg, "Order Processed.");
    assert_eq!(trades.len(), 1);
    assert_eq!(reg.filled_size(b), 3);
    assert_eq!(reg.filled_size(s), 3);
    assert_eq!(reg.remaining_size(s), 1);
    let w = reg.add(Order::new("WIPRO".to_string(), Some(p(50)), 1, BidOrAsk::Bid, "B".to_string()));
    let err = m.place_recorded(&mut reg, w).unwrap_err();
    assert_eq!(err, "Ticker 'WIPRO' not found in market.");
    assert_eq!(reg.filled_size(w), 0);
    assert!(!reg.is_resting(w));
}
