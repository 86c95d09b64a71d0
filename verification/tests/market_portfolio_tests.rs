use std::sync::mpsc;

use stock_exchange_rust::channel::LoggedSender;
use stock_exchange_rust::domain::market::Market;
use stock_exchange_rust::domain::order::{BidOrAsk, Order};
use stock_exchange_rust::domain::portfolio::Portfolio;
use stock_exchange_rust::domain::price::Price;
use stock_exchange_rust::domain::trade::Trade;
use stock_exchange_rust::domain::user::User;
use stock_exchange_rust::domain::orderbook::OrderBook;

fn order(sym: &str, price: Option<u64>, size: u64, side: BidOrAsk, acc: &str) -> Order {
    Order::new(sym.to_string(), price.map(Price::from_paisa), size, side, acc.to_string())
}

#[test]
fn market_routes_by_symbol_and_refuses_unknown_tickers() {
    let mut m = Market::new("AYUSHSE".to_string());
    m.add_stock("TCS".to_string(), Price::from_paisa(345000));
    m.add_stock("INFY".to_string(), Price::from_paisa(152040));
    let err = m.place_limit_order(order("WIPRO", Some(100), 1, BidOrAsk::Bid, "1")).unwrap_err();
    assert_eq!(err, "Ticker 'WIPRO' not found in market.");
    let err = m.place_market_order(order("WIPRO", None, 1, BidOrAsk::Bid, "1")).unwrap_err();
    assert_eq!(err, "Ticker 'WIPRO' not found in market.");
    m.place_limit_order(order("TCS", Some(345000), 10, BidOrAsk::Ask, "S")).unwrap();
    let (trades, msg) = m.place_market_order(order("TCS", None, 4, BidOrAsk::Bid, "B")).unwrap();
    assert_eq!(msg, "Order Processed.");
    assert_eq!(trades.len(), 1);
    assert_eq!(trades[0].symbol, "TCS");
    let tcs = m.get_orderbook("TCS").unwrap();
    assert_eq!(tcs.best_ask(), Some(Price::from_paisa(345000)));
    assert_eq!(m.get_orderbook("INFY").unwrap().ltp.paisa, 152040);
    assert!(m.get_orderbook("WIPRO").is_none());
}

#[test]
fn add_stock_replaces_an_existing_book() {
    let mut m = Market::new("X".to_string());
    m.add_stock("TCS".to_string(), Price::from_paisa(100));
    m.place_limit_order(order("TCS", Some(100), 10, BidOrAsk::Ask, "S")).unwrap();
    m.add_stock("TCS".to_string(), Price::from_paisa(200));
    assert_eq!(m.books.len(), 1);
    let b = m.get_orderbook("TCS").unwrap();
    assert_eq!(b.ltp.paisa, 200);
    assert_eq!(b.best_ask(), None);
}

#[test]
fn submit_order_routes_by_price() {
    let mut m = Market::new("X".to_string());
    m.add_stock("TCS".to_string(), Price::from_paisa(100));
    let o = order("TCS", Some(100), 10, BidOrAsk::Ask, "S");
    assert!(m.accepts(&o, true));
    let (_, msg) = m.submit_order(o).unwrap();
    assert_eq!(msg, "Limit Ask Processed.");
    let (_, msg) = m.submit_order(order("TCS", None, 20, BidOrAsk::Bid, "B")).unwrap();
    assert_eq!(msg, "Order Processed.");
    assert_eq!(m.get_orderbook("TCS").unwrap().best_ask(), None);
    assert!(!m.accepts(&order("NONE", None, 1, BidOrAsk::Bid, "B"), false));
}

#[test]
fn ticker_subscription_sends_best_prices() {
    let mut m = Market::new("BOHRASE".to_string());
    m.add_stock("TCS".to_string(), Price::from_paisa(1000));
    m.place_limit_order(order("TCS", Some(990), 1, BidOrAsk::Bid, "B")).unwrap();
    m.place_limit_order(order("TCS", Some(1010), 1, BidOrAsk::Ask, "S")).unwrap();
    let (tx, rx) = mpsc::channel();
    let mut sender = LoggedSender::new(tx);
    m.subscribe_ticker("TCS", &mut sender).unwrap();
    let tick = rx.recv().unwrap();
    assert_eq!(tick.exchange_name, "BOHRASE");
    assert_eq!(tick.symbol, "TCS");
    assert_eq!(tick.ltp.paisa, 1000);
    assert_eq!(tick.best_bid, Some(Price::from_paisa(990)));
    assert_eq!(tick.best_ask, Some(Price::from_paisa(1010)));
    let err = m.subscribe_ticker("INFY", &mut sender).unwrap_err();
    assert_eq!(err, "Stock ticker 'INFY' not found for subscription.");
    assert!(rx.try_recv().is_err());
}

fn portfolio(balance: u64) -> Portfolio {
    Portfolio::new(User::new("U".to_string(), "User".to_string()), "42".to_string(), balance)
}

#[test]
fn buy_and_sell_settlement_fifo() {
    let mut p = portfolio(10_000);
    p.apply_buy_trade("TCS", 10, Price::from_paisa(100));
    assert_eq!(p.balance_paisa, 9_000);
    p.apply_buy_trade("TCS", 5, Price::from_paisa(200));
    assert_eq!(p.balance_paisa, 8_000);
    assert_eq!(p.total_shares("TCS"), 15);
    p.apply_sell_trade("TCS", 12, Price::from_paisa(300));
    assert_eq!(p.balance_paisa, 11_600);
    assert_eq!(p.total_shares("TCS"), 3);
    assert_eq!(p.holdings[0].lots.len(), 1);
    assert_eq!(p.holdings[0].lots[0].buy_price.paisa, 200);
    assert_eq!(p.total_shares("INFY"), 0);
}

#[test]
fn unaffordable_buy_keeps_the_balance_but_adds_the_shares() {
    let mut p = portfolio(50);
    p.apply_buy_trade("TCS", 10, Price::from_paisa(100));
    assert_eq!(p.balance_paisa, 50);
    assert_eq!(p.total_shares("TCS"), 10);
}

#[test]
fn selling_what_was_bought_restores_shares_and_cash() {
    let mut p = portfolio(10_000);
    p.apply_buy_trade("TCS", 7, Price::from_paisa(100));
    p.apply_sell_trade("TCS", 7, Price::from_paisa(100));
    assert_eq!(p.balance_paisa, 10_000);
    assert_eq!(p.total_shares("TCS"), 0);
}

#[test]
fn pre_trade_checks_report_exact_shortfalls() {
    let mut m = Market::new("X".to_string());
    m.add_stock("TCS".to_string(), Price::from_paisa(1000));
    let p = portfolio(999);
    let err = p.validate_order(&order("TCS", None, 1, BidOrAsk::Bid, "42"), &m).unwrap_err();
    assert_eq!(err, "Insufficient funds: Required ₹10.00, Available ₹9.99");
    let err = p.validate_order(&order("TCS", None, 3, BidOrAsk::Ask, "42"), &m).unwrap_err();
    assert_eq!(err, "Insufficient shares for 'TCS': Required 3, Available 0");
    let err = p.validate_order(&order("WIPRO", None, 1, BidOrAsk::Bid, "42"), &m).unwrap_err();
    assert_eq!(err, "Ticker 'WIPRO' not found in market.");
    assert!(p.validate_order(&order("TCS", Some(999), 1, BidOrAsk::Bid, "42"), &m).is_ok());
}

#[test]
fn refused_order_never_reaches_the_market() {
    let mut m = Market::new("X".to_string());
    m.add_stock("TCS".to_string(), Price::from_paisa(1000));
    m.place_limit_order(order("TCS", Some(1000), 5, BidOrAsk::Ask, "S")).unwrap();
    let mut p = portfolio(10);
    let err = p.dispatch_market_order(order("TCS", None, 5, BidOrAsk::Bid, "42"), &mut m).unwrap_err();
    assert!(err.starts_with("Insufficient funds"));
    assert!(p.open_orders.is_empty());
    assert_eq!(m.get_orderbook("TCS").unwrap().depth(BidOrAsk::Ask, 5), vec![(Price::from_paisa(1000), 5, 1)]);
}

#[test]
fn dispatch_tracks_open_orders_until_filled() {
    let mut m = Market::new("X".to_string());
    m.add_stock("TCS".to_string(), Price::from_paisa(1000));
    m.place_limit_order(order("TCS", Some(1000), 5, BidOrAsk::Ask, "S")).unwrap();
    let mut p = portfolio(1_000_000);
    let (trades, _) = p.dispatch_limit_order(order("TCS", Some(1000), 5, BidOrAsk::Bid, "42"), &mut m).unwrap();
    assert_eq!(trades.len(), 1);
    assert!(p.open_orders.is_empty());
    let (trades, msg) = p.dispatch_limit_order(order("TCS", Some(990), 5, BidOrAsk::Bid, "42"), &mut m).unwrap();
    assert!(trades.is_empty());
    assert_eq!(msg, "Limit Bid Processed.");
    assert_eq!(p.open_orders.len(), 1);
    assert_eq!(p.open_orders[0].symbol, "TCS");
    assert_eq!(p.open_orders[0].orders.len(), 1);
    let err = p.dispatch_limit_order(order("WIPRO", Some(990), 5, BidOrAsk::Bid, "42"), &mut m).unwrap_err();
    assert_eq!(err, "Ticker 'WIPRO' not found in market.");
    assert_eq!(p.open_orders.len(), 2);
}

#[test]
fn settle_trade_applies_the_side_of_this_account() {
    let mut p = portfolio(10_000);
    let buy = Trade::new(1000, "TCS".to_string(), Price::from_paisa(100), 10, "42".to_string(), "S".to_string());
    p.settle_trade(&buy);
    assert_eq!(p.balance_paisa, 9_000);
    assert_eq!(p.total_shares("TCS"), 10);
    let sell = Trade::new(1001, "TCS".to_string(), Price::from_paisa(150), 4, "B".to_string(), "42".to_string());
    p.settle_trade(&sell);
    assert_eq!(p.balance_paisa, 9_600);
    assert_eq!(p.total_shares("TCS"), 6);
    let other = Trade::new(1002, "TCS".to_string(), Price::from_paisa(150), 4, "B".to_string(), "S".to_string());
    p.settle_trade(&other);
    assert_eq!(p.balance_paisa, 9_600);
    assert_eq!(p.total_shares("TCS"), 6);
}

#[test]
fn checked_share_count() {
    let mut p = portfolio(1_000_000);
    assert_eq!(p.checked_total_shares("TCS"), Some(0));
    p.apply_buy_trade("TCS", u64::MAX - 5, Price::from_paisa(0));
    assert_eq!(p.checked_total_shares("TCS"), Some(u64::MAX - 5));
    p.apply_buy_trade("TCS", 6, Price::from_paisa(0));
    assert_eq!(p.checked_total_shares("TCS"), None);
    assert_eq!(p.checked_total_shares("INFY"), Some(0));
}

#[test]
fn book_volume_check() {
    let mut book = OrderBook::new("TCS".to_string(), Price::from_paisa(1000));
    assert!(book.check_volumes());
    book.add_limit_order(order("TCS", Some(1100), u64::MAX, BidOrAsk::Ask, "A")).unwrap();
    assert!(book.check_volumes());
    book.add_limit_order(order("TCS", Some(1100), 1, BidOrAsk::Ask, "B")).unwrap();
    assert!(!book.check_volumes());
    assert_eq!(book.depth(BidOrAsk::Bid, 5).len(), 0);
}

#[test]
fn resting_order_leaves_open_orders_once_the_book_fills_it() {
    let mut m = Market::new("X".to_string());
    m.add_stock("TCS".to_string(), Price::from_paisa(1000));
    let mut p = portfolio(1_000_000);
    p.dispatch_limit_order(order("TCS", Some(990), 5, BidOrAsk::Bid, "42"), &mut m).unwrap();
    assert_eq!(p.open_orders.len(), 1);
    m.place_limit_order(order("TCS", Some(990), 3, BidOrAsk::Ask, "S")).unwrap();
    p.refresh_open_orders(m.get_orderbook("TCS").unwrap());
    assert_eq!(p.open_orders.len(), 1);
    assert_eq!(p.open_orders[0].orders[0].filled_size(), 3);
    m.place_limit_order(order("TCS", Some(990), 2, BidOrAsk::Ask, "S")).unwrap();
    p.refresh_open_orders(m.get_orderbook("TCS").unwrap());
    assert!(p.open_orders.is_empty());
}

#[test]
fn route_all_places_each_order_in_turn() {
    let mut m = Market::new("X".to_string());
    m.add_stock("TCS".to_string(), Price::from_paisa(1000));
    let orders = vec![
        order("TCS", Some(1000), 5, BidOrAsk::Ask, "S"),
        order("WIPRO", Some(1000), 5, BidOrAsk::Bid, "B"),
        order("TCS", None, 3, BidOrAsk::Bid, "B"),
        order("TCS", Some(1010), 4, BidOrAsk::Bid, "C"),
    ];
    let (trades, nanos) = m.route_all(&orders);
    assert_eq!(nanos.len(), 4);
    assert_eq!(trades.len(), 2);
    assert_eq!(trades[0].quantity, 3);
    assert_eq!(trades[0].buyer_acc_no, "B");
    assert_eq!(trades[1].quantity, 2);
    assert_eq!(trades[1].buyer_acc_no, "C");
    assert_eq!(m.get_orderbook("TCS").unwrap().depth(BidOrAsk::Bid, 5), vec![(Price::from_paisa(1010), 2, 1)]);
    let err = m.route_order(order("WIPRO", None, 1, BidOrAsk::Ask, "S")).unwrap_err();
    assert_eq!(err, "Ticker 'WIPRO' not found in market.");
}

#[test]
fn dispatch_drops_orders_the_book_filled_since() {
    let mut m = Market::new("X".to_string());
    m.add_stock("TCS".to_string(), Price::from_paisa(1000));
    let mut p = portfolio(1_000_000);
    p.dispatch_limit_order(order("TCS", Some(990), 5, BidOrAsk::Bid, "42"), &mut m).unwrap();
    m.place_limit_order(order("TCS", Some(990), 5, BidOrAsk::Ask, "S")).unwrap();
    p.dispatch_limit_order(order("TCS", Some(980), 1, BidOrAsk::Bid, "42"), &mut m).unwrap();
    assert_eq!(p.open_orders.len(), 1);
    assert_eq!(p.open_orders[0].orders.len(), 1);
    assert_eq!(p.open_orders[0].orders[0].price(), Some(Price::from_paisa(980)));
}
