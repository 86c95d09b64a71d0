use std::sync::mpsc;

use stock_exchange_rust::domain::market::MarketTick;
use stock_exchange_rust::domain::order::{BidOrAsk, Order};
use stock_exchange_rust::domain::price::Price;
use stock_exchange_rust::hft::account::HftUser;
use stock_exchange_rust::hft::arbitrage::{decide_tick, spread_paisa, CrossExchangeArbitrage, TickDecision, Venue};
use stock_exchange_rust::hft::order_router::OrderRouter;

fn tick(ex: &str, ltp: u64, bid: Option<u64>, ask: Option<u64>) -> MarketTick {
    MarketTick {
        exchange_name: ex.to_string(),
        symbol: "TCS".to_string(),
        ltp: Price::from_paisa(ltp),
        best_bid: bid.map(Price::from_paisa),
        best_ask: ask.map(Price::from_paisa),
        timestamp_instant: std::time::Instant::now(),
    }
}

#[test]
fn billion_capital_account() {
    let u = HftUser::new_with_billion_capital("HFT".to_string(), "Bot".to_string());
    assert_eq!(u.account_number(), "999");
    assert_eq!(u.cash_balance_paisa(), 100_000_000_000);
    assert_eq!(u.realized_pnl_paisa(), 0);
    assert_eq!(u.total_shares("TCS"), 0);
    assert_eq!(u.user.name(), "Bot");
}

#[test]
fn router_sends_to_registered_exchanges_only() {
    let (tx, rx) = mpsc::sync_channel::<Order>(4);
    let mut r = OrderRouter::new();
    r.register_exchange("AYUSHSE".to_string(), tx);
    r.send_order("AYUSHSE", Order::new("TCS".to_string(), None, 3, BidOrAsk::Bid, "999".to_string())).unwrap();
    assert_eq!(r.routed_order_count, 1);
    assert_eq!(rx.recv().unwrap().size(), 3);
    let err = r.send_order("NOPE", Order::new("TCS".to_string(), None, 3, BidOrAsk::Bid, "999".to_string())).unwrap_err();
    assert_eq!(err, "Exchange 'NOPE' channel not found");
    assert_eq!(r.routed_order_count, 1);
    drop(rx);
    assert!(r.send_order("AYUSHSE", Order::new("TCS".to_string(), None, 3, BidOrAsk::Bid, "999".to_string())).is_err());
    assert_eq!(r.routed_order_count, 1);
}

fn engine() -> (CrossExchangeArbitrage, mpsc::Receiver<Order>, mpsc::Receiver<Order>) {
    let (ta, ra) = mpsc::sync_channel::<Order>(16);
    let (tb, rb) = mpsc::sync_channel::<Order>(16);
    let mut router = OrderRouter::new();
    router.register_exchange("AYUSHSE".to_string(), ta);
    router.register_exchange("BOHRASE".to_string(), tb);
    let user = HftUser::new_with_billion_capital("HFT".to_string(), "Bot".to_string());
    (CrossExchangeArbitrage::new("TCS".to_string(), user, router), ra, rb)
}

#[test]
fn arbitrage_buys_cheap_and_sells_dear() {
    let (mut e, ra, rb) = engine();
    let a = tick("AYUSHSE", 1000, Some(990), Some(1000));
    let b = tick("BOHRASE", 1200, Some(1150), Some(1210));
    let report = e.on_market_tick(&a, &b);
    assert_eq!(report.current_spread_paisa, 150);
    let o = report.active_opportunity.unwrap();
    assert_eq!(o.buy_exchange, "AYUSHSE");
    assert_eq!(o.sell_exchange, "BOHRASE");
    assert_eq!(o.buy_price.paisa, 1000);
    assert_eq!(o.sell_price.paisa, 1150);
    assert_eq!(o.spread_paisa, 150);
    assert_eq!(report.batch_size, 100);
    assert_eq!(report.total_trades, 1);
    assert_eq!(report.winning_trades, 1);
    assert_eq!(report.ayushse_ltp.paisa, 1000);
    assert_eq!(report.bohrase_ltp.paisa, 1200);
    let buy = ra.try_recv().unwrap();
    assert_eq!(buy.bid_or_ask(), BidOrAsk::Bid);
    assert_eq!(buy.price(), None);
    assert_eq!(buy.size(), 100);
    assert_eq!(buy.acc_no(), "999");
    let sell = rb.try_recv().unwrap();
    assert_eq!(sell.bid_or_ask(), BidOrAsk::Ask);
    assert_eq!(e.router.routed_order_count, 2);
}

#[test]
fn spread_below_threshold_does_nothing_without_inventory() {
    let (mut e, ra, rb) = engine();
    let a = tick("AYUSHSE", 1000, Some(990), Some(1000));
    let b = tick("BOHRASE", 1050, Some(1050), Some(1060));
    let report = e.on_market_tick(&a, &b);
    assert_eq!(report.current_spread_paisa, 50);
    assert!(report.active_opportunity.is_none());
    assert_eq!(report.batch_size, 0);
    assert!(ra.try_recv().is_err());
    assert!(rb.try_recv().is_err());
}

#[test]
fn each_tick_records_its_latency() {
    let (mut e, _ra, _rb) = engine();
    let a = tick("AYUSHSE", 1000, Some(990), Some(1000));
    let b = tick("BOHRASE", 1050, Some(1050), Some(1060));
    let r1 = e.on_market_tick(&a, &b);
    assert_eq!(e.latency_history, vec![r1.hft_internal_latency]);
    assert_eq!(e.hft_internal_latency, r1.hft_internal_latency);
    assert_eq!(r1.hft_median_latency, r1.hft_internal_latency);
    let r2 = e.on_market_tick(&a, &b);
    assert_eq!(e.latency_history, vec![r1.hft_internal_latency, r2.hft_internal_latency]);
    assert_eq!(r2.hft_median_latency, r1.hft_internal_latency.max(r2.hft_internal_latency));
}

#[test]
fn profit_equal_to_the_threshold_does_not_trade() {
    let (mut e, ra, rb) = engine();
    let a = tick("AYUSHSE", 100, None, Some(100));
    let b = tick("BOHRASE", 200, Some(200), None);
    let report = e.on_market_tick(&a, &b);
    assert_eq!(report.current_spread_paisa, 100);
    assert!(report.active_opportunity.is_none());
    assert_eq!(report.batch_size, 0);
    assert_eq!(report.total_trades, 0);
    assert!(ra.try_recv().is_err());
    assert!(rb.try_recv().is_err());
}

#[test]
fn long_inventory_is_flushed_at_the_best_bid() {
    let (mut e, ra, rb) = engine();
    e.user.portfolio.apply_buy_trade("TCS", 250, Price::from_paisa(1000));
    let a = tick("AYUSHSE", 1000, Some(990), Some(1000));
    let b = tick("BOHRASE", 1000, Some(995), Some(1005));
    let report = e.on_market_tick(&a, &b);
    assert_eq!(report.unified_inventory, 250);
    assert!(report.active_opportunity.is_none());
    assert!(ra.try_recv().is_err());
    let flush = rb.try_recv().unwrap();
    assert_eq!(flush.bid_or_ask(), BidOrAsk::Ask);
    assert_eq!(flush.size(), 100);
}

#[test]
fn decisions_follow_the_rules() {
    let a = tick("A", 1000, Some(1300), Some(1000));
    let b = tick("B", 1000, Some(1200), Some(1100));
    assert_eq!(spread_paisa(&a, &b), 200);
    assert_eq!(decide_tick(&a, &b, 0, 100, 1000, 100), TickDecision::Arbitrage { buy_on: Venue::A, net_paisa: 200 });
    let a2 = tick("A", 1000, Some(1300), Some(1250));
    assert_eq!(spread_paisa(&a2, &b), 200);
    assert_eq!(decide_tick(&a2, &b, 0, 100, 1000, 100), TickDecision::Arbitrage { buy_on: Venue::B, net_paisa: 200 });
    assert_eq!(decide_tick(&a2, &b, 0, 300, 1000, 100), TickDecision::Hold);
    assert_eq!(decide_tick(&a2, &b, 0, 200, 1000, 100), TickDecision::Hold);
    assert_eq!(decide_tick(&a2, &b, 0, 199, 1000, 100), TickDecision::Arbitrage { buy_on: Venue::B, net_paisa: 200 });
    assert_eq!(decide_tick(&a, &b, 1000, 100, 1000, 100), TickDecision::Flush { side: BidOrAsk::Ask, on: Venue::A, qty: 100 });
    let c = tick("C", 1000, None, None);
    let d = tick("D", 1000, None, Some(900));
    assert_eq!(spread_paisa(&c, &d), 0);
    assert_eq!(decide_tick(&c, &d, -30, 100, 1000, 100), TickDecision::Flush { side: BidOrAsk::Bid, on: Venue::B, qty: 30 });
    assert_eq!(decide_tick(&c, &d, 0, 100, 1000, 100), TickDecision::Hold);
}

#[test]
fn latency_history_keeps_the_latest_thousand() {
    let (mut e, _ra, _rb) = engine();
    assert_eq!(e.record_latency(30), 30);
    assert_eq!(e.record_latency(10), 30);
    assert_eq!(e.record_latency(20), 20);
    for i in 0..1000u64 {
        e.record_latency(i);
    }
    assert_eq!(e.latency_history.len(), 1000);
    assert_eq!(e.latency_history[0], 0);
    assert_eq!(e.hft_internal_latency, 999);
}
