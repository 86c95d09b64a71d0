use stock_exchange_rust::domain::market::MarketTick;
use stock_exchange_rust::domain::order::BidOrAsk;
use stock_exchange_rust::domain::price::Price;
use stock_exchange_rust::hft::feed::TickBoard;
use stock_exchange_rust::sim::simulator::{
    draw_sim_account, draw_sim_size, regime_limit_price, sim_limit_price, MarketSpeed, PivotLevels, SimOrder,
};

fn p(x: u64) -> Price {
    Price::from_paisa(x)
}

fn levels() -> PivotLevels {
    PivotLevels { r1: p(1010), r2: p(1025), r3: p(1050), s1: p(990), s2: p(975), s3: p(950) }
}

#[test]
fn limit_prices_stay_within_bounds() {
    assert_eq!(sim_limit_price(p(100_000), 37, 500, 75_000, 135_000), 100_035);
    assert_eq!(sim_limit_price(p(100_000), 9_999, 500, 75_000, 135_000), 100_500);
    assert_eq!(sim_limit_price(p(100_000), -9_999, 500, 75_000, 135_000), 99_500);
    assert_eq!(sim_limit_price(p(80_000), -3, 0, 90_000, 135_000), 90_000);
    assert_eq!(sim_limit_price(p(200_000), 0, 1_000, 75_000, 135_002), 135_000);
    assert_eq!(sim_limit_price(p(300), 4, 10, 0, 1_000), 500);
}

#[test]
fn brackets_exit_on_the_right_levels() {
    let l = levels();
    assert_eq!(l.bracket_for(BidOrAsk::Bid, 1, 3), (p(990), p(1050)));
    assert_eq!(l.bracket_for(BidOrAsk::Ask, 2, 1), (p(1025), p(990)));
    assert_eq!(l.bracket_for(BidOrAsk::Ask, 9, 2), (p(1050), p(975)));
    for _ in 0..50 {
        let (sl, tp) = l.draw_bracket(BidOrAsk::Bid);
        assert!(sl.paisa < 1000 && tp.paisa > 1000);
        let (sl, tp) = l.draw_bracket(BidOrAsk::Ask);
        assert!(sl.paisa > 1000 && tp.paisa < 1000);
    }
}

#[test]
fn draws_stay_in_range() {
    for _ in 0..200 {
        let n = draw_sim_size();
        assert!((1..=200).contains(&n));
        let acc: u64 = draw_sim_account().parse().unwrap();
        assert!((100..=997).contains(&acc));
        let c = MarketSpeed::Normal.draw_order_count();
        assert!((10..=30).contains(&c));
        let c = MarketSpeed::Fast.draw_order_count();
        assert!((50..=250).contains(&c));
    }
    assert_eq!(MarketSpeed::Normal.toggled(), MarketSpeed::Fast);
    assert_eq!(MarketSpeed::Fast.toggled(), MarketSpeed::Normal);
}

#[test]
fn simulated_orders_build_as_drawn() {
    let d = SimOrder { side: BidOrAsk::Ask, is_market: false, price_paisa: 1005, size: 12, acc_no: "321".to_string(), bracket: Some((p(1050), p(950))) };
    let b = d.builder("TCS".to_string());
    assert_eq!(b.price, Some(p(1005)));
    assert_eq!(b.stop_loss, Some(p(1050)));
    assert_eq!(b.target, Some(p(950)));
    assert_eq!(b.bid_or_ask, BidOrAsk::Ask);
    let o = b.build();
    assert_eq!(o.sl_child().unwrap().price(), Some(p(1050)));
    let m = SimOrder { is_market: true, bracket: None, ..d };
    let b = m.builder("TCS".to_string());
    assert_eq!(b.price, None);
    assert_eq!(b.stop_loss, None);
    assert_eq!(b.size, 12);
}

fn tick(ex: &str, sym: &str, ltp: u64) -> MarketTick {
    MarketTick {
        exchange_name: ex.to_string(),
        symbol: sym.to_string(),
        ltp: p(ltp),
        best_bid: None,
        best_ask: None,
        timestamp_instant: std::time::Instant::now(),
    }
}

#[test]
fn tick_board_pairs_latest_ticks() {
    let mut board = TickBoard::new("AYUSHSE".to_string(), "BOHRASE".to_string());
    let tcs = "TCS".to_string();
    board.record(tick("AYUSHSE", "TCS", 100));
    assert!(board.pair(&tcs).is_none());
    board.record(tick("BOHRASE", "TCS", 200));
    board.record(tick("AYUSHSE", "TCS", 300));
    board.record(tick("OTHERSE", "TCS", 400));
    board.record(tick("AYUSHSE", "INFY", 500));
    let (a, b) = board.pair(&tcs).unwrap();
    assert_eq!((a.ltp.paisa, b.ltp.paisa), (300, 200));
    assert!(board.pair(&"INFY".to_string()).is_none());
    assert_eq!(board.first.len(), 2);
    assert_eq!(board.second.len(), 1);
}

#[test]
fn regime_prices_have_a_floor() {
    assert_eq!(regime_limit_price(p(224_500), 40, 3_367), 224_540);
    assert_eq!(regime_limit_price(p(224_500), -10_000, 3_367), 221_133);
    assert_eq!(regime_limit_price(p(150), -80, 100), 100);
    assert_eq!(regime_limit_price(p(150), 500, 2), 152);
}
