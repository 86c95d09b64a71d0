use stock_exchange_rust::api::EngineSwitches;
use stock_exchange_rust::domain::price::Price;
use stock_exchange_rust::domain::trade::Trade;
use stock_exchange_rust::events::TradeEvent;
use stock_exchange_rust::sim::simulator::snap_to_tick;
use stock_exchange_rust::stats::{calculate_median_duration, upper_median};
use stock_exchange_rust::api::{order_rate_check, rate_limit_key};
use stock_exchange_rust::events::VolumeEvent;

#[test]
fn median_of_durations() {
    assert_eq!(calculate_median_duration(vec![]), 0);
    assert_eq!(calculate_median_duration(vec![5, 1, 3]), 3);
    assert_eq!(calculate_median_duration(vec![8, 1, 4, 3]), 3);
    assert_eq!(calculate_median_duration(vec![u64::MAX, u64::MAX]), u64::MAX);
    assert_eq!(upper_median(&vec![8, 1, 4, 3]), 4);
    assert_eq!(upper_median(&vec![]), 0);
}

#[test]
fn simulated_prices_snap_to_five_paisa() {
    assert_eq!(snap_to_tick(345_003), 345_000);
    assert_eq!(snap_to_tick(345_005), 345_005);
    assert_eq!(snap_to_tick(12), 500);
}

#[test]
fn trade_event_carries_the_trade() {
    let t = Trade::new(1042, "TCS".to_string(), Price::from_paisa(345_000), 7, "B".to_string(), "S".to_string());
    let e = TradeEvent::from_trade(&t, 1_700_000_000_000);
    assert_eq!(e.trade_id, "1042");
    assert_eq!(e.symbol, "TCS");
    assert_eq!(e.price_paisa, 345_000);
    assert_eq!(e.quantity, 7);
    assert_eq!(e.buyer_acc_no, "B");
    assert_eq!(e.seller_acc_no, "S");
    assert_eq!(e.timestamp_millis, 1_700_000_000_000);
}

#[test]
fn hft_switch_needs_the_simulator() {
    let s = EngineSwitches::new();
    let err = s.toggle_hft().unwrap_err();
    assert_eq!(err, "Cannot enable HFT while simulator is off");
    let (s, armed) = s.toggle_sim();
    assert!(s.sim_active && !s.hft_active);
    assert_eq!(armed, Some(1));
    let (s, armed) = s.toggle_hft().unwrap();
    assert!(s.hft_active);
    assert_eq!(armed, Some(1));
    let (s, armed) = s.toggle_sim();
    assert!(!s.sim_active && !s.hft_active);
    assert_eq!(armed, None);
    assert_eq!((s.sim_session, s.hft_session), (2, 2));
    let (s, _) = s.toggle_sim();
    let (s, _) = s.toggle_hft().unwrap();
    let s = s.stop_all();
    assert!(!s.sim_active && !s.hft_active);
}

#[test]
fn time_outs_only_end_their_own_session() {
    let (s, armed) = EngineSwitches::new().toggle_sim();
    let first = armed.unwrap();
    let (s, _) = s.toggle_sim();
    let (s, armed) = s.toggle_sim();
    let second = armed.unwrap();
    assert_ne!(first, second);
    let after_stale = s.sim_timed_out(first);
    assert_eq!(after_stale, s);
    let (s, hft_armed) = s.toggle_hft().unwrap();
    let stopped = s.sim_timed_out(second);
    assert!(!stopped.sim_active && !stopped.hft_active);
    let hft_stopped = s.hft_timed_out(hft_armed.unwrap());
    assert!(hft_stopped.sim_active && !hft_stopped.hft_active);
    assert_eq!(s.hft_timed_out(hft_armed.unwrap() + 7), s);
}

#[test]
fn sessions_wrap_around() {
    let s = EngineSwitches { sim_active: false, hft_active: false, sim_session: u64::MAX, hft_session: u64::MAX };
    let (s, armed) = s.toggle_sim();
    assert_eq!(armed, Some(0));
    let (s, _) = s.toggle_sim();
    assert_eq!((s.sim_session, s.hft_session), (1, 0));
}

#[test]
fn order_rate_limit() {
    let first = order_rate_check(1);
    assert!(first.start_window && !first.rejected);
    let twentieth = order_rate_check(20);
    assert!(!twentieth.start_window && !twentieth.rejected);
    let next = order_rate_check(21);
    assert!(!next.start_window && next.rejected);
    assert_eq!(rate_limit_key("10.0.0.7"), "rate_limit:api_orders:10.0.0.7");
}

#[test]
fn stream_entries_frame_events() {
    let t = Trade::new(1001, "INFY".to_string(), Price::from_paisa(152_040), 25, "999".to_string(), "321".to_string());
    let e = TradeEvent::from_trade(&t, 5).stream_entry();
    assert_eq!(e.stream, "trades:stream");
    assert_eq!(e.max_len, 1000);
    let fields: Vec<(&str, &str)> = e.fields.iter().map(|(a, b)| (a.as_str(), b.as_str())).collect();
    assert_eq!(
        fields,
        vec![
            ("trade_id", "1001"),
            ("symbol", "INFY"),
            ("price_paisa", "152040"),
            ("quantity", "25"),
            ("buyer", "999"),
            ("seller", "321")
        ]
    );
    let v = VolumeEvent {
        exchange_name: "AYUSHSE".to_string(),
        symbol: "TCS".to_string(),
        ltp_paisa: 345_000,
        cumulative_trades: 12,
        timestamp_millis: 9,
    };
    let e = v.stream_entry();
    assert_eq!(e.stream, "volume:stream");
    assert_eq!(e.max_len, 500);
    assert_eq!(e.fields[2], ("ltp_paisa".to_string(), "345000".to_string()));
    assert_eq!(e.fields[3], ("cumulative_trades".to_string(), "12".to_string()));
    assert_eq!(e.fields.len(), 4);
}
