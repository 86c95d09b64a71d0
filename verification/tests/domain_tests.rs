use stock_exchange_rust::domain::order::{BidOrAsk, BracketState, Order, OrderType};
use stock_exchange_rust::domain::price::{money_string, Price};
use stock_exchange_rust::domain::user::User;
use stock_exchange_rust::text::{decimal_string, zero_padded_string};

#[test]
fn price_constructors_and_display() {
    assert_eq!(Price::from_rupees_paisa(150, 25).paisa, 15025);
    assert_eq!(Price::from_paisa(15025).display(), "₹150.25");
    assert_eq!(Price::from_paisa(5).display(), "₹0.05");
    assert_eq!(money_string(100_000_000_000), "₹1000000000.00");
    assert!(Price::from_paisa(10) < Price::from_paisa(11));
}

#[test]
fn decimal_text() {
    assert_eq!(decimal_string(0), "0");
    assert_eq!(decimal_string(1234567890), "1234567890");
    assert_eq!(decimal_string(u64::MAX), u64::MAX.to_string());
    assert_eq!(zero_padded_string(7, 2), "07");
    assert_eq!(zero_padded_string(123, 2), "123");
}

#[test]
fn new_order_has_fresh_sixteen_digit_id() {
    let o = Order::new("TCS".to_string(), Some(Price::from_paisa(100)), 10, BidOrAsk::Bid, "7".to_string());
    let id = o.id();
    assert_eq!(id.len(), 16);
    assert!(id.chars().all(|c| c.is_ascii_digit()));
    assert!(!id.starts_with('0'));
    assert_eq!(o.symbol(), "TCS");
    assert_eq!(o.price(), Some(Price::from_paisa(100)));
    assert_eq!(o.size(), 10);
    assert_eq!(o.filled_size(), 0);
    assert_eq!(o.remaining_size(), 10);
    assert!(!o.is_filled());
    assert_eq!(o.bid_or_ask(), BidOrAsk::Bid);
    assert_eq!(o.acc_no(), "7");
    assert_eq!(o.0.order_type, OrderType::Limit);
    assert!(o.0.bracket_state.is_none());
    assert!(o.sl_child().is_none());
    assert!(o.tp_child().is_none());
    assert!(o.is_active());
}

#[test]
fn bracket_exits_activate_when_parent_fills() {
    let mut o = Order::builder("TCS".to_string(), Some(Price::from_paisa(1000)), 10, BidOrAsk::Bid, "7".to_string())
        .stop_loss(Price::from_paisa(950))
        .target(Price::from_paisa(1100))
        .build();
    let sl = o.sl_child().unwrap();
    let tp = o.tp_child().unwrap();
    assert_eq!(sl.bid_or_ask(), BidOrAsk::Ask);
    assert_eq!(tp.bid_or_ask(), BidOrAsk::Ask);
    assert_eq!(sl.price(), Some(Price::from_paisa(950)));
    assert_eq!(tp.price(), Some(Price::from_paisa(1100)));
    assert_eq!(tp.0.order_type, OrderType::Target);
    assert_ne!(sl.id(), o.id());
    assert!(!sl.is_active());
    assert!(!tp.is_active());
    o.fill(4);
    assert!(!o.sl_child().unwrap().is_active());
    o.fill(6);
    assert!(o.is_filled());
    assert!(o.sl_child().unwrap().is_active());
    assert!(o.tp_child().unwrap().is_active());
    assert_eq!(o.0.bracket_state, Some(BracketState { is_parent_filled: true, is_bracket_cancelled: false }));
}

#[test]
fn cancelling_a_bracket_deactivates_all_its_orders() {
    let mut o = Order::builder("TCS".to_string(), Some(Price::from_paisa(1000)), 10, BidOrAsk::Ask, "7".to_string())
        .target(Price::from_paisa(900))
        .build();
    o.fill(10);
    assert!(o.tp_child().unwrap().is_active());
    assert!(o.is_active());
    o.cancel();
    assert!(!o.is_active());
    assert!(!o.tp_child().unwrap().is_active());
    let mut plain = Order::new("TCS".to_string(), None, 1, BidOrAsk::Bid, "7".to_string());
    plain.cancel();
    assert!(plain.is_active());
}

#[test]
fn order_clone_is_equal_field_by_field() {
    let o = Order::builder("TCS".to_string(), None, 3, BidOrAsk::Bid, "9".to_string()).stop_loss(Price::from_paisa(5)).build();
    let c = o.clone();
    assert_eq!(c.id(), o.id());
    assert_eq!(c.sl_child().unwrap().id(), o.sl_child().unwrap().id());
}

#[test]
fn side_display_and_user_rename() {
    assert_eq!(BidOrAsk::Bid.display(), "BID");
    assert_eq!(BidOrAsk::Ask.display(), "ASK");
    let mut u = User::new("U1".to_string(), "Alice".to_string());
    u.set_name("Bob".to_string());
    assert_eq!(u.name(), "Bob");
    assert_eq!(u.id(), "U1");
}

#[test]
fn a_filled_exit_ends_its_bracket() {
    let mut o = Order::builder("TCS".to_string(), Some(Price::from_paisa(1000)), 10, BidOrAsk::Bid, "7".to_string())
        .stop_loss(Price::from_paisa(950))
        .target(Price::from_paisa(1100))
        .build();
    o.fill(10);
    let mut sl = o.sl_child().unwrap();
    let mut tp = o.tp_child().unwrap();
    assert!(sl.is_active() && tp.is_active());
    sl.fill(10);
    assert!(!sl.is_active());
    tp.0.bracket_state = sl.0.bracket_state;
    assert!(!tp.is_active());
}

#[test]
fn bracket_ids_are_distinct() {
    for _ in 0..100 {
        let o = Order::builder("TCS".to_string(), None, 1, BidOrAsk::Ask, "7".to_string())
            .stop_loss(Price::from_paisa(950))
            .target(Price::from_paisa(1100))
            .build();
        let sl = o.sl_child().unwrap().id();
        let tp = o.tp_child().unwrap().id();
        assert!(o.id() != sl && o.id() != tp && sl != tp);
        assert_eq!(o.id().len(), 16);
    }
}
