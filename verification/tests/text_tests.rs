use stock_exchange_rust::domain::market::{restore_saved_price, Market};
use stock_exchange_rust::domain::order::{BidOrAsk, Order, OrderType};
use stock_exchange_rust::domain::orderbook::OrderBook;
use stock_exchange_rust::domain::price::Price;
use stock_exchange_rust::text::{indian_amount_string, indian_digits_string, pad_left_string};

const RULE: &str = "==================================================";

fn limit(side: BidOrAsk, price: u64, size: u64, acc: &str) -> Order {
    Order::new("TCS".to_string(), Some(Price::from_paisa(price)), size, side, acc.to_string())
}

#[test]
fn indian_grouping() {
    assert_eq!(indian_digits_string(0), "0");
    assert_eq!(indian_digits_string(999), "999");
    assert_eq!(indian_digits_string(1000), "1,000");
    assert_eq!(indian_digits_string(100000), "1,00,000");
    assert_eq!(indian_digits_string(1234567), "12,34,567");
    assert_eq!(indian_digits_string(1_000_000_000), "1,00,00,00,000");
}

#[test]
fn indian_amounts() {
    assert_eq!(indian_amount_string(false, 1_000_000_000, 0), "1,00,00,00,000.00");
    assert_eq!(indian_amount_string(true, 3450, 5), "-3,450.05");
    assert_eq!(indian_amount_string(false, 345, 50), "345.50");
    assert_eq!(indian_amount_string(false, 150, 25), "150.25");
    assert_eq!(indian_amount_string(true, 0, 99), "-0.99");
}

#[test]
fn left_padding() {
    assert_eq!(pad_left_string("₹10.00", 10), "    ₹10.00");
    assert_eq!(pad_left_string("₹1234567.00", 10), "₹1234567.00");
}

#[test]
fn order_text() {
    let o = limit(BidOrAsk::Bid, 15000, 10, "101");
    assert_eq!(o.display(), "[TCS] Acc: 101 | Limit BID 10 @ ₹150.00 (Filled: 0/10)");
    let mut m = Order::new("INFY".to_string(), None, 7, BidOrAsk::Ask, "7".to_string());
    m.fill(3);
    assert_eq!(m.display(), "[INFY] Acc: 7 | Limit ASK 7 @ MARKET (Filled: 3/7)");
    assert_eq!(OrderType::StopLoss.display(), "StopLoss");
}

#[test]
fn book_text_lists_both_sides_from_the_top() {
    let mut book = OrderBook::new("TCS".to_string(), Price::from_paisa(1000));
    let empty = book.display();
    let expected_empty = format!(
        "{r}\n  ORDER BOOK: TCS  |  LTP: ₹10.00\n{r}\n--- ASKS (SELLERS) ---\n  (No asks resting on book)\n{d}\n--- BIDS (BUYERS) ---\n  (No bids resting on book)\n{r}\n",
        r = RULE,
        d = "-".repeat(50)
    );
    assert_eq!(empty, expected_empty);
    book.add_limit_order(limit(BidOrAsk::Ask, 1100, 5, "A")).unwrap();
    book.add_limit_order(limit(BidOrAsk::Ask, 1200, 7, "B")).unwrap();
    book.add_limit_order(limit(BidOrAsk::Ask, 1100, 3, "C")).unwrap();
    book.add_limit_order(limit(BidOrAsk::Bid, 900, 4, "D")).unwrap();
    book.add_limit_order(limit(BidOrAsk::Bid, 950, 2, "E")).unwrap();
    let text = book.display();
    let expected = format!(
        "{r}\n  ORDER BOOK: TCS  |  LTP: ₹10.00\n{r}\n--- ASKS (SELLERS) ---\n      ₹12.00  |  7 shares (1 orders)\n      ₹11.00  |  8 shares (2 orders)\n{d}\n--- BIDS (BUYERS) ---\n       ₹9.50  |  2 shares (1 orders)\n       ₹9.00  |  4 shares (1 orders)\n{r}\n",
        r = RULE,
        d = "-".repeat(50)
    );
    assert_eq!(text, expected);
}

#[test]
fn market_text_lists_each_book() {
    let mut m = Market::new("AYUSHSE".to_string());
    assert_eq!(
        m.display(),
        format!("{r}\n  EXCHANGE MARKET: AYUSHSE\n  Active Tickers: 0\n{r}\n  (No stock orderbooks registered yet)\n", r = RULE)
    );
    m.add_stock("TCS".to_string(), Price::from_paisa(1000));
    let book = m.get_orderbook("TCS").unwrap().display();
    assert_eq!(
        m.display(),
        format!("{r}\n  EXCHANGE MARKET: AYUSHSE\n  Active Tickers: 1\n{r}\n\n{b}\n", r = RULE, b = book)
    );
}

#[test]
fn listings_and_restored_prices() {
    let mut stocks = vec![("TCS".to_string(), 345000u64), ("INFY".to_string(), 152040u64), ("TCS".to_string(), 1u64)];
    restore_saved_price(&mut stocks, "TCS", 350000);
    assert_eq!(stocks[0].1, 350000);
    assert_eq!(stocks[2].1, 1);
    restore_saved_price(&mut stocks, "INFY", 49999);
    assert_eq!(stocks[1].1, 152040);
    restore_saved_price(&mut stocks, "WIPRO", 60000);
    assert_eq!(stocks.len(), 3);
    let m = Market::with_listings("BOHRASE".to_string(), &stocks);
    assert_eq!(m.name, "BOHRASE");
    assert_eq!(m.books.len(), 2);
    assert_eq!(m.get_orderbook("TCS").unwrap().ltp.paisa, 1);
    assert_eq!(m.get_orderbook("INFY").unwrap().ltp.paisa, 152040);
    assert!(m.get_orderbook("WIPRO").is_none());
}
