use vstd::prelude::*;

use crate::domain::trade::Trade;
use crate::text::{decimal_digits, decimal_string};

verus! {

/// A trade as it is published to the event stream and stored.
#[derive(Debug)]
pub struct TradeEvent {
    pub trade_id: String,
    pub symbol: String,
    pub price_paisa: u64,
    pub quantity: u64,
    pub buyer_acc_no: String,
    pub seller_acc_no: String,
    pub timestamp_millis: u128,
}

/// Trading activity of one symbol on one exchange, as it is published.
#[derive(Debug)]
pub struct VolumeEvent {
    pub exchange_name: String,
    pub symbol: String,
    pub ltp_paisa: u64,
    pub cumulative_trades: u64,
    pub timestamp_millis: u128,
}

impl TradeEvent {
    /// The event for `trade`, stamped `timestamp_millis`; its id is the trade id in decimal.
    pub fn from_trade(trade: &Trade, timestamp_millis: u128) -> (e: Self)
        ensures
            e.trade_id@ == decimal_digits(trade.id as nat),
            e.symbol == trade.symbol,
            e.price_paisa == trade.price.paisa,
            e.quantity == trade.quantity,
            e.buyer_acc_no == trade.buyer_acc_no,
            e.seller_acc_no == trade.seller_acc_no,
            e.timestamp_millis == timestamp_millis,
    {
        TradeEvent {
            trade_id: decimal_string(trade.id),
            symbol: trade.symbol.clone(),
            price_paisa: trade.price.paisa,
            quantity: trade.quantity,
            buyer_acc_no: trade.buyer_acc_no.clone(),
            seller_acc_no: trade.seller_acc_no.clone(),
            timestamp_millis,
        }
    }
}


/// One entry to append to a capped stream: the stream's key, about how many
/// entries it keeps, and the entry's fields as name and value pairs.
#[derive(Debug)]
pub struct StreamEntry {
    pub stream: String,
    pub max_len: u64,
    pub fields: Vec<(String, String)>,
}

/// The fields of an entry as texts.
pub open spec fn fields_view(fields: Seq<(String, String)>) -> Seq<(Seq<char>, Seq<char>)> {
    fields.map_values(|f: (String, String)| (f.0@, f.1@))
}

fn field(name: &str, value: String) -> (f: (String, String))
    ensures
        f.0@ == name@,
        f.1 == value,
{
    (String::from_str(name), value)
}

impl TradeEvent {
    /// The entry a trade is published as: on `trades:stream`, kept to about
    /// 1000 entries, with the trade's id, symbol, price in paisa, quantity, buyer
    /// and seller.
    pub fn stream_entry(&self) -> (e: StreamEntry)
        ensures
            e.stream@ == "trades:stream"@,
            e.max_len == 1000,
            fields_view(e.fields@) == seq![
                ("trade_id"@, self.trade_id@),
                ("symbol"@, self.symbol@),
                ("price_paisa"@, decimal_digits(self.price_paisa as nat)),
                ("quantity"@, decimal_digits(self.quantity as nat)),
                ("buyer"@, self.buyer_acc_no@),
                ("seller"@, self.seller_acc_no@),
            ],
    {
        let mut fields: Vec<(String, String)> = Vec::new();
        fields.push(field("trade_id", self.trade_id.clone()));
        fields.push(field("symbol", self.symbol.clone()));
        fields.push(field("price_paisa", decimal_string(self.price_paisa)));
        fields.push(field("quantity", decimal_string(self.quantity)));
        fields.push(field("buyer", self.buyer_acc_no.clone()));
        fields.push(field("seller", self.seller_acc_no.clone()));
        assert(fields_view(fields@) =~= seq![
            ("trade_id"@, self.trade_id@),
            ("symbol"@, self.symbol@),
            ("price_paisa"@, decimal_digits(self.price_paisa as nat)),
            ("quantity"@, decimal_digits(self.quantity as nat)),
            ("buyer"@, self.buyer_acc_no@),
            ("seller"@, self.seller_acc_no@),
        ]);
        StreamEntry { stream: String::from_str("trades:stream"), max_len: 1000, fields }
    }
}

impl VolumeEvent {
    /// The entry a volume update is published as: on `volume:stream`, kept to
    /// about 500 entries, with the exchange, symbol, last traded price in paisa
    /// and the number of trades so far.
    pub fn stream_entry(&self) -> (e: StreamEntry)
        ensures
            e.stream@ == "volume:stream"@,
            e.max_len == 500,
            fields_view(e.fields@) == seq![
                ("exchange"@, self.exchange_name@),
                ("symbol"@, self.symbol@),
                ("ltp_paisa"@, decimal_digits(self.ltp_paisa as nat)),
                ("cumulative_trades"@, decimal_digits(self.cumulative_trades as nat)),
            ],
    {
        let mut fields: Vec<(String, String)> = Vec::new();
        fields.push(field("exchange", self.exchange_name.clone()));
        fields.push(field("symbol", self.symbol.clone()));
        fields.push(field("ltp_paisa", decimal_string(self.ltp_paisa)));
        fields.push(field("cumulative_trades", decimal_string(self.cumulative_trades)));
        assert(fields_view(fields@) =~= seq![
            ("exchange"@, self.exchange_name@),
            ("symbol"@, self.symbol@),
            ("ltp_paisa"@, decimal_digits(self.ltp_paisa as nat)),
            ("cumulative_trades"@, decimal_digits(self.cumulative_trades as nat)),
        ]);
        StreamEntry { stream: String::from_str("volume:stream"), max_len: 500, fields }
    }
}

} // verus!
