//! The Bitstamp feed: its subscribe request and its order book push
//! message, read into the canonical `OrderBook`.
//!
//! Bitstamp nests the book under an event envelope:
//! `{"event": "data", "channel": "order_book_<symbol>", "data": {...}}`.

use vstd::prelude::*;
use crate::book::{levels_from_text, parse_levels, Exchange, OrderBook};

verus! {

/// The event that subscribes to a channel.
pub const SUBSCRIBE_EVENT: &'static str = "bts:subscribe";

/// A control message: `{"event": ..., "data": {"channel": ...}}`.
#[derive(Debug)]
pub struct Request {
    pub event: String,
    pub data: SubscribeData,
}

/// The payload of a subscribe request.
#[derive(Debug)]
pub struct SubscribeData {
    pub channel: String,
}

impl SubscribeData {
    pub fn new(channel: &str) -> (r: Self)
        ensures
            r.channel@ == channel@,
    {
        SubscribeData { channel: String::from_str(channel) }
    }
}

/// The name of the order book channel of a trading pair.
pub open spec fn channel_of(symbol: Seq<char>) -> Seq<char> {
    "order_book_"@ + symbol
}

/// The request that subscribes to the order book of `symbol`.
pub fn subscribe_request(symbol: &str) -> (r: Request)
    ensures
        r.event@ == SUBSCRIBE_EVENT@,
        r.data.channel@ == channel_of(symbol@),
{
    let channel = String::from_str("order_book_").concat(symbol);
    Request { event: String::from_str(SUBSCRIBE_EVENT), data: SubscribeData::new(channel.as_str()) }
}

/// An order book push message, as far as it is read.
#[derive(Debug)]
pub struct BitstampBookEvent {
    pub data: BookData,
}

/// The book inside a push message: (price, amount) text pairs, bids best
/// first, asks best first.
#[derive(Debug)]
pub struct BookData {
    pub timestamp: String,
    pub microtimestamp: String,
    pub bids: Vec<(String, String)>,
    pub asks: Vec<(String, String)>,
}

impl BitstampBookEvent {
    /// The canonical book of this message, keeping the best `best_of` levels
    /// of each side; `None` (the frame is dropped) when one of those levels
    /// is not a pair of decimals.
    pub fn to_order_book(&self, best_of: usize) -> (r: Option<OrderBook>)
        ensures
            r matches Some(b) ==> {
                &&& b.exchange == Exchange::Bitstamp
                &&& b.last_updated@ == self.data.microtimestamp@
                &&& levels_from_text(self.data.bids@, Exchange::Bitstamp, best_of as nat) == Some(
                    b.bids@,
                )
                &&& levels_from_text(self.data.asks@, Exchange::Bitstamp, best_of as nat) == Some(
                    b.asks@,
                )
                &&& b.wf()
            },
            r is None ==> levels_from_text(self.data.bids@, Exchange::Bitstamp, best_of as nat) is None
                || levels_from_text(self.data.asks@, Exchange::Bitstamp, best_of as nat) is None,
    {
        let bids = match parse_levels(&self.data.bids, Exchange::Bitstamp, best_of) {
            Some(v) => v,
            None => return None,
        };
        let asks = match parse_levels(&self.data.asks, Exchange::Bitstamp, best_of) {
            Some(v) => v,
            None => return None,
        };
        Some(
            OrderBook {
                exchange: Exchange::Bitstamp,
                last_updated: self.data.microtimestamp.clone(),
                bids,
                asks,
            },
        )
    }
}

} // verus!
