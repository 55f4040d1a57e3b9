//! The Binance feed: its subscribe request, with a per-connection request
//! id, and its partial book depth push message, read into the canonical
//! `OrderBook`.
//!
//! Binance sends a flat object: `{"lastUpdateId": ..., "bids": [...],
//! "asks": [...]}`, with no timestamp.

use vstd::prelude::*;
use crate::book::{levels_from_text, parse_levels, Exchange, OrderBook};
use crate::decimal::{decimal_of, decimal_text};

verus! {

/// The method that subscribes to streams.
pub const SUBSCRIBE_METHOD: &'static str = "SUBSCRIBE";

/// The depth tiers of the partial book depth stream.
#[derive(Clone, Copy, Debug, PartialEq, Eq, Structural)]
pub enum Levels {
    L5,
    L10,
    L20,
}

/// The update intervals of the partial book depth stream.
#[derive(Clone, Copy, Debug, PartialEq, Eq, Structural)]
pub enum Speed {
    S1000,
    S100,
}

/// The text of a depth tier in a stream name.
pub open spec fn levels_text(l: Levels) -> Seq<char> {
    match l {
        Levels::L5 => "5"@,
        Levels::L10 => "10"@,
        Levels::L20 => "20"@,
    }
}

/// The text of an update interval, in milliseconds, in a stream name.
pub open spec fn speed_text(s: Speed) -> Seq<char> {
    match s {
        Speed::S1000 => "1000"@,
        Speed::S100 => "100"@,
    }
}

/// The partial book depth stream of a trading pair:
/// `<symbol>@depth<levels>@<speed>ms`.
pub open spec fn topic_of(symbol: Seq<char>, levels: Levels, speed: Speed) -> Seq<char> {
    symbol + "@depth"@ + levels_text(levels) + "@"@ + speed_text(speed) + "ms"@
}

fn levels_str(l: Levels) -> (r: &'static str)
    ensures
        r@ == levels_text(l),
{
    proof {
        reveal_strlit("5");
        reveal_strlit("10");
        reveal_strlit("20");
    }
    match l {
        Levels::L5 => "5",
        Levels::L10 => "10",
        Levels::L20 => "20",
    }
}

fn speed_str(s: Speed) -> (r: &'static str)
    ensures
        r@ == speed_text(s),
{
    proof {
        reveal_strlit("1000");
        reveal_strlit("100");
    }
    match s {
        Speed::S1000 => "1000",
        Speed::S100 => "100",
    }
}

/// The stream name of the partial book depth of `symbol`.
pub fn topic(symbol: &str, levels: Levels, speed: Speed) -> (r: String)
    ensures
        r@ == topic_of(symbol@, levels, speed),
{
    String::from_str(symbol).concat("@depth").concat(levels_str(levels)).concat("@").concat(
        speed_str(speed),
    ).concat("ms")
}

/// A control message: `{"method": ..., "params": [...], "id": ...}`.
#[derive(Debug)]
pub struct Request {
    pub method: String,
    pub params: Vec<String>,
    pub id: u64,
}

/// The request state of one connection: ids of the requests sent on it
/// count up from 1.
#[derive(Debug)]
pub struct BinanceClient {
    next_id: u64,
}

impl BinanceClient {
    pub closed spec fn last_id(&self) -> u64 {
        self.next_id
    }

    /// A connection that has sent no request yet.
    pub fn new() -> (r: Self)
        ensures
            r.last_id() == 0,
    {
        BinanceClient { next_id: 0 }
    }

    /// The id of the last request sent; 0 before the first.
    pub fn last_request_id(&self) -> (r: u64)
        ensures
            r == self.last_id(),
    {
        self.next_id
    }

    /// The id for the next request.
    fn gen_next_id(&mut self) -> (r: u64)
        requires
            old(self).last_id() < u64::MAX,
        ensures
            r == old(self).last_id() + 1,
            final(self).last_id() == r,
    {
        self.next_id = self.next_id + 1;
        self.next_id
    }

    /// The request that subscribes to the partial book depth of `symbol`,
    /// under the next request id.
    pub fn subscribe_request(&mut self, symbol: &str, levels: Levels, speed: Speed) -> (r: Request)
        requires
            old(self).last_id() < u64::MAX,
        ensures
            r.method@ == SUBSCRIBE_METHOD@,
            r.params@.len() == 1,
            r.params@[0]@ == topic_of(symbol@, levels, speed),
            r.id == old(self).last_id() + 1,
            final(self).last_id() == r.id,
    {
        let t = topic(symbol, levels, speed);
        let mut params: Vec<String> = Vec::new();
        params.push(t);
        Request { method: String::from_str(SUBSCRIBE_METHOD), params, id: self.gen_next_id() }
    }
}

/// A partial book depth push message: (price, amount) text pairs, bids best
/// first, asks best first.
#[derive(Debug)]
pub struct BookEvent {
    pub last_update_id: u64,
    pub bids: Vec<(String, String)>,
    pub asks: Vec<(String, String)>,
}

impl BookEvent {
    /// The canonical book of this message, keeping the best `best_of` levels
    /// of each side and the update id, in decimal, as its marker; `None`
    /// (the frame is dropped) when one of those levels is not a pair of
    /// decimals.
    pub fn to_order_book(&self, best_of: usize) -> (r: Option<OrderBook>)
        ensures
            r matches Some(b) ==> {
                &&& b.exchange == Exchange::Binance
                &&& b.last_updated@ == decimal_text(self.last_update_id as nat)
                &&& levels_from_text(self.bids@, Exchange::Binance, best_of as nat) == Some(b.bids@)
                &&& levels_from_text(self.asks@, Exchange::Binance, best_of as nat) == Some(b.asks@)
                &&& b.wf()
            },
            r is None ==> levels_from_text(self.bids@, Exchange::Binance, best_of as nat) is None
                || levels_from_text(self.asks@, Exchange::Binance, best_of as nat) is None,
    {
        let bids = match parse_levels(&self.bids, Exchange::Binance, best_of) {
            Some(v) => v,
            None => return None,
        };
        let asks = match parse_levels(&self.asks, Exchange::Binance, best_of) {
            Some(v) => v,
            None => return None,
        };
        Some(
            OrderBook {
                exchange: Exchange::Binance,
                last_updated: decimal_of(self.last_update_id),
                bids,
                asks,
            },
        )
    }
}

} // verus!
