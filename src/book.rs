//! The canonical data model: exchanges, price levels, order books and
//! summaries.
//!
//! Prices and amounts are fixed-point numbers: an integer count of
//! `10^-SCALE_DIGITS` units (see `decimal`).

use vstd::prelude::*;
use crate::decimal::{fixed_value, parse_fixed};

verus! {

/// The two exchanges whose books are merged.
#[derive(Clone, Copy, Debug, PartialEq, Eq, Structural)]
pub enum Exchange {
    Binance,
    Bitstamp,
}

/// The name an exchange is shown under.
pub open spec fn exchange_name(e: Exchange) -> Seq<char> {
    match e {
        Exchange::Binance => "Binance"@,
        Exchange::Bitstamp => "Bitstamp"@,
    }
}

impl Exchange {
    /// The exchange's name, as attached to every level it quotes.
    pub fn to_string(&self) -> (r: String)
        ensures
            r@ == exchange_name(*self),
            r@.len() > 0,
    {
        proof {
            reveal_strlit("Binance");
            reveal_strlit("Bitstamp");
        }
        match self {
            Exchange::Binance => String::from_str("Binance"),
            Exchange::Bitstamp => String::from_str("Bitstamp"),
        }
    }
}

/// One price level: a price, the amount resting at it, and the exchange
/// that quotes it.
#[derive(Clone, Copy, Debug, PartialEq, Eq, Structural)]
pub struct Level {
    pub exchange: Exchange,
    pub price: u64,
    pub amount: u64,
}

/// A full snapshot of one exchange's visible book. Bids come best (highest)
/// first, asks best (lowest) first, as the exchange sent them.
#[derive(Debug)]
pub struct OrderBook {
    pub exchange: Exchange,
    /// The exchange's own timestamp or update id; opaque.
    pub last_updated: String,
    pub bids: Vec<Level>,
    pub asks: Vec<Level>,
}

/// Every level of `s` is quoted by exchange `e`.
pub open spec fn all_from(s: Seq<Level>, e: Exchange) -> bool {
    forall|i: int| 0 <= i < s.len() ==> (#[trigger] s[i]).exchange == e
}

impl OrderBook {
    /// The book is a snapshot of exchange `self.exchange` alone.
    pub open spec fn wf(&self) -> bool {
        all_from(self.bids@, self.exchange) && all_from(self.asks@, self.exchange)
    }

    /// The placeholder an exchange has before its first snapshot arrives.
    pub fn empty(exchange: Exchange) -> (r: OrderBook)
        ensures
            r.exchange == exchange,
            r.last_updated@.len() == 0,
            r.bids@.len() == 0,
            r.asks@.len() == 0,
            r.wf(),
    {
        OrderBook { exchange, last_updated: String::new(), bids: Vec::new(), asks: Vec::new() }
    }
}

/// Copies a list of levels.
pub fn copy_levels(v: &Vec<Level>) -> (r: Vec<Level>)
    ensures
        r@ == v@,
{
    let mut r: Vec<Level> = Vec::new();
    let mut i: usize = 0;
    while i < v.len()
        invariant
            i <= v@.len(),
            r@ == v@.take(i as int),
        decreases v@.len() - i,
    {
        r.push(v[i]);
        i = i + 1;
        proof {
            assert(r@ =~= v@.take(i as int));
        }
    }
    proof {
        assert(v@.take(i as int) =~= v@);
    }
    r
}

/// The merged best-of-N view of both books.
#[derive(Debug)]
pub struct Summary {
    /// Best ask price minus best bid price; `None` when a side is empty.
    pub spread: Option<i128>,
    /// Best bids first, by non-increasing price.
    pub bids: Vec<Level>,
    /// Best asks first, by non-decreasing price.
    pub asks: Vec<Level>,
}

/// The mathematical value of a summary.
pub struct SummaryView {
    pub spread: Option<i128>,
    pub bids: Seq<Level>,
    pub asks: Seq<Level>,
}

impl View for Summary {
    type V = SummaryView;

    open spec fn view(&self) -> SummaryView {
        SummaryView { spread: self.spread, bids: self.bids@, asks: self.asks@ }
    }
}

impl Summary {
    /// A second summary with the same content.
    pub fn copy(&self) -> (r: Summary)
        ensures
            r@ == self@,
    {
        Summary { spread: self.spread, bids: copy_levels(&self.bids), asks: copy_levels(&self.asks) }
    }
}

/// A level read from a (price, amount) text pair, if both parts are decimals.
pub open spec fn level_from_text(p: (String, String), e: Exchange) -> Option<Level> {
    match (fixed_value(p.0@), fixed_value(p.1@)) {
        (Some(price), Some(amount)) => Some(Level { exchange: e, price, amount }),
        _ => None,
    }
}

/// The first `n` text pairs of `raw` read as levels of exchange `e`; `None`
/// when one of them is not a pair of decimals.
pub open spec fn levels_from_text(raw: Seq<(String, String)>, e: Exchange, n: nat) -> Option<
    Seq<Level>,
> {
    let m = if n < raw.len() {
        n as int
    } else {
        raw.len() as int
    };
    if forall|i: int| 0 <= i < m ==> (#[trigger] level_from_text(raw[i], e)) is Some {
        Some(Seq::new(m as nat, |i: int| level_from_text(raw[i], e)->0))
    } else {
        None
    }
}

/// Reads the first `best_of` (price, amount) pairs of `raw` as levels quoted
/// by `exchange`. A pair that is not two decimals spoils the whole list.
pub fn parse_levels(raw: &Vec<(String, String)>, exchange: Exchange, best_of: usize) -> (r: Option<
    Vec<Level>,
>)
    ensures
        r matches Some(v) ==> levels_from_text(raw@, exchange, best_of as nat) == Some(v@),
        r is None ==> levels_from_text(raw@, exchange, best_of as nat) is None,
{
    let m: usize = if best_of < raw.len() {
        best_of
    } else {
        raw.len()
    };
    let mut out: Vec<Level> = Vec::new();
    let mut i: usize = 0;
    while i < m
        invariant
            m <= raw@.len(),
            m == (if best_of < raw@.len() {
                best_of as int
            } else {
                raw@.len() as int
            }),
            i <= m,
            out@.len() == i,
            forall|j: int|
                0 <= j < i ==> level_from_text(raw@[j], exchange) == Some(#[trigger] out@[j]),
        decreases m - i,
    {
        let price = parse_fixed(raw[i].0.as_str());
        let amount = parse_fixed(raw[i].1.as_str());
        match (price, amount) {
            (Some(price), Some(amount)) => {
                out.push(Level { exchange, price, amount });
            },
            _ => {
                proof {
                    assert(level_from_text(raw@[i as int], exchange) is None);
                }
                return None;
            },
        }
        i = i + 1;
    }
    proof {
        assert forall|j: int| 0 <= j < m implies (#[trigger] level_from_text(
            raw@[j],
            exchange,
        )) is Some by {
            assert(level_from_text(raw@[j], exchange) == Some(out@[j]));
        }
        assert(out@ =~= Seq::new(
            m as nat,
            |j: int| level_from_text(raw@[j], exchange)->0,
        ));
    }
    Some(out)
}

} // verus!
