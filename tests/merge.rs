use orderbook::book::{Exchange, Level, OrderBook, Summary};
use orderbook::tracker::BookTracker;

const UNIT: u64 = 100_000_000;

fn lvl(exchange: Exchange, price: u64, amount: u64) -> Level {
    Level { exchange, price, amount }
}

fn book(exchange: Exchange, bids: Vec<(u64, u64)>, asks: Vec<(u64, u64)>) -> OrderBook {
    OrderBook {
        exchange,
        last_updated: String::new(),
        bids: bids.into_iter().map(|(p, a)| lvl(exchange, p, a)).collect(),
        asks: asks.into_iter().map(|(p, a)| lvl(exchange, p, a)).collect(),
    }
}

#[test]
fn end_to_end_two_exchanges() {
    // 100.0/1.0 and 101.0/1.0 on one side, 100.5/2.0 and 100.8/1.5 on the other.
    let a = book(Exchange::Bitstamp, vec![(100 * UNIT, UNIT)], vec![(101 * UNIT, UNIT)]);
    let b = book(
        Exchange::Binance,
        vec![(100 * UNIT + UNIT / 2, 2 * UNIT)],
        vec![(100 * UNIT + 8 * UNIT / 10, 3 * UNIT / 2)],
    );
    let s = Summary::merge(&a, &b, 10);
    assert_eq!(
        s.bids,
        vec![
            lvl(Exchange::Binance, 10_050_000_000, 200_000_000),
            lvl(Exchange::Bitstamp, 10_000_000_000, 100_000_000),
        ]
    );
    assert_eq!(
        s.asks,
        vec![
            lvl(Exchange::Binance, 10_080_000_000, 150_000_000),
            lvl(Exchange::Bitstamp, 10_100_000_000, 100_000_000),
        ]
    );
    assert_eq!(s.spread, Some(30_000_000));
    let spread = s.spread.unwrap() as f64 / UNIT as f64;
    assert!((spread - 0.3).abs() < 1e-9);
}

#[test]
fn merge_ranks_and_truncates() {
    let a = book(Exchange::Bitstamp, vec![(10, 1), (7, 1), (3, 1)], vec![(11, 1), (14, 1), (20, 1)]);
    let b = book(Exchange::Binance, vec![(9, 2), (8, 2), (1, 2)], vec![(12, 2), (13, 2)]);
    let s = Summary::merge(&a, &b, 4);
    let bid_prices: Vec<u64> = s.bids.iter().map(|l| l.price).collect();
    let ask_prices: Vec<u64> = s.asks.iter().map(|l| l.price).collect();
    assert_eq!(bid_prices, vec![10, 9, 8, 7]);
    assert_eq!(ask_prices, vec![11, 12, 13, 14]);
    assert_eq!(s.spread, Some(1));
}

#[test]
fn merge_sorts_unsorted_input() {
    let a = book(Exchange::Bitstamp, vec![(3, 1), (10, 1), (5, 1)], vec![(9, 1), (4, 1)]);
    let b = book(Exchange::Binance, vec![(8, 2), (1, 2)], vec![(6, 2), (2, 2)]);
    let s = Summary::merge(&a, &b, 10);
    let bid_prices: Vec<u64> = s.bids.iter().map(|l| l.price).collect();
    let ask_prices: Vec<u64> = s.asks.iter().map(|l| l.price).collect();
    assert_eq!(bid_prices, vec![10, 8, 5, 3, 1]);
    assert_eq!(ask_prices, vec![2, 4, 6, 9]);
    for w in s.bids.windows(2) {
        assert!(w[0].price >= w[1].price);
    }
    for w in s.asks.windows(2) {
        assert!(w[0].price <= w[1].price);
    }
    // A crossed book gives a negative spread.
    assert_eq!(s.spread, Some(2 - 10));
}

#[test]
fn merge_equal_prices_keep_first_book_first() {
    let a = book(Exchange::Bitstamp, vec![(5, 1)], vec![(6, 1)]);
    let b = book(Exchange::Binance, vec![(5, 2)], vec![(6, 2)]);
    let s = Summary::merge(&a, &b, 10);
    assert_eq!(s.bids, vec![lvl(Exchange::Bitstamp, 5, 1), lvl(Exchange::Binance, 5, 2)]);
    assert_eq!(s.asks, vec![lvl(Exchange::Bitstamp, 6, 1), lvl(Exchange::Binance, 6, 2)]);
    let s2 = Summary::merge(&b, &a, 10);
    assert_eq!(s2.bids, vec![lvl(Exchange::Binance, 5, 2), lvl(Exchange::Bitstamp, 5, 1)]);
}

#[test]
fn merge_depth_zero_is_empty() {
    let a = book(Exchange::Bitstamp, vec![(5, 1)], vec![(6, 1)]);
    let b = book(Exchange::Binance, vec![(4, 2)], vec![(7, 2)]);
    let s = Summary::merge(&a, &b, 0);
    assert!(s.bids.is_empty());
    assert!(s.asks.is_empty());
    assert_eq!(s.spread, None);
}

#[test]
fn merge_again_with_empty_book_is_unchanged() {
    let a = book(Exchange::Bitstamp, vec![(10, 1), (7, 1), (7, 3)], vec![(11, 1), (14, 1)]);
    let b = book(Exchange::Binance, vec![(9, 2), (7, 2)], vec![(11, 2), (13, 2)]);
    let s = Summary::merge(&a, &b, 4);
    let again = OrderBook {
        exchange: Exchange::Bitstamp,
        last_updated: String::new(),
        bids: s.bids.clone(),
        asks: s.asks.clone(),
    };
    let empty = OrderBook::empty(Exchange::Binance);
    let s2 = Summary::merge(&again, &empty, 4);
    assert_eq!(s2.bids, s.bids);
    assert_eq!(s2.asks, s.asks);
    assert_eq!(s2.spread, s.spread);
}

#[test]
fn merge_with_an_empty_side_has_no_spread() {
    let a = book(Exchange::Bitstamp, vec![(10, 1)], vec![]);
    let b = OrderBook::empty(Exchange::Binance);
    let s = Summary::merge(&a, &b, 10);
    assert_eq!(s.bids, vec![lvl(Exchange::Bitstamp, 10, 1)]);
    assert!(s.asks.is_empty());
    assert_eq!(s.spread, None);

    let c = book(Exchange::Binance, vec![], vec![(12, 1)]);
    let s = Summary::merge(&OrderBook::empty(Exchange::Bitstamp), &c, 10);
    assert!(s.bids.is_empty());
    assert_eq!(s.spread, None);

    let s = Summary::merge(&OrderBook::empty(Exchange::Bitstamp), &OrderBook::empty(Exchange::Binance), 10);
    assert!(s.bids.is_empty() && s.asks.is_empty());
    assert_eq!(s.spread, None);
}

#[test]
fn summary_copy_is_equal() {
    let a = book(Exchange::Bitstamp, vec![(10, 1)], vec![(12, 3)]);
    let s = Summary::merge(&a, &OrderBook::empty(Exchange::Binance), 5);
    let c = s.copy();
    assert_eq!(c.bids, s.bids);
    assert_eq!(c.asks, s.asks);
    assert_eq!(c.spread, s.spread);
}

#[test]
fn exchange_names() {
    assert_eq!(Exchange::Binance.to_string(), "Binance");
    assert_eq!(Exchange::Bitstamp.to_string(), "Bitstamp");
}

#[test]
fn tracker_replaces_and_merges() {
    let mut t = BookTracker::new(10);
    let s = t.summary();
    assert!(s.bids.is_empty() && s.asks.is_empty());
    assert_eq!(s.spread, None);

    let s = t.apply(book(Exchange::Binance, vec![(100, 1)], vec![(105, 1)]));
    assert_eq!(s.bids, vec![lvl(Exchange::Binance, 100, 1)]);
    assert_eq!(s.spread, Some(5));

    let s = t.apply(book(Exchange::Bitstamp, vec![(101, 2)], vec![(104, 2)]));
    assert_eq!(s.bids, vec![lvl(Exchange::Bitstamp, 101, 2), lvl(Exchange::Binance, 100, 1)]);
    assert_eq!(s.asks, vec![lvl(Exchange::Bitstamp, 104, 2), lvl(Exchange::Binance, 105, 1)]);
    assert_eq!(s.spread, Some(3));

    // A new snapshot replaces the old one wholesale.
    let s = t.apply(book(Exchange::Binance, vec![(99, 7)], vec![]));
    assert_eq!(s.bids, vec![lvl(Exchange::Bitstamp, 101, 2), lvl(Exchange::Binance, 99, 7)]);
    assert_eq!(s.asks, vec![lvl(Exchange::Bitstamp, 104, 2)]);
    assert_eq!(s.spread, Some(3));
}

#[test]
fn summary_levels_name_their_exchange() {
    let mut t = BookTracker::new(3);
    t.apply(book(Exchange::Binance, vec![(100, 1), (98, 1)], vec![(105, 1)]));
    let s = t.apply(book(Exchange::Bitstamp, vec![(101, 2), (97, 1)], vec![(104, 2), (106, 1)]));
    for l in s.bids.iter().chain(s.asks.iter()) {
        let name = l.exchange.to_string();
        assert!(!name.is_empty());
        assert!(name == "Binance" || name == "Bitstamp");
    }
    assert_eq!(s.bids.len(), 3);
    assert_eq!(s.bids[2], lvl(Exchange::Binance, 98, 1));
}
