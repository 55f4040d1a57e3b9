use orderbook::binance::{self, BinanceClient, BookEvent, Levels, Speed};
use orderbook::bitstamp::{self, BitstampBookEvent, BookData, SubscribeData};
use orderbook::book::{parse_levels, Exchange, Level};
use orderbook::decimal::parse_fixed;

fn pairs(v: &[(&str, &str)]) -> Vec<(String, String)> {
    v.iter().map(|(p, a)| (p.to_string(), a.to_string())).collect()
}

#[test]
fn parse_fixed_values() {
    assert_eq!(parse_fixed("0.06250000"), Some(6_250_000));
    assert_eq!(parse_fixed("29321"), Some(2_932_100_000_000));
    assert_eq!(parse_fixed("1.5"), Some(150_000_000));
    assert_eq!(parse_fixed("0"), Some(0));
    assert_eq!(parse_fixed("007.00000001"), Some(700_000_001));
    assert_eq!(parse_fixed("184467440737.09551615"), Some(u64::MAX));
}

#[test]
fn parse_fixed_rejects() {
    assert_eq!(parse_fixed(""), None);
    assert_eq!(parse_fixed(".5"), None);
    assert_eq!(parse_fixed("1."), None);
    assert_eq!(parse_fixed("1.123456789"), None);
    assert_eq!(parse_fixed("abc"), None);
    assert_eq!(parse_fixed("1e5"), None);
    assert_eq!(parse_fixed("-1"), None);
    assert_eq!(parse_fixed("1.2.3"), None);
    assert_eq!(parse_fixed(" 1"), None);
    assert_eq!(parse_fixed("184467440737.09551616"), None);
    assert_eq!(parse_fixed("99999999999999999999"), None);
}

#[test]
fn parse_levels_takes_best_of() {
    let raw = pairs(&[("10.5", "1"), ("10.4", "2"), ("oops", "3")]);
    let v = parse_levels(&raw, Exchange::Binance, 2).unwrap();
    assert_eq!(
        v,
        vec![
            Level { exchange: Exchange::Binance, price: 1_050_000_000, amount: 100_000_000 },
            Level { exchange: Exchange::Binance, price: 1_040_000_000, amount: 200_000_000 },
        ]
    );
    assert_eq!(parse_levels(&raw, Exchange::Binance, 3), None);
    assert_eq!(parse_levels(&raw, Exchange::Binance, 0), Some(vec![]));
}

#[test]
fn bitstamp_subscribe_request() {
    let r = bitstamp::subscribe_request("btcusd");
    assert_eq!(r.event, "bts:subscribe");
    assert_eq!(r.data.channel, "order_book_btcusd");
    assert_eq!(SubscribeData::new("x").channel, "x");
}

#[test]
fn bitstamp_book_event_to_order_book() {
    let ev = BitstampBookEvent {
        data: BookData {
            timestamp: "1700000000".to_string(),
            microtimestamp: "1700000000123456".to_string(),
            bids: pairs(&[("0.06250000", "1.00000000"), ("0.06240000", "2.5")]),
            asks: pairs(&[("0.06260000", "0.5"), ("0.06270000", "3"), ("0.06280000", "4")]),
        },
    };
    let ob = ev.to_order_book(2).unwrap();
    assert_eq!(ob.exchange, Exchange::Bitstamp);
    assert_eq!(ob.last_updated, "1700000000123456");
    assert_eq!(ob.bids.len(), 2);
    assert_eq!(ob.asks.len(), 2);
    assert_eq!(ob.bids[0], Level { exchange: Exchange::Bitstamp, price: 6_250_000, amount: 100_000_000 });
    assert_eq!(ob.asks[1], Level { exchange: Exchange::Bitstamp, price: 6_270_000, amount: 300_000_000 });
}

#[test]
fn bitstamp_malformed_level_drops_frame() {
    let ev = BitstampBookEvent {
        data: BookData {
            timestamp: String::new(),
            microtimestamp: String::new(),
            bids: pairs(&[("0.1", "x")]),
            asks: pairs(&[]),
        },
    };
    assert!(ev.to_order_book(10).is_none());
}

#[test]
fn binance_topic_and_request_ids() {
    assert_eq!(binance::topic("btcusdt", Levels::L20, Speed::S100), "btcusdt@depth20@100ms");
    assert_eq!(binance::topic("ethbtc", Levels::L5, Speed::S1000), "ethbtc@depth5@1000ms");
    let mut c = BinanceClient::new();
    assert_eq!(c.last_request_id(), 0);
    let r1 = c.subscribe_request("ethbtc", Levels::L10, Speed::S100);
    assert_eq!(r1.method, "SUBSCRIBE");
    assert_eq!(r1.params, vec!["ethbtc@depth10@100ms".to_string()]);
    assert_eq!(r1.id, 1);
    let r2 = c.subscribe_request("btcusdt", Levels::L20, Speed::S1000);
    assert_eq!(r2.id, 2);
    assert_eq!(c.last_request_id(), 2);
}

#[test]
fn binance_book_event_to_order_book() {
    let ev = BookEvent {
        last_update_id: 160,
        bids: pairs(&[("0.0024", "10")]),
        asks: pairs(&[("0.0026", "100"), ("0.0027", "1")]),
    };
    let ob = ev.to_order_book(10).unwrap();
    assert_eq!(ob.exchange, Exchange::Binance);
    assert_eq!(ob.last_updated, "160");
    assert_eq!(ob.bids, vec![Level { exchange: Exchange::Binance, price: 240_000, amount: 1_000_000_000 }]);
    assert_eq!(ob.asks.len(), 2);
    let ev = BookEvent { last_update_id: 0, bids: pairs(&[]), asks: pairs(&[("1", "2")]) };
    assert_eq!(ev.to_order_book(1).unwrap().last_updated, "0");
    let ev = BookEvent { last_update_id: u64::MAX, bids: pairs(&[("", "1")]), asks: pairs(&[]) };
    assert!(ev.to_order_book(1).is_none());
    let ev = BookEvent { last_update_id: u64::MAX, bids: pairs(&[]), asks: pairs(&[]) };
    assert_eq!(ev.to_order_book(1).unwrap().last_updated, "18446744073709551615");
}
