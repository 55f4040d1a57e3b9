use orderbook::book::{Exchange, Level, OrderBook, Summary};
use orderbook::manager::Manager;
use orderbook::publisher::Publisher;

fn summary(price: u64) -> Summary {
    let a = OrderBook {
        exchange: Exchange::Bitstamp,
        last_updated: String::new(),
        bids: vec![Level { exchange: Exchange::Bitstamp, price, amount: 1 }],
        asks: vec![],
    };
    Summary::merge(&a, &OrderBook::empty(Exchange::Binance), 10)
}

fn price(s: &Summary) -> u64 {
    s.bids[0].price
}

#[test]
fn late_subscriber_gets_no_replay() {
    let mut p = Publisher::new(8);
    let early = p.subscribe().unwrap();
    for i in 0..5 {
        p.publish(&summary(i));
    }
    let late = p.subscribe().unwrap();
    assert_ne!(early, late);
    assert_eq!(p.pending(late), 0);
    assert!(p.next(late).is_none());
    p.publish(&summary(100));
    p.publish(&summary(101));
    assert_eq!(price(&p.next(late).unwrap()), 100);
    assert_eq!(price(&p.next(late).unwrap()), 101);
    assert!(p.next(late).is_none());
    assert_eq!(p.pending(early), 7);
    assert_eq!(price(&p.next(early).unwrap()), 0);
}

#[test]
fn stalled_subscriber_does_not_hold_up_others() {
    let mut p = Publisher::new(3);
    let stalled = p.subscribe().unwrap();
    let live = p.subscribe().unwrap();
    for i in 0..10 {
        p.publish(&summary(i));
        // The live subscriber gets each summary right away.
        assert_eq!(price(&p.next(live).unwrap()), i);
        assert!(p.next(live).is_none());
    }
    // The stalled one keeps only the newest, oldest dropped first.
    assert_eq!(p.pending(stalled), 3);
    assert_eq!(price(&p.next(stalled).unwrap()), 7);
    assert_eq!(price(&p.next(stalled).unwrap()), 8);
    assert_eq!(price(&p.next(stalled).unwrap()), 9);
    assert!(p.next(stalled).is_none());
}

#[test]
fn unsubscribe_detaches() {
    let mut p = Publisher::new(2);
    let a = p.subscribe().unwrap();
    let b = p.subscribe().unwrap();
    assert_eq!(p.subscriber_count(), 2);
    assert!(p.unsubscribe(a));
    assert!(!p.unsubscribe(a));
    assert_eq!(p.subscriber_count(), 1);
    p.publish(&summary(1));
    assert!(p.next(a).is_none());
    assert_eq!(p.pending(a), 0);
    assert_eq!(price(&p.next(b).unwrap()), 1);
    let c = p.subscribe().unwrap();
    assert!(c != a && c != b);
}

#[test]
fn manager_merges_and_fans_out() {
    let mut m = Manager::new(10, 4);
    let id = m.publisher.subscribe().unwrap();
    let s = m.on_update(OrderBook {
        exchange: Exchange::Binance,
        last_updated: "1".to_string(),
        bids: vec![Level { exchange: Exchange::Binance, price: 50, amount: 2 }],
        asks: vec![Level { exchange: Exchange::Binance, price: 52, amount: 2 }],
    });
    assert_eq!(s.spread, Some(2));
    let got = m.publisher.next(id).unwrap();
    assert_eq!(got.bids, s.bids);
    assert_eq!(got.asks, s.asks);
    assert_eq!(got.spread, Some(2));
}
