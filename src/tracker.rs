//! The book state tracker: the latest snapshot of each exchange, replaced
//! wholesale on every update, and merged after every replacement.

use vstd::prelude::*;
use crate::book::{all_from, exchange_name, Exchange, Level, OrderBook, Summary, SummaryView};
use crate::merge::{is_best_selection, merge_keeps_best_levels, merged};

verus! {

/// The current book of each exchange and the merge depth. Before an
/// exchange's first update its book is an empty placeholder, so a merge can
/// run with one side still empty.
#[derive(Debug)]
pub struct BookTracker {
    bitstamp: OrderBook,
    binance: OrderBook,
    best_of: usize,
}

impl BookTracker {
    pub closed spec fn bitstamp_book(&self) -> &OrderBook {
        &self.bitstamp
    }

    pub closed spec fn binance_book(&self) -> &OrderBook {
        &self.binance
    }

    pub closed spec fn depth(&self) -> nat {
        self.best_of as nat
    }

    /// The current book of exchange `e`.
    pub open spec fn book_of(&self, e: Exchange) -> &OrderBook {
        match e {
            Exchange::Bitstamp => self.bitstamp_book(),
            Exchange::Binance => self.binance_book(),
        }
    }

    /// Each slot holds a snapshot of its own exchange.
    pub open spec fn wf(&self) -> bool {
        &&& self.bitstamp_book().exchange == Exchange::Bitstamp
        &&& self.bitstamp_book().wf()
        &&& self.binance_book().exchange == Exchange::Binance
        &&& self.binance_book().wf()
    }

    /// The summary of the current books: Bitstamp's levels first at equal
    /// prices.
    pub open spec fn current(&self) -> SummaryView {
        merged(self.bitstamp_book(), self.binance_book(), self.depth())
    }

    /// A tracker with both books empty, merging to depth `best_of`.
    pub fn new(best_of: usize) -> (r: Self)
        ensures
            r.wf(),
            r.depth() == best_of,
            r.bitstamp_book().bids@.len() == 0,
            r.bitstamp_book().asks@.len() == 0,
            r.binance_book().bids@.len() == 0,
            r.binance_book().asks@.len() == 0,
    {
        BookTracker {
            bitstamp: OrderBook::empty(Exchange::Bitstamp),
            binance: OrderBook::empty(Exchange::Binance),
            best_of,
        }
    }

    /// The summary of the current books.
    pub fn summary(&self) -> (r: Summary)
        ensures
            r@ == self.current(),
    {
        Summary::merge(&self.bitstamp, &self.binance, self.best_of)
    }

    /// Replaces the book of `update.exchange` with `update`, keeps the
    /// other, and returns the summary of the new pair.
    pub fn apply(&mut self, update: OrderBook) -> (r: Summary)
        requires
            old(self).wf(),
            update.wf(),
        ensures
            final(self).wf(),
            final(self).depth() == old(self).depth(),
            *final(self).book_of(update.exchange) == update,
            update.exchange == Exchange::Bitstamp ==> final(self).binance_book() == old(
                self,
            ).binance_book(),
            update.exchange == Exchange::Binance ==> final(self).bitstamp_book() == old(
                self,
            ).bitstamp_book(),
            r@ == final(self).current(),
    {
        match update.exchange {
            Exchange::Binance => {
                self.binance = update;
            },
            Exchange::Bitstamp => {
                self.bitstamp = update;
            },
        }
        self.summary()
    }
}

proof fn lemma_attributed(r: Seq<Level>, a: Seq<Level>, b: Seq<Level>, n: nat, desc: bool, i: int)
    requires
        is_best_selection(r, a + b, n, desc),
        all_from(a, Exchange::Bitstamp),
        all_from(b, Exchange::Binance),
        0 <= i < r.len(),
    ensures
        r[i].exchange == Exchange::Bitstamp ==> a.contains(r[i]),
        r[i].exchange == Exchange::Binance ==> b.contains(r[i]),
{
    broadcast use vstd::seq_lib::group_to_multiset_ensures;

    let x = r[i];
    assert(r.contains(x));
    assert(r.to_multiset().count(x) > 0);
    assert((a + b).to_multiset().count(x) > 0);
    assert((a + b).contains(x));
    let k = choose|k: int| 0 <= k < (a + b).len() && (a + b)[k] == x;
    if k < a.len() {
        assert((a + b)[k] == a[k]);
        assert(a.contains(x));
    } else {
        assert((a + b)[k] == b[k - a.len()]);
        assert(b.contains(x));
    }
}

/// Every level of the tracker's summary carries a non-empty exchange name,
/// and it is a level of the current book of the exchange it names.
pub proof fn summary_levels_are_attributed(t: &BookTracker)
    requires
        t.wf(),
    ensures
        forall|i: int|
            0 <= i < t.current().bids.len() ==> {
                &&& exchange_name((#[trigger] t.current().bids[i]).exchange).len() > 0
                &&& t.book_of(t.current().bids[i].exchange).bids@.contains(t.current().bids[i])
            },
        forall|i: int|
            0 <= i < t.current().asks.len() ==> {
                &&& exchange_name((#[trigger] t.current().asks[i]).exchange).len() > 0
                &&& t.book_of(t.current().asks[i].exchange).asks@.contains(t.current().asks[i])
            },
{
    reveal_strlit("Binance");
    reveal_strlit("Bitstamp");
    let a = t.bitstamp_book();
    let b = t.binance_book();
    merge_keeps_best_levels(a, b, t.depth());
    assert forall|i: int| 0 <= i < t.current().bids.len() implies {
        &&& exchange_name((#[trigger] t.current().bids[i]).exchange).len() > 0
        &&& t.book_of(t.current().bids[i].exchange).bids@.contains(t.current().bids[i])
    } by {
        lemma_attributed(t.current().bids, a.bids@, b.bids@, t.depth(), true, i);
    }
    assert forall|i: int| 0 <= i < t.current().asks.len() implies {
        &&& exchange_name((#[trigger] t.current().asks[i]).exchange).len() > 0
        &&& t.book_of(t.current().asks[i].exchange).asks@.contains(t.current().asks[i])
    } by {
        lemma_attributed(t.current().asks, a.asks@, b.asks@, t.depth(), false, i);
    }
}

} // verus!
