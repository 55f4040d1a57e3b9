//! The manager's step: an exchange update comes in, the books are merged,
//! and the summary goes out to every subscriber.

use vstd::prelude::*;
use crate::book::{Exchange, OrderBook, Summary, SummaryView};
use crate::publisher::{deliver, Publisher};
use crate::tracker::BookTracker;

verus! {

/// The book state of both exchanges together with the subscribers of their
/// summary.
#[derive(Debug)]
pub struct Manager {
    pub books: BookTracker,
    pub publisher: Publisher,
}

impl Manager {
    pub open spec fn wf(&self) -> bool {
        self.books.wf() && self.publisher.wf()
    }

    /// Empty books merged to depth `best_of`; no subscriber yet, queues
    /// bounded by `capacity`.
    pub fn new(best_of: usize, capacity: usize) -> (r: Self)
        requires
            capacity > 0,
        ensures
            r.wf(),
            r.books.depth() == best_of,
            r.books.bitstamp_book().bids@.len() == 0,
            r.books.bitstamp_book().asks@.len() == 0,
            r.books.binance_book().bids@.len() == 0,
            r.books.binance_book().asks@.len() == 0,
            r.publisher.capacity() == capacity,
            r.publisher.queues() == Map::<u64, Seq<SummaryView>>::empty(),
    {
        Manager { books: BookTracker::new(best_of), publisher: Publisher::new(capacity) }
    }

    /// Takes in one exchange snapshot: it replaces that exchange's book, the
    /// pair is merged, and the summary is delivered to every subscriber.
    /// Returns the summary.
    pub fn on_update(&mut self, update: OrderBook) -> (r: Summary)
        requires
            old(self).wf(),
            update.wf(),
        ensures
            final(self).wf(),
            final(self).books.depth() == old(self).books.depth(),
            *final(self).books.book_of(update.exchange) == update,
            update.exchange == Exchange::Bitstamp ==> final(self).books.binance_book() == old(
                self,
            ).books.binance_book(),
            update.exchange == Exchange::Binance ==> final(self).books.bitstamp_book() == old(
                self,
            ).books.bitstamp_book(),
            r@ == final(self).books.current(),
            final(self).publisher.capacity() == old(self).publisher.capacity(),
            final(self).publisher.issued() == old(self).publisher.issued(),
            final(self).publisher.queues().dom() == old(self).publisher.queues().dom(),
            forall|id: u64|
                old(self).publisher.queues().contains_key(id) ==> #[trigger] final(self).publisher.queues()[id]
                    == deliver(old(self).publisher.queues()[id], r@, old(self).publisher.capacity()),
    {
        let r = self.books.apply(update);
        self.publisher.publish(&r);
        r
    }
}

} // verus!
