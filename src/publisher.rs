//! The fan-out publisher: each published summary goes to every attached
//! subscriber's own bounded queue, and each subscriber reads its queue at
//! its own pace.
//!
//! Overflow policy: when a subscriber's queue is full, its oldest summary is
//! dropped to make room. Publishing never waits on a subscriber and never
//! fails because of one; a subscriber that has gone is detached.

use vstd::prelude::*;
use crate::book::{Summary, SummaryView};

verus! {

/// `q` after `s` is delivered into it under bound `cap`: appended, with the
/// oldest entry dropped first when the queue is full.
pub open spec fn deliver(q: Seq<SummaryView>, s: SummaryView, cap: nat) -> Seq<SummaryView> {
    if q.len() < cap {
        q.push(s)
    } else {
        q.drop_first().push(s)
    }
}

/// `q` after each summary of `xs` is delivered into it, in order.
pub open spec fn deliver_all(q: Seq<SummaryView>, xs: Seq<SummaryView>, cap: nat) -> Seq<
    SummaryView,
>
    decreases xs.len(),
{
    if xs.len() == 0 {
        q
    } else {
        deliver(deliver_all(q, xs.drop_last(), cap), xs.last(), cap)
    }
}

pub open spec fn queue_view(q: Seq<Summary>) -> Seq<SummaryView> {
    q.map_values(|s: Summary| s@)
}

/// A subscriber starts from an empty queue, so once the summaries `later`
/// have been published after it attached, it holds only summaries out of
/// `later`: the newest `min(cap, |later|)` of them, oldest first. Nothing
/// published before it attached is ever replayed to it.
pub proof fn late_subscriber_sees_only_later(later: Seq<SummaryView>, cap: nat)
    requires
        cap > 0,
    ensures
        deliver_all(Seq::empty(), later, cap) == later.skip(
            later.len() - (if cap < later.len() {
                cap
            } else {
                later.len()
            }),
        ),
    decreases later.len(),
{
    if later.len() > 0 {
        let d = later.drop_last();
        late_subscriber_sees_only_later(d, cap);
        let m = if cap < d.len() {
            cap
        } else {
            d.len()
        };
        let q = deliver_all(Seq::empty(), d, cap);
        if q.len() < cap {
            assert(q.push(later.last()) =~= later.skip(later.len() - (m + 1)));
        } else {
            assert(q.drop_first().push(later.last()) =~= later.skip(later.len() - cap));
        }
    } else {
        assert(later.skip(0) =~= later);
    }
}

/// Delivery into a queue reads that queue alone and never waits: however
/// full it was, the new summary lands at its end and the queue stays within
/// its bound.
pub proof fn delivery_never_waits(q: Seq<SummaryView>, s: SummaryView, cap: nat)
    requires
        cap > 0,
        q.len() <= cap,
    ensures
        deliver(q, s, cap).len() >= 1,
        deliver(q, s, cap).len() <= cap,
        deliver(q, s, cap).last() == s,
{
}

/// One attached subscriber and the summaries it has not read yet, oldest
/// first.
#[derive(Debug)]
struct Subscription {
    id: u64,
    queue: Vec<Summary>,
}

/// The registry of subscribers, each with its own bounded queue.
#[derive(Debug)]
pub struct Publisher {
    subscribers: Vec<Subscription>,
    next_id: u64,
    capacity: usize,
}

impl Publisher {
    /// How many summaries a subscriber's queue holds at most.
    pub closed spec fn capacity(&self) -> nat {
        self.capacity as nat
    }

    /// How many subscriber ids have been handed out.
    pub closed spec fn issued(&self) -> u64 {
        self.next_id
    }

    closed spec fn slot(&self, id: u64) -> int {
        choose|i: int| 0 <= i < self.subscribers@.len() && self.subscribers@[i].id == id
    }

    closed spec fn attached(&self, id: u64) -> bool {
        exists|i: int| 0 <= i < self.subscribers@.len() && self.subscribers@[i].id == id
    }

    /// The attached subscribers' ids and their pending summaries.
    pub closed spec fn queues(&self) -> Map<u64, Seq<SummaryView>> {
        Map::new(
            |id: u64| self.attached(id),
            |id: u64| queue_view(self.subscribers@[self.slot(id)].queue@),
        )
    }

    /// Ids are distinct and below the next one to issue, and no queue is
    /// over its bound.
    pub closed spec fn wf(&self) -> bool {
        &&& self.capacity > 0
        &&& forall|i: int, j: int|
            0 <= i < j < self.subscribers@.len() ==> #[trigger] self.subscribers@[i].id
                != #[trigger] self.subscribers@[j].id
        &&& forall|i: int|
            0 <= i < self.subscribers@.len() ==> {
                &&& (#[trigger] self.subscribers@[i]).id < self.next_id
                &&& self.subscribers@[i].queue@.len() <= self.capacity
            }
    }

    proof fn lemma_slot(&self, i: int)
        requires
            self.wf(),
            0 <= i < self.subscribers@.len(),
        ensures
            self.attached(self.subscribers@[i].id),
            self.slot(self.subscribers@[i].id) == i,
            self.queues()[self.subscribers@[i].id] == queue_view(self.subscribers@[i].queue@),
    {
        let id = self.subscribers@[i].id;
        assert(self.attached(id));
        let j = self.slot(id);
        if j != i {
            if j < i {
                assert(self.subscribers@[j].id != self.subscribers@[i].id);
            } else {
                assert(self.subscribers@[i].id != self.subscribers@[j].id);
            }
        }
    }

    /// Every queue of a well-formed publisher is within its bound.
    pub proof fn queues_stay_bounded(&self, id: u64)
        requires
            self.wf(),
            self.queues().contains_key(id),
        ensures
            self.queues()[id].len() <= self.capacity(),
    {
        self.lemma_slot(self.slot(id));
    }

    /// A publisher with no subscriber, whose queues hold at most `capacity`
    /// summaries each.
    pub fn new(capacity: usize) -> (r: Self)
        requires
            capacity > 0,
        ensures
            r.wf(),
            r.capacity() == capacity,
            r.issued() == 0,
            r.queues() == Map::<u64, Seq<SummaryView>>::empty(),
    {
        let r = Publisher { subscribers: Vec::new(), next_id: 0, capacity };
        assert(r.queues() =~= Map::<u64, Seq<SummaryView>>::empty());
        r
    }

    /// The number of attached subscribers.
    pub fn subscriber_count(&self) -> (r: usize)
        requires
            self.wf(),
        ensures
            r == self.queues().len(),
    {
        proof {
            self.lemma_count();
        }
        self.subscribers.len()
    }

    proof fn lemma_count(&self)
        requires
            self.wf(),
        ensures
            self.queues().len() == self.subscribers@.len(),
    {
        let ids = self.subscribers@.map_values(|s: Subscription| s.id);
        assert(ids.no_duplicates()) by {
            assert forall|i: int, j: int| 0 <= i < ids.len() && 0 <= j < ids.len() && i != j implies ids[i]
                != ids[j] by {
                if i < j {
                    assert(self.subscribers@[i].id != self.subscribers@[j].id);
                } else {
                    assert(self.subscribers@[j].id != self.subscribers@[i].id);
                }
            }
        }
        assert(self.queues().dom() =~= ids.to_set()) by {
            assert forall|id: u64| self.queues().dom().contains(id) implies ids.to_set().contains(id) by {
                let i = self.slot(id);
                assert(ids[i] == id);
            }
            assert forall|id: u64| ids.to_set().contains(id) implies self.queues().dom().contains(id) by {
                let i = choose|i: int| 0 <= i < ids.len() && ids[i] == id;
                assert(self.subscribers@[i].id == id);
            }
        }
        ids.unique_seq_to_set();
    }

    /// Where subscriber `id` sits in the registry, if attached.
    fn find(&self, id: u64) -> (r: Option<usize>)
        requires
            self.wf(),
        ensures
            r matches Some(i) ==> i < self.subscribers@.len() && self.subscribers@[i as int].id == id,
            r is None ==> !self.queues().contains_key(id),
    {
        let mut i: usize = 0;
        while i < self.subscribers.len()
            invariant
                i <= self.subscribers@.len(),
                forall|j: int| 0 <= j < i ==> (#[trigger] self.subscribers@[j]).id != id,
            decreases self.subscribers@.len() - i,
        {
            if self.subscribers[i].id == id {
                return Some(i);
            }
            i = i + 1;
        }
        None
    }

    /// Attaches a new subscriber with an empty queue: it receives only what
    /// is published from now on. `None` once every id has been handed out.
    pub fn subscribe(&mut self) -> (r: Option<u64>)
        requires
            old(self).wf(),
        ensures
            final(self).wf(),
            final(self).capacity() == old(self).capacity(),
            r is None <==> old(self).issued() == u64::MAX,
            r is None ==> final(self).queues() == old(self).queues(),
            r matches Some(id) ==> {
                &&& id == old(self).issued()
                &&& !old(self).queues().contains_key(id)
                &&& final(self).queues() == old(self).queues().insert(id, Seq::empty())
            },
    {
        if self.next_id == u64::MAX {
            return None;
        }
        let id = self.next_id;
        let ghost pre = *self;
        self.subscribers.push(Subscription { id, queue: Vec::new() });
        self.next_id = self.next_id + 1;
        proof {
            assert(!pre.queues().contains_key(id)) by {
                if pre.attached(id) {
                    let i = pre.slot(id);
                    assert(pre.subscribers@[i].id < pre.next_id);
                }
            }
            let n = pre.subscribers@.len() as int;
            assert(self.subscribers@[n].id == id);
            self.lemma_slot(n);
            assert(queue_view(self.subscribers@[n].queue@) =~= Seq::empty());
            assert forall|k: u64| #[trigger] pre.queues().contains_key(k) implies self.queues().contains_key(k)
                && self.queues()[k] == pre.queues()[k] by {
                let i = pre.slot(k);
                pre.lemma_slot(i);
                assert(self.subscribers@[i] == pre.subscribers@[i]);
                self.lemma_slot(i);
            }
            assert forall|k: u64| #[trigger] self.queues().contains_key(k) implies k == id
                || pre.queues().contains_key(k) by {
                let i = self.slot(k);
                if i < n {
                    assert(pre.subscribers@[i] == self.subscribers@[i]);
                }
            }
            assert(self.queues() =~= pre.queues().insert(id, Seq::empty()));
        }
        Some(id)
    }

    /// Detaches subscriber `id` and drops its queue; `false` when it was not
    /// attached.
    pub fn unsubscribe(&mut self, id: u64) -> (r: bool)
        requires
            old(self).wf(),
        ensures
            final(self).wf(),
            final(self).capacity() == old(self).capacity(),
            final(self).issued() == old(self).issued(),
            r == old(self).queues().contains_key(id),
            final(self).queues() == old(self).queues().remove(id),
    {
        let ghost pre = *self;
        match self.find(id) {
            None => {
                proof {
                    assert(self.queues() =~= pre.queues().remove(id));
                }
                false
            },
            Some(i) => {
                self.subscribers.remove(i);
                proof {
                    pre.lemma_slot(i as int);
                    self.lemma_removed(&pre, i as int);
                }
                true
            },
        }
    }

    proof fn lemma_removed(&self, pre: &Publisher, i: int)
        requires
            pre.wf(),
            0 <= i < pre.subscribers@.len(),
            self.subscribers@ == pre.subscribers@.remove(i),
            self.capacity == pre.capacity,
            self.next_id == pre.next_id,
        ensures
            self.wf(),
            self.queues() == pre.queues().remove(pre.subscribers@[i].id),
    {
        let id = pre.subscribers@[i].id;
        let s = self.subscribers@;
        let p = pre.subscribers@;
        assert forall|a: int, b: int| 0 <= a < b < s.len() implies #[trigger] s[a].id != #[trigger] s[b].id by {
            let a2 = if a < i { a } else { a + 1 };
            let b2 = if b < i { b } else { b + 1 };
            assert(s[a] == p[a2] && s[b] == p[b2]);
        }
        assert forall|a: int| 0 <= a < s.len() implies (#[trigger] s[a]).id < self.next_id
            && s[a].queue@.len() <= self.capacity by {
            let a2 = if a < i { a } else { a + 1 };
            assert(s[a] == p[a2]);
        }
        assert forall|k: u64| #[trigger] self.queues().contains_key(k) implies k != id
            && pre.queues().contains_key(k) && self.queues()[k] == pre.queues()[k] by {
            let a = self.slot(k);
            let a2 = if a < i { a } else { a + 1 };
            assert(s[a] == p[a2]);
            if k == id {
                if a2 < i {
                    assert(p[a2].id != p[i].id);
                } else {
                    assert(p[i].id != p[a2].id);
                }
            }
            pre.lemma_slot(a2);
            self.lemma_slot(a);
        }
        assert forall|k: u64| #[trigger] pre.queues().contains_key(k) && k != id implies self.queues().contains_key(
            k,
        ) by {
            let a2 = pre.slot(k);
            assert(a2 != i);
            let a = if a2 < i { a2 } else { a2 - 1 };
            assert(s[a] == p[a2]);
        }
        assert(self.queues() =~= pre.queues().remove(id));
    }

    /// Delivers `s` to every attached subscriber: each queue gets a copy at
    /// its end, dropping its oldest summary first when it is full. No
    /// subscriber's backlog affects what another receives.
    pub fn publish(&mut self, s: &Summary)
        requires
            old(self).wf(),
        ensures
            final(self).wf(),
            final(self).capacity() == old(self).capacity(),
            final(self).issued() == old(self).issued(),
            final(self).queues().dom() == old(self).queues().dom(),
            forall|id: u64|
                old(self).queues().contains_key(id) ==> #[trigger] final(self).queues()[id] == deliver(
                    old(self).queues()[id],
                    s@,
                    old(self).capacity(),
                ),
            forall|id: u64|
                final(self).queues().contains_key(id) ==> (#[trigger] final(self).queues()[id]).last()
                    == s@,
    {
        let ghost pre = *self;
        let mut i: usize = 0;
        while i < self.subscribers.len()
            invariant
                pre.wf(),
                self.capacity == pre.capacity,
                self.next_id == pre.next_id,
                i <= self.subscribers@.len(),
                self.subscribers@.len() == pre.subscribers@.len(),
                forall|j: int|
                    0 <= j < self.subscribers@.len() ==> (#[trigger] self.subscribers@[j]).id
                        == pre.subscribers@[j].id,
                forall|j: int|
                    0 <= j < i ==> queue_view((#[trigger] self.subscribers@[j]).queue@) == deliver(
                        queue_view(pre.subscribers@[j].queue@),
                        s@,
                        pre.capacity as nat,
                    ),
                forall|j: int|
                    0 <= j < i ==> (#[trigger] self.subscribers@[j]).queue@.len()
                        <= self.capacity,
                forall|j: int|
                    i <= j < self.subscribers@.len() ==> (#[trigger] self.subscribers@[j])
                        == pre.subscribers@[j],
            decreases self.subscribers@.len() - i,
        {
            let ghost q0 = self.subscribers@[i as int].queue@;
            assert(q0 == pre.subscribers@[i as int].queue@);
            if self.subscribers[i].queue.len() >= self.capacity {
                self.subscribers[i].queue.remove(0);
            }
            self.subscribers[i].queue.push(s.copy());
            proof {
                let q1 = self.subscribers@[i as int].queue@;
                assert(queue_view(q1) =~= deliver(queue_view(q0), s@, pre.capacity as nat));
            }
            i = i + 1;
        }
        proof {
            assert(self.wf());
            assert forall|id: u64| #[trigger] pre.queues().contains_key(id) implies self.queues().contains_key(id)
                && self.queues()[id] == deliver(pre.queues()[id], s@, pre.capacity as nat) by {
                let j = pre.slot(id);
                pre.lemma_slot(j);
                self.lemma_slot(j);
            }
            assert forall|id: u64| #[trigger] self.queues().contains_key(id) implies pre.queues().contains_key(id) by {
                let j = self.slot(id);
                pre.lemma_slot(j);
            }
            assert(self.queues().dom() =~= pre.queues().dom());
        }
    }

    /// Takes the oldest summary that subscriber `id` has not read yet;
    /// `None` when it is not attached or has nothing pending.
    pub fn next(&mut self, id: u64) -> (r: Option<Summary>)
        requires
            old(self).wf(),
        ensures
            final(self).wf(),
            final(self).capacity() == old(self).capacity(),
            final(self).issued() == old(self).issued(),
            r is Some <==> old(self).queues().contains_key(id) && old(self).queues()[id].len() > 0,
            r matches Some(x) ==> x@ == old(self).queues()[id][0] && final(self).queues()
                == old(self).queues().insert(id, old(self).queues()[id].drop_first()),
            r is None ==> final(self).queues() == old(self).queues(),
    {
        let ghost pre = *self;
        match self.find(id) {
            None => None,
            Some(i) => {
                proof {
                    pre.lemma_slot(i as int);
                }
                if self.subscribers[i].queue.len() == 0 {
                    return None;
                }
                let x = self.subscribers[i].queue.remove(0);
                proof {
                    assert(self.wf()) by {
                        assert forall|a: int, b: int|
                            0 <= a < b < self.subscribers@.len() implies #[trigger] self.subscribers@[a].id
                            != #[trigger] self.subscribers@[b].id by {
                            assert(pre.subscribers@[a].id != pre.subscribers@[b].id);
                        }
                        assert forall|a: int| 0 <= a < self.subscribers@.len() implies (
                        #[trigger] self.subscribers@[a]).id < self.next_id
                            && self.subscribers@[a].queue@.len() <= self.capacity by {
                            assert(pre.subscribers@[a].id == self.subscribers@[a].id);
                        }
                    }
                    assert(queue_view(self.subscribers@[i as int].queue@) =~= pre.queues()[id].drop_first());
                    assert forall|k: u64| #[trigger] pre.queues().contains_key(k) && k != id implies self.queues().contains_key(k)
                        && self.queues()[k] == pre.queues()[k] by {
                        let j = pre.slot(k);
                        pre.lemma_slot(j);
                        assert(self.subscribers@[j] == pre.subscribers@[j]);
                        self.lemma_slot(j);
                    }
                    assert forall|k: u64| #[trigger] self.queues().contains_key(k) implies pre.queues().contains_key(k) by {
                        let j = self.slot(k);
                        assert(pre.subscribers@[j].id == self.subscribers@[j].id);
                    }
                    self.lemma_slot(i as int);
                    assert(self.queues() =~= pre.queues().insert(id, pre.queues()[id].drop_first()));
                }
                Some(x)
            },
        }
    }

    /// How many summaries subscriber `id` has not read yet; 0 when it is not
    /// attached.
    pub fn pending(&self, id: u64) -> (r: usize)
        requires
            self.wf(),
        ensures
            r == (if self.queues().contains_key(id) {
                self.queues()[id].len()
            } else {
                0
            }),
    {
        match self.find(id) {
            None => 0,
            Some(i) => {
                proof {
                    self.lemma_slot(i as int);
                }
                self.subscribers[i].queue.len()
            },
        }
    }
}

} // verus!
