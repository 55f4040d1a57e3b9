//! The merge engine: two books in, one best-of-N summary out.
//!
//! Each side is ranked by a stable insertion: a level goes after every level
//! already placed whose price is as good as or better than its own. Levels
//! of equal price thus keep the order of the concatenation, which puts the
//! first book's levels ahead of the second's.

use vstd::prelude::*;
use crate::book::{Level, OrderBook, Summary, SummaryView};

verus! {

/// A level at price `y` already placed stays ahead of a new level at price
/// `x`: for bids (`desc`) when `y >= x`, for asks when `y <= x`.
pub open spec fn stays_ahead(y: u64, x: u64, desc: bool) -> bool {
    if desc {
        y >= x
    } else {
        y <= x
    }
}

fn keeps_ahead(y: u64, x: u64, desc: bool) -> (r: bool)
    ensures
        r == stays_ahead(y, x, desc),
{
    if desc {
        y >= x
    } else {
        y <= x
    }
}

/// `s` with `x` inserted after the run of levels that stay ahead of it.
pub open spec fn insert_ranked(s: Seq<Level>, x: Level, desc: bool) -> Seq<Level>
    decreases s.len(),
{
    if s.len() == 0 {
        seq![x]
    } else if stays_ahead(s[0].price, x.price, desc) {
        seq![s[0]] + insert_ranked(s.drop_first(), x, desc)
    } else {
        seq![x] + s
    }
}

/// `s` ranked best first, ties in the order they came in.
pub open spec fn rank_levels(s: Seq<Level>, desc: bool) -> Seq<Level>
    decreases s.len(),
{
    if s.len() == 0 {
        Seq::empty()
    } else {
        insert_ranked(rank_levels(s.drop_last(), desc), s.last(), desc)
    }
}

/// The best `n` levels of `s`, best first.
pub open spec fn best_levels(s: Seq<Level>, n: nat, desc: bool) -> Seq<Level> {
    let r = rank_levels(s, desc);
    if n < r.len() {
        r.take(n as int)
    } else {
        r
    }
}

/// Best ask minus best bid, when both sides have a level.
pub open spec fn spread_of(bids: Seq<Level>, asks: Seq<Level>) -> Option<i128> {
    if bids.len() > 0 && asks.len() > 0 {
        Some((asks[0].price - bids[0].price) as i128)
    } else {
        None
    }
}

/// The summary of two books at depth `n`.
pub open spec fn merged(a: &OrderBook, b: &OrderBook, n: nat) -> SummaryView {
    let bids = best_levels(a.bids@ + b.bids@, n, true);
    let asks = best_levels(a.asks@ + b.asks@, n, false);
    SummaryView { spread: spread_of(bids, asks), bids, asks }
}

/// Each level of `s` stays ahead of every later one.
pub open spec fn is_ranked(s: Seq<Level>, desc: bool) -> bool {
    forall|i: int, j: int|
        0 <= i < j < s.len() ==> stays_ahead(#[trigger] s[i].price, #[trigger] s[j].price, desc)
}

proof fn lemma_insert_at(s: Seq<Level>, x: Level, desc: bool, j: int)
    requires
        0 <= j <= s.len(),
        forall|k: int| 0 <= k < j ==> stays_ahead(#[trigger] s[k].price, x.price, desc),
        j == s.len() || !stays_ahead(s[j].price, x.price, desc),
    ensures
        insert_ranked(s, x, desc) == s.insert(j, x),
    decreases j,
{
    if s.len() == 0 {
        assert(s.insert(j, x) =~= seq![x]);
    } else if j == 0 {
        assert(s.insert(j, x) =~= seq![x] + s);
    } else {
        let t = s.drop_first();
        assert forall|k: int| 0 <= k < j - 1 implies stays_ahead(#[trigger] t[k].price, x.price, desc) by {
            assert(t[k] == s[k + 1]);
        }
        lemma_insert_at(t, x, desc, j - 1);
        assert(s.insert(j, x) =~= seq![s[0]] + t.insert(j - 1, x));
    }
}

proof fn lemma_insert_ranked_keeps(s: Seq<Level>, x: Level, desc: bool)
    requires
        is_ranked(s, desc),
    ensures
        is_ranked(insert_ranked(s, x, desc), desc),
        insert_ranked(s, x, desc).to_multiset() == s.to_multiset().insert(x),
        insert_ranked(s, x, desc).len() == s.len() + 1,
    decreases s.len(),
{
    broadcast use vstd::seq_lib::group_to_multiset_ensures;
    broadcast use vstd::multiset::group_multiset_axioms;

    if s.len() == 0 {
        assert(seq![x] =~= s.push(x));
    } else if stays_ahead(s[0].price, x.price, desc) {
        let t = s.drop_first();
        assert(is_ranked(t, desc)) by {
            assert forall|i: int, j: int| 0 <= i < j < t.len() implies stays_ahead(
                #[trigger] t[i].price,
                #[trigger] t[j].price,
                desc,
            ) by {
                assert(t[i] == s[i + 1] && t[j] == s[j + 1]);
            }
        }
        lemma_insert_ranked_keeps(t, x, desc);
        let r = insert_ranked(t, x, desc);
        let whole = seq![s[0]] + r;
        assert forall|i: int, j: int| 0 <= i < j < whole.len() implies stays_ahead(
            #[trigger] whole[i].price,
            #[trigger] whole[j].price,
            desc,
        ) by {
            if i == 0 {
                assert(whole[j] == r[j - 1]);
                assert(r.contains(whole[j]));
                assert(r.to_multiset().count(whole[j]) > 0);
                if whole[j] != x {
                    assert(t.to_multiset().count(whole[j]) > 0);
                    assert(t.contains(whole[j]));
                    let k = choose|k: int| 0 <= k < t.len() && t[k] == whole[j];
                    assert(s[k + 1] == t[k]);
                }
            } else {
                assert(whole[i] == r[i - 1] && whole[j] == r[j - 1]);
            }
        }
        assert(s =~= seq![s[0]] + t);
        vstd::seq_lib::lemma_multiset_commutative(seq![s[0]], r);
        vstd::seq_lib::lemma_multiset_commutative(seq![s[0]], t);
        assert(whole.to_multiset() =~= s.to_multiset().insert(x));
    } else {
        let whole = seq![x] + s;
        assert forall|i: int, j: int| 0 <= i < j < whole.len() implies stays_ahead(
            #[trigger] whole[i].price,
            #[trigger] whole[j].price,
            desc,
        ) by {
            if i == 0 {
                assert(whole[j] == s[j - 1]);
                if j - 1 > 0 {
                    assert(stays_ahead(s[0].price, s[j - 1].price, desc));
                }
            } else {
                assert(whole[i] == s[i - 1] && whole[j] == s[j - 1]);
            }
        }
        vstd::seq_lib::lemma_multiset_commutative(seq![x], s);
        assert(seq![x] =~= Seq::<Level>::empty().push(x));
        assert(whole.to_multiset() =~= s.to_multiset().insert(x));
    }
}

/// Ranking yields a ranked permutation of its input.
pub proof fn lemma_rank_levels(s: Seq<Level>, desc: bool)
    ensures
        is_ranked(rank_levels(s, desc), desc),
        rank_levels(s, desc).to_multiset() == s.to_multiset(),
        rank_levels(s, desc).len() == s.len(),
    decreases s.len(),
{
    broadcast use vstd::seq_lib::group_to_multiset_ensures;

    if s.len() > 0 {
        lemma_rank_levels(s.drop_last(), desc);
        lemma_insert_ranked_keeps(rank_levels(s.drop_last(), desc), s.last(), desc);
        assert(s =~= s.drop_last().push(s.last()));
    }
}

/// Ranking a sequence that is already ranked changes nothing.
pub proof fn lemma_rank_ranked(s: Seq<Level>, desc: bool)
    requires
        is_ranked(s, desc),
    ensures
        rank_levels(s, desc) == s,
    decreases s.len(),
{
    if s.len() > 0 {
        let p = s.drop_last();
        assert(is_ranked(p, desc)) by {
            assert forall|i: int, j: int| 0 <= i < j < p.len() implies stays_ahead(
                #[trigger] p[i].price,
                #[trigger] p[j].price,
                desc,
            ) by {
                assert(p[i] == s[i] && p[j] == s[j]);
            }
        }
        lemma_rank_ranked(p, desc);
        assert forall|k: int| 0 <= k < p.len() implies stays_ahead(
            #[trigger] p[k].price,
            s.last().price,
            desc,
        ) by {
            assert(p[k] == s[k]);
        }
        lemma_insert_at(p, s.last(), desc, p.len() as int);
        assert(p.insert(p.len() as int, s.last()) =~= s);
    }
}

/// `r` is a best-`n` selection from `all`: ranked best first, `min(n, |all|)`
/// levels long, drawn from `all`, and no level of `all` left out ranks ahead
/// of one kept.
pub open spec fn is_best_selection(r: Seq<Level>, all: Seq<Level>, n: nat, desc: bool) -> bool {
    &&& is_ranked(r, desc)
    &&& r.len() <= n
    &&& (r.len() == n || r.len() == all.len())
    &&& r.to_multiset().subset_of(all.to_multiset())
    &&& forall|i: int, x: Level|
        0 <= i < r.len() && #[trigger] r.to_multiset().count(x) < all.to_multiset().count(x)
            ==> stays_ahead(#[trigger] r[i].price, x.price, desc)
}

proof fn lemma_best_levels(s: Seq<Level>, n: nat, desc: bool)
    ensures
        is_best_selection(best_levels(s, n, desc), s, n, desc),
{
    broadcast use vstd::seq_lib::group_to_multiset_ensures;
    broadcast use vstd::multiset::group_multiset_axioms;

    lemma_rank_levels(s, desc);
    let rk = rank_levels(s, desc);
    let r = best_levels(s, n, desc);
    let k = r.len() as int;
    let rest = rk.skip(k);
    assert(rk =~= r + rest);
    vstd::seq_lib::lemma_multiset_commutative(r, rest);
    assert(is_ranked(r, desc)) by {
        assert forall|i: int, j: int| 0 <= i < j < r.len() implies stays_ahead(
            #[trigger] r[i].price,
            #[trigger] r[j].price,
            desc,
        ) by {
            assert(r[i] == rk[i] && r[j] == rk[j]);
        }
    }
    assert forall|i: int, x: Level|
        0 <= i < r.len() && #[trigger] r.to_multiset().count(x) < s.to_multiset().count(
            x,
        ) implies stays_ahead(#[trigger] r[i].price, x.price, desc) by {
        assert(rest.to_multiset().count(x) > 0);
        assert(rest.contains(x));
        let m = choose|m: int| 0 <= m < rest.len() && rest[m] == x;
        assert(rk[k + m] == x);
        assert(rk[i] == r[i]);
    }
}

/// Each side of a merge holds the best `n` levels of both books' levels on
/// that side: ranked best first (bids by non-increasing, asks by
/// non-decreasing price), at most `n` of them, taken from the two books, and
/// none left out that ranks ahead of one kept.
pub proof fn merge_keeps_best_levels(a: &OrderBook, b: &OrderBook, n: nat)
    ensures
        is_best_selection(merged(a, b, n).bids, a.bids@ + b.bids@, n, true),
        is_best_selection(merged(a, b, n).asks, a.asks@ + b.asks@, n, false),
{
    lemma_best_levels(a.bids@ + b.bids@, n, true);
    lemma_best_levels(a.asks@ + b.asks@, n, false);
}

/// Merging a summary's own levels, as a single book, with an empty book at
/// the same depth gives the same summary back.
pub proof fn merge_is_idempotent(a: &OrderBook, b: &OrderBook, n: nat, c: &OrderBook, e: &OrderBook)
    requires
        c.bids@ == merged(a, b, n).bids,
        c.asks@ == merged(a, b, n).asks,
        e.bids@.len() == 0,
        e.asks@.len() == 0,
    ensures
        merged(c, e, n) == merged(a, b, n),
{
    lemma_best_levels(a.bids@ + b.bids@, n, true);
    lemma_best_levels(a.asks@ + b.asks@, n, false);
    assert(c.bids@ + e.bids@ =~= c.bids@);
    assert(c.asks@ + e.asks@ =~= c.asks@);
    lemma_rank_ranked(c.bids@, true);
    lemma_rank_ranked(c.asks@, false);
}

/// A merge never fails for want of levels: when both books lack bids, or
/// both lack asks, or the depth is 0, the summary has no spread; otherwise
/// the spread is the best ask price minus the best bid price.
pub proof fn merge_spread_is_defined(a: &OrderBook, b: &OrderBook, n: nat)
    ensures
        (a.bids@.len() == 0 && b.bids@.len() == 0) || (a.asks@.len() == 0 && b.asks@.len() == 0)
            || n == 0 ==> merged(a, b, n).spread is None,
        !((a.bids@.len() == 0 && b.bids@.len() == 0) || (a.asks@.len() == 0 && b.asks@.len() == 0)
            || n == 0) ==> merged(a, b, n).spread == Some(
            (merged(a, b, n).asks[0].price - merged(a, b, n).bids[0].price) as i128,
        ),
{
    lemma_rank_levels(a.bids@ + b.bids@, true);
    lemma_rank_levels(a.asks@ + b.asks@, false);
}

/// Ranks `v` best first, ties in the order they came in.
fn rank(v: &Vec<Level>, desc: bool) -> (r: Vec<Level>)
    ensures
        r@ == rank_levels(v@, desc),
{
    let mut out: Vec<Level> = Vec::new();
    let mut i: usize = 0;
    while i < v.len()
        invariant
            i <= v@.len(),
            out@ == rank_levels(v@.take(i as int), desc),
        decreases v@.len() - i,
    {
        let x = v[i];
        proof {
            lemma_rank_levels(v@.take(i as int), desc);
        }
        let mut j: usize = 0;
        while j < out.len() && keeps_ahead(out[j].price, x.price, desc)
            invariant
                j <= out@.len(),
                out@.len() == i,
                forall|k: int| 0 <= k < j ==> stays_ahead(#[trigger] out@[k].price, x.price, desc),
            decreases out@.len() - j,
        {
            j = j + 1;
        }
        proof {
            lemma_insert_at(out@, x, desc, j as int);
            assert(v@.take(i + 1).drop_last() =~= v@.take(i as int));
        }
        out.insert(j, x);
        i = i + 1;
    }
    proof {
        assert(v@.take(i as int) =~= v@);
    }
    out
}

/// `a` followed by `b`.
fn concat(a: &Vec<Level>, b: &Vec<Level>) -> (r: Vec<Level>)
    ensures
        r@ == a@ + b@,
{
    let mut r = crate::book::copy_levels(a);
    let mut i: usize = 0;
    while i < b.len()
        invariant
            i <= b@.len(),
            r@ == a@ + b@.take(i as int),
        decreases b@.len() - i,
    {
        r.push(b[i]);
        i = i + 1;
        proof {
            assert(r@ =~= a@ + b@.take(i as int));
        }
    }
    proof {
        assert(b@.take(i as int) =~= b@);
    }
    r
}

/// The best `n` levels of both lists together.
fn best_of_both(a: &Vec<Level>, b: &Vec<Level>, n: usize, desc: bool) -> (r: Vec<Level>)
    ensures
        r@ == best_levels(a@ + b@, n as nat, desc),
{
    let all = concat(a, b);
    let mut r = rank(&all, desc);
    r.truncate(n);
    r
}

impl Summary {
    /// Merges two books into their best `best_of` bids and asks. At equal
    /// prices the levels of `ob1` come first. The spread is `None` when
    /// either side of the result is empty.
    pub fn merge(ob1: &OrderBook, ob2: &OrderBook, best_of: usize) -> (r: Summary)
        ensures
            r@ == merged(ob1, ob2, best_of as nat),
    {
        let bids = best_of_both(&ob1.bids, &ob2.bids, best_of, true);
        let asks = best_of_both(&ob1.asks, &ob2.asks, best_of, false);
        let spread = if bids.len() > 0 && asks.len() > 0 {
            Some(asks[0].price as i128 - bids[0].price as i128)
        } else {
            None
        };
        Summary { spread, bids, asks }
    }
}

} // verus!
