//! The summary engine: category-grouped spend over a trailing seven-day
//! window.
//!
//! A transaction is included exactly when it is strictly less than seven
//! days (in seconds) old at the instant the summary is taken; amounts of
//! included transactions accumulate into a bucket per category, and a
//! category appears in the output only if some included transaction carries
//! it. The function is pure: its result is pinned by the cache contents and
//! the instant alone, and is independent of the order of accounts and of
//! transactions (proved below).

use vstd::prelude::*;

use crate::cache::{
    UserCache, assoc_keys_unique, assoc_map, lemma_assoc_map_at, lemma_assoc_map_dom,
    lemma_assoc_map_update,
};
use crate::model::TransactionView;
use vstd::pervasive::VecAdditionalExecFns;
use vstd::seq_lib::group_to_multiset_ensures;

verus! {

/// Seconds in the trailing window: seven days.
pub const WINDOW_SECONDS: i64 = 7 * 86400;

/// Whether a transaction at `timestamp` is strictly less than seven days old
/// at `now`. The bound is strict: a transaction exactly seven days old is out.
pub open spec fn spec_included(timestamp: int, now: int) -> bool {
    now - timestamp < WINDOW_SECONDS
}

/// One bucket update: an included transaction adds its amount to its
/// category's bucket (opening the bucket at zero); an excluded one changes
/// nothing.
pub open spec fn txn_bucket(m: Map<Seq<char>, int>, t: TransactionView, now: int) -> Map<
    Seq<char>,
    int,
> {
    if spec_included(t.timestamp, now) {
        bucket_add(m, t.transaction_category, t.amount)
    } else {
        m
    }
}

/// Adds `amount` to the bucket for `cat`, opening it at zero.
pub open spec fn bucket_add(m: Map<Seq<char>, int>, cat: Seq<char>, amount: int) -> Map<
    Seq<char>,
    int,
> {
    m.insert(cat, (if m.dom().contains(cat) { m[cat] } else { 0 }) + amount)
}

/// Folds one account's transactions into the buckets, in order.
pub open spec fn summarize_txns(m: Map<Seq<char>, int>, ts: Seq<TransactionView>, now: int) -> Map<
    Seq<char>,
    int,
>
    decreases ts.len(),
{
    if ts.len() == 0 {
        m
    } else {
        txn_bucket(summarize_txns(m, ts.drop_last(), now), ts.last(), now)
    }
}

/// Folds every account into the buckets, in order.
pub open spec fn summarize_entries(
    m: Map<Seq<char>, int>,
    es: Seq<(Seq<char>, Seq<TransactionView>)>,
    now: int,
) -> Map<Seq<char>, int>
    decreases es.len(),
{
    if es.len() == 0 {
        m
    } else {
        summarize_txns(summarize_entries(m, es.drop_last(), now), es.last().1, now)
    }
}

/// The summary of a whole store at instant `now`.
pub open spec fn summary_of(es: Seq<(Seq<char>, Seq<TransactionView>)>, now: int) -> Map<
    Seq<char>,
    int,
> {
    summarize_entries(Map::empty(), es, now)
}

/// How many transactions a store holds over all accounts.
pub open spec fn total_txns(es: Seq<(Seq<char>, Seq<TransactionView>)>) -> int
    decreases es.len(),
{
    if es.len() == 0 {
        0
    } else {
        total_txns(es.drop_last()) + es.last().1.len()
    }
}

proof fn lemma_total_txns_nonneg(es: Seq<(Seq<char>, Seq<TransactionView>)>)
    ensures
        0 <= total_txns(es),
    decreases es.len(),
{
    if es.len() > 0 {
        lemma_total_txns_nonneg(es.drop_last());
    }
}

proof fn lemma_total_txns_take_le(es: Seq<(Seq<char>, Seq<TransactionView>)>, i: int)
    requires
        0 <= i <= es.len(),
    ensures
        total_txns(es.take(i)) <= total_txns(es),
    decreases es.len() - i,
{
    if i == es.len() {
        assert(es.take(i) =~= es);
    } else {
        lemma_total_txns_take_le(es, i + 1);
        assert(es.take(i + 1).drop_last() =~= es.take(i));
        assert(es.take(i + 1).last() == es[i]);
    }
}

/// Whether an accumulated value is within `p` maximal single amounts.
pub open spec fn bucket_in_range(v: int, p: int) -> bool {
    -(p * 0x8000_0000_0000_0000) <= v <= p * 0x8000_0000_0000_0000
}

/// The spend summary: category to accumulated amount of the included
/// transactions, as an association list with unique categories.
pub struct Summary {
    pub entries: Vec<(String, i128)>,
}

impl View for Summary {
    type V = Map<Seq<char>, int>;

    open spec fn view(&self) -> Map<Seq<char>, int> {
        assoc_map(self.entries_view())
    }
}

impl Summary {
    /// The association list itself.
    pub open spec fn entries_view(&self) -> Seq<(Seq<char>, int)> {
        self.entries@.map_values(|e: (String, i128)| (e.0@, e.1 as int))
    }

    /// Well-formed: categories are unique.
    pub open spec fn wf(&self) -> bool {
        assoc_keys_unique(self.entries_view())
    }

    /// Every bucket's magnitude is at most `p` maximal amounts: the bound
    /// that keeps accumulation inside its machine type.
    pub open spec fn bounded(&self, p: int) -> bool {
        forall|i: int|
            0 <= i < self.entries@.len() ==> bucket_in_range(
                (#[trigger] self.entries@[i].1) as int,
                p,
            )
    }

    /// An empty summary.
    pub fn new() -> (r: Summary)
        ensures
            r.wf(),
            r@ == Map::<Seq<char>, int>::empty(),
            r.bounded(0),
    {
        let r = Summary { entries: Vec::new() };
        proof {
            assert(r.entries_view() =~= Seq::<(Seq<char>, int)>::empty());
        }
        r
    }

    /// How many categories appear.
    pub fn len(&self) -> (r: usize)
        ensures
            r == self.entries@.len(),
    {
        self.entries.len()
    }

    /// The accumulated amount for a category, `None` where no included
    /// transaction carried it.
    pub fn get(&self, category: &str) -> (r: Option<i128>)
        requires
            self.wf(),
        ensures
            match r {
                Some(v) => self@.dom().contains(category@) && v as int == self@[category@],
                None => !self@.dom().contains(category@),
            },
    {
        let key: String = category.to_owned();
        let mut i: usize = 0;
        while i < self.entries.len()
            invariant
                self.wf(),
                key@ == category@,
                0 <= i <= self.entries@.len(),
                forall|j: int| 0 <= j < i ==> self.entries@[j].0@ != category@,
            decreases self.entries@.len() - i,
        {
            if self.entries[i].0 == key {
                proof {
                    lemma_assoc_map_at(self.entries_view(), i as int);
                }
                return Some(self.entries[i].1);
            }
            i += 1;
        }
        proof {
            lemma_assoc_map_dom(self.entries_view(), category@);
        }
        None
    }

    /// Adds one amount to one category's bucket.
    fn add(&mut self, category: &String, amount: i64, Ghost(p): Ghost<int>)
        requires
            old(self).wf(),
            old(self).bounded(p),
            0 <= p,
            p + 1 <= 0xffff_ffff_ffff_ffff,
        ensures
            final(self).wf(),
            final(self)@ == bucket_add(old(self)@, category@, amount as int),
            final(self).bounded(p + 1),
    {
        let ghost old_entries = self.entries_view();
        let mut i: usize = 0;
        while i < self.entries.len()
            invariant
                self.entries@ == old(self).entries@,
                self.wf(),
                old(self).bounded(p),
                0 <= p,
                p + 1 <= 0xffff_ffff_ffff_ffff,
                old_entries == self.entries_view(),
                0 <= i <= self.entries@.len(),
                forall|j: int| 0 <= j < i ==> self.entries@[j].0@ != category@,
            decreases self.entries@.len() - i,
        {
            if self.entries[i].0 == *category {
                let ghost idx = i as int;
                proof {
                    lemma_assoc_map_at(old_entries, idx);
                }
                let v = self.entries[i].1;
                proof {
                    assert(self.entries@ == old(self).entries@);
                    assert(old(self).bounded(p));
                    assert(v == old(self).entries@[idx].1);
                    assert(bucket_in_range(v as int, p));
                    assert((p + 1) * 0x8000_0000_0000_0000 == p * 0x8000_0000_0000_0000
                        + 0x8000_0000_0000_0000) by (nonlinear_arith);
                    assert(bucket_in_range(v as int + amount as int, p + 1));
                }
                let nv = v + amount as i128;
                self.entries.set(i, (category.clone(), nv));
                proof {
                    assert(self.entries_view() =~= old_entries.update(
                        idx,
                        (category@, nv as int),
                    ));
                    lemma_assoc_map_update(old_entries, idx, nv as int);
                }
                return ;
            }
            i += 1;
        }
        proof {
            lemma_assoc_map_dom(old_entries, category@);
        }
        self.entries.push((category.clone(), amount as i128));
        proof {
            assert(self.entries_view() =~= old_entries.push((category@, amount as int)));
            assert(self.entries_view().drop_last() =~= old_entries);
            assert(forall|a: int, b: int|
                0 <= a < b < self.entries_view().len() ==> self.entries_view()[a].0
                    != self.entries_view()[b].0);
        }
    }
}

/// Computes the category-grouped spend of the included transactions of every
/// account at instant `now` (epoch seconds).
pub fn summarize_transactions(cache: &UserCache, now: i64) -> (r: Summary)
    requires
        cache.wf(),
        total_txns(cache.entries_view()) <= 0xffff_ffff_ffff_ffff,
    ensures
        r.wf(),
        r@ == summary_of(cache.entries_view(), now as int),
        r@ == spec_summary(cache.entries_view(), now as int),
{
    let ghost es = cache.entries_view();
    proof {
        lemma_summary_closed_form(es, now as int);
    }
    let mut sum = Summary::new();
    proof {
        assert(es.take(0) =~= Seq::<(Seq<char>, Seq<TransactionView>)>::empty());
        lemma_total_txns_nonneg(es.take(0));
    }
    let mut i: usize = 0;
    while i < cache.entries.len()
        invariant
            cache.wf(),
            es == cache.entries_view(),
            total_txns(es) <= 0xffff_ffff_ffff_ffff,
            0 <= i <= cache.entries@.len(),
            sum.wf(),
            sum@ == summarize_entries(Map::<Seq<char>, int>::empty(), es.take(i as int), now as int),
            sum.bounded(total_txns(es.take(i as int))),
            0 <= total_txns(es.take(i as int)),
        decreases cache.entries@.len() - i,
    {
        let ghost outer = summarize_entries(Map::<Seq<char>, int>::empty(), es.take(i as int), now as int);
        let ghost base = total_txns(es.take(i as int));
        let ghost ts = es[i as int].1;
        proof {
            assert(ts.take(0) =~= Seq::<TransactionView>::empty());
            assert(es.take(i as int + 1).drop_last() =~= es.take(i as int));
            assert(es.take(i as int + 1).last() == es[i as int]);
            lemma_total_txns_take_le(es, i as int + 1);
        }
        let n = cache.entries[i].1.len();
        let mut j: usize = 0;
        while j < n
            invariant
                cache.wf(),
                es == cache.entries_view(),
                total_txns(es) <= 0xffff_ffff_ffff_ffff,
                0 <= i < cache.entries@.len(),
                ts == es[i as int].1,
                n == ts.len(),
                0 <= j <= n,
                sum.wf(),
                sum@ == summarize_txns(outer, ts.take(j as int), now as int),
                sum.bounded(base + j),
                0 <= base,
                base + n <= total_txns(es),
            decreases n - j,
        {
            let t_amount = cache.entries[i].1[j].amount;
            let t_timestamp = cache.entries[i].1[j].timestamp;
            proof {
                assert(ts.take(j as int + 1).drop_last() =~= ts.take(j as int));
                assert(ts.take(j as int + 1).last() == ts[j as int]);
            }
            if (now as i128) - (t_timestamp as i128) < (WINDOW_SECONDS as i128) {
                let cat = &cache.entries[i].1[j].transaction_category;
                sum.add(cat, t_amount, Ghost(base + j as int));
            }
            j += 1;
        }
        proof {
            assert(ts.take(n as int) =~= ts);
            assert(es.take(i as int + 1).drop_last() =~= es.take(i as int));
            assert(es.take(i as int + 1).last() == es[i as int]);
        }
        i += 1;
    }
    proof {
        assert(es.take(cache.entries@.len() as int) =~= es);
    }
    sum
}


/// Sum of a pointwise weight over a sequence.
pub open spec fn seq_sum<A>(s: Seq<A>, f: spec_fn(A) -> int) -> int
    decreases s.len(),
{
    if s.len() == 0 {
        0
    } else {
        seq_sum(s.drop_last(), f) + f(s.last())
    }
}

/// Whether some element satisfies a predicate.
pub open spec fn seq_any<A>(s: Seq<A>, f: spec_fn(A) -> bool) -> bool {
    exists|i: int| 0 <= i < s.len() && f(s[i])
}

/// Whether a transaction falls into the bucket of `cat` at `now`.
pub open spec fn txn_counts(t: TransactionView, cat: Seq<char>, now: int) -> bool {
    t.transaction_category == cat && spec_included(t.timestamp, now)
}

/// The amount a single transaction contributes to the bucket of `cat`.
pub open spec fn txn_weight(t: TransactionView, cat: Seq<char>, now: int) -> int {
    if txn_counts(t, cat, now) {
        t.amount
    } else {
        0
    }
}

/// The contribution of one account's transactions to the bucket of `cat`.
pub open spec fn seq_weight(ts: Seq<TransactionView>, cat: Seq<char>, now: int) -> int {
    seq_sum(ts, |t: TransactionView| txn_weight(t, cat, now))
}

/// The contribution of a whole store to the bucket of `cat`.
pub open spec fn entries_weight(
    es: Seq<(Seq<char>, Seq<TransactionView>)>,
    cat: Seq<char>,
    now: int,
) -> int {
    seq_sum(es, |e: (Seq<char>, Seq<TransactionView>)| seq_weight(e.1, cat, now))
}

/// Whether some transaction of one account falls into the bucket of `cat`.
pub open spec fn seq_has(ts: Seq<TransactionView>, cat: Seq<char>, now: int) -> bool {
    seq_any(ts, |t: TransactionView| txn_counts(t, cat, now))
}

/// Whether some transaction of a whole store falls into the bucket of `cat`.
pub open spec fn entries_has(
    es: Seq<(Seq<char>, Seq<TransactionView>)>,
    cat: Seq<char>,
    now: int,
) -> bool {
    seq_any(es, |e: (Seq<char>, Seq<TransactionView>)| seq_has(e.1, cat, now))
}

/// The summary in closed form: a bucket for exactly the categories that some
/// included transaction carries, holding the total weight of the category.
pub open spec fn spec_summary(es: Seq<(Seq<char>, Seq<TransactionView>)>, now: int) -> Map<
    Seq<char>,
    int,
> {
    Map::new(
        |c: Seq<char>| entries_has(es, c, now),
        |c: Seq<char>| entries_weight(es, c, now),
    )
}

proof fn lemma_seq_sum_all_zero<A>(s: Seq<A>, f: spec_fn(A) -> int)
    requires
        forall|i: int| 0 <= i < s.len() ==> f(s[i]) == 0,
    ensures
        seq_sum(s, f) == 0,
    decreases s.len(),
{
    if s.len() > 0 {
        let d = s.drop_last();
        assert(forall|i: int| 0 <= i < d.len() ==> d[i] == s[i]);
        lemma_seq_sum_all_zero(d, f);
        assert(f(s.last()) == 0);
    }
}

proof fn lemma_seq_any_step<A>(s: Seq<A>, f: spec_fn(A) -> bool)
    requires
        s.len() > 0,
    ensures
        seq_any(s, f) == (seq_any(s.drop_last(), f) || f(s.last())),
{
    let d = s.drop_last();
    if seq_any(d, f) {
        let i = choose|i: int| 0 <= i < d.len() && f(d[i]);
        assert(s[i] == d[i]);
        assert(seq_any(s, f));
    }
    if f(s.last()) {
        assert(f(s[s.len() - 1]));
        assert(seq_any(s, f));
    }
    if seq_any(s, f) {
        let i = choose|i: int| 0 <= i < s.len() && f(s[i]);
        if i < s.len() - 1 {
            assert(d[i] == s[i]);
            assert(seq_any(d, f));
        } else {
            assert(f(s.last()));
        }
    }
}

/// The closed form of folding one account into existing buckets.
pub open spec fn txns_form(m: Map<Seq<char>, int>, ts: Seq<TransactionView>, now: int) -> Map<
    Seq<char>,
    int,
> {
    Map::new(
        |c: Seq<char>| m.dom().contains(c) || seq_has(ts, c, now),
        |c: Seq<char>|
            (if m.dom().contains(c) {
                m[c]
            } else {
                0
            }) + seq_weight(ts, c, now),
    )
}

proof fn lemma_summarize_txns_form(m: Map<Seq<char>, int>, ts: Seq<TransactionView>, now: int)
    ensures
        summarize_txns(m, ts, now) == txns_form(m, ts, now),
    decreases ts.len(),
{
    if ts.len() == 0 {
        assert(summarize_txns(m, ts, now) =~= txns_form(m, ts, now));
    } else {
        let d = ts.drop_last();
        let t = ts.last();
        lemma_summarize_txns_form(m, d, now);
        let prev = txns_form(m, d, now);
        let lhs = txn_bucket(prev, t, now);
        let rhs = txns_form(m, ts, now);
        assert(summarize_txns(m, ts, now) == lhs);
        assert forall|k: Seq<char>|
            #[trigger] rhs.dom().contains(k) == lhs.dom().contains(k) && (lhs.dom().contains(k)
                ==> lhs[k] == rhs[k]) by {
            assert(seq_weight(ts, k, now) == seq_weight(d, k, now) + txn_weight(t, k, now));
            lemma_seq_any_step(ts, |x: TransactionView| txn_counts(x, k, now));
            assert(seq_has(ts, k, now) == (seq_has(d, k, now) || txn_counts(t, k, now)));
            if spec_included(t.timestamp, now) {
                let c0 = t.transaction_category;
                if k == c0 && !(m.dom().contains(c0) || seq_has(d, c0, now)) {
                    assert forall|i: int| 0 <= i < d.len() implies txn_weight(
                        #[trigger] d[i],
                        c0,
                        now,
                    ) == 0 by {
                        assert(!txn_counts(d[i], c0, now));
                    }
                    lemma_seq_sum_all_zero(d, |x: TransactionView| txn_weight(x, c0, now));
                    assert(seq_weight(d, c0, now) == 0);
                }
                if k != c0 {
                    assert(!txn_counts(t, k, now));
                    assert(txn_weight(t, k, now) == 0);
                }
            } else {
                assert(txn_weight(t, k, now) == 0);
                assert(!txn_counts(t, k, now));
            }
        }
        assert(lhs =~= rhs);
    }
}

/// The closed form of folding a whole store into existing buckets.
pub open spec fn entries_form(
    m: Map<Seq<char>, int>,
    es: Seq<(Seq<char>, Seq<TransactionView>)>,
    now: int,
) -> Map<Seq<char>, int> {
    Map::new(
        |c: Seq<char>| m.dom().contains(c) || entries_has(es, c, now),
        |c: Seq<char>|
            (if m.dom().contains(c) {
                m[c]
            } else {
                0
            }) + entries_weight(es, c, now),
    )
}

proof fn lemma_summarize_entries_form(
    m: Map<Seq<char>, int>,
    es: Seq<(Seq<char>, Seq<TransactionView>)>,
    now: int,
)
    ensures
        summarize_entries(m, es, now) == entries_form(m, es, now),
    decreases es.len(),
{
    if es.len() == 0 {
        assert(summarize_entries(m, es, now) =~= entries_form(m, es, now));
    } else {
        let d = es.drop_last();
        let e = es.last();
        lemma_summarize_entries_form(m, d, now);
        let prev = entries_form(m, d, now);
        lemma_summarize_txns_form(prev, e.1, now);
        let lhs = txns_form(prev, e.1, now);
        let rhs = entries_form(m, es, now);
        assert(summarize_entries(m, es, now) == lhs);
        assert forall|k: Seq<char>|
            #[trigger] rhs.dom().contains(k) == lhs.dom().contains(k) && (lhs.dom().contains(k)
                ==> lhs[k] == rhs[k]) by {
            assert(entries_weight(es, k, now) == entries_weight(d, k, now) + seq_weight(
                e.1,
                k,
                now,
            ));
            lemma_seq_any_step(es, |x: (Seq<char>, Seq<TransactionView>)| seq_has(x.1, k, now));
            assert(entries_has(es, k, now) == (entries_has(d, k, now) || seq_has(e.1, k, now)));
            if !m.dom().contains(k) && !entries_has(d, k, now) {
                assert forall|i: int| 0 <= i < d.len() implies seq_weight(
                    (#[trigger] d[i]).1,
                    k,
                    now,
                ) == 0 by {
                    assert(!seq_has(d[i].1, k, now));
                    assert forall|j: int| 0 <= j < d[i].1.len() implies txn_weight(
                        #[trigger] d[i].1[j],
                        k,
                        now,
                    ) == 0 by {
                        assert(!txn_counts(d[i].1[j], k, now));
                    }
                    lemma_seq_sum_all_zero(d[i].1, |x: TransactionView| txn_weight(x, k, now));
                }
                lemma_seq_sum_all_zero(
                    d,
                    |x: (Seq<char>, Seq<TransactionView>)| seq_weight(x.1, k, now),
                );
                assert(entries_weight(d, k, now) == 0);
            }
        }
        assert(lhs =~= rhs);
    }
}

/// Law: the summary equals its closed form — one bucket for exactly the
/// categories with some included transaction, holding the category's total.
pub proof fn lemma_summary_closed_form(es: Seq<(Seq<char>, Seq<TransactionView>)>, now: int)
    ensures
        summary_of(es, now) == spec_summary(es, now),
{
    lemma_summarize_entries_form(Map::empty(), es, now);
    assert(entries_form(Map::empty(), es, now) =~= spec_summary(es, now));
}

proof fn lemma_seq_sum_remove<A>(s: Seq<A>, f: spec_fn(A) -> int, k: int)
    requires
        0 <= k < s.len(),
    ensures
        seq_sum(s, f) == seq_sum(s.remove(k), f) + f(s[k]),
    decreases s.len(),
{
    if k == s.len() - 1 {
        assert(s.remove(k) =~= s.drop_last());
    } else {
        let d = s.drop_last();
        lemma_seq_sum_remove(d, f, k);
        assert(s.remove(k).drop_last() =~= d.remove(k));
        assert(s.remove(k).last() == s.last());
        assert(d[k] == s[k]);
    }
}

proof fn lemma_seq_sum_permutation<A>(s1: Seq<A>, s2: Seq<A>, f: spec_fn(A) -> int)
    requires
        s1.to_multiset() == s2.to_multiset(),
    ensures
        seq_sum(s1, f) == seq_sum(s2, f),
    decreases s1.len(),
{
    broadcast use group_to_multiset_ensures;

    if s1.len() == 0 {
        assert(s1.to_multiset().len() == 0);
        assert(s2.to_multiset().len() == s2.len());
        assert(s2.len() == 0);
    } else {
        let x = s1.last();
        assert(s1.contains(x));
        assert(s1.to_multiset().count(x) > 0);
        assert(s2.to_multiset().count(x) > 0);
        assert(s2.contains(x));
        let j = choose|j: int| 0 <= j < s2.len() && s2[j] == x;
        lemma_seq_sum_remove(s2, f, j);
        assert(s1.drop_last() =~= s1.remove(s1.len() - 1));
        assert(s1.remove(s1.len() - 1).to_multiset() == s1.to_multiset().remove(x));
        assert(s2.remove(j).to_multiset() == s2.to_multiset().remove(x));
        lemma_seq_sum_permutation(s1.drop_last(), s2.remove(j), f);
    }
}

proof fn lemma_seq_any_permutation<A>(s1: Seq<A>, s2: Seq<A>, f: spec_fn(A) -> bool)
    requires
        s1.to_multiset() == s2.to_multiset(),
    ensures
        seq_any(s1, f) == seq_any(s2, f),
{
    broadcast use group_to_multiset_ensures;

    if seq_any(s1, f) {
        let i = choose|i: int| 0 <= i < s1.len() && f(s1[i]);
        assert(s1.contains(s1[i]));
        assert(s1.to_multiset().count(s1[i]) > 0);
        assert(s2.to_multiset().count(s1[i]) > 0);
        assert(s2.contains(s1[i]));
        let j = choose|j: int| 0 <= j < s2.len() && s2[j] == s1[i];
        assert(f(s2[j]));
        assert(seq_any(s2, f));
    }
    if seq_any(s2, f) {
        let i = choose|i: int| 0 <= i < s2.len() && f(s2[i]);
        assert(s2.contains(s2[i]));
        assert(s2.to_multiset().count(s2[i]) > 0);
        assert(s1.to_multiset().count(s2[i]) > 0);
        assert(s1.contains(s2[i]));
        let j = choose|j: int| 0 <= j < s1.len() && s1[j] == s2[i];
        assert(f(s1[j]));
        assert(seq_any(s1, f));
    }
}

proof fn lemma_seq_sum_elementwise<A>(s1: Seq<A>, s2: Seq<A>, f: spec_fn(A) -> int)
    requires
        s1.len() == s2.len(),
        forall|i: int| 0 <= i < s1.len() ==> f(s1[i]) == f(s2[i]),
    ensures
        seq_sum(s1, f) == seq_sum(s2, f),
    decreases s1.len(),
{
    if s1.len() > 0 {
        let d1 = s1.drop_last();
        let d2 = s2.drop_last();
        assert(forall|i: int| 0 <= i < d1.len() ==> d1[i] == s1[i] && d2[i] == s2[i]);
        lemma_seq_sum_elementwise(d1, d2, f);
        assert(f(s1.last()) == f(s2.last()));
    }
}

/// Law: the summary is independent of the order in which accounts are
/// iterated — any reordering of the account entries yields the same mapping.
pub proof fn lemma_summary_order_of_accounts(
    es1: Seq<(Seq<char>, Seq<TransactionView>)>,
    es2: Seq<(Seq<char>, Seq<TransactionView>)>,
    now: int,
)
    requires
        es1.to_multiset() == es2.to_multiset(),
    ensures
        summary_of(es1, now) == summary_of(es2, now),
{
    lemma_summary_closed_form(es1, now);
    lemma_summary_closed_form(es2, now);
    assert forall|c: Seq<char>| true implies #[trigger] entries_has(es1, c, now) == entries_has(
        es2,
        c,
        now,
    ) && entries_weight(es1, c, now) == entries_weight(es2, c, now) by {
        lemma_seq_any_permutation(es1, es2, |x: (Seq<char>, Seq<TransactionView>)| seq_has(x.1, c, now));
        lemma_seq_sum_permutation(es1, es2, |x: (Seq<char>, Seq<TransactionView>)| seq_weight(x.1, c, now));
    }
    assert(spec_summary(es1, now) =~= spec_summary(es2, now));
}

/// Law: the summary is independent of the order of transactions within each
/// account — reordering any account's transaction list yields the same
/// mapping.
pub proof fn lemma_summary_order_of_transactions(
    es1: Seq<(Seq<char>, Seq<TransactionView>)>,
    es2: Seq<(Seq<char>, Seq<TransactionView>)>,
    now: int,
)
    requires
        es1.len() == es2.len(),
        forall|i: int|
            0 <= i < es1.len() ==> (#[trigger] es1[i]).0 == es2[i].0 && es1[i].1.to_multiset()
                == es2[i].1.to_multiset(),
    ensures
        summary_of(es1, now) == summary_of(es2, now),
{
    lemma_summary_closed_form(es1, now);
    lemma_summary_closed_form(es2, now);
    assert forall|c: Seq<char>| true implies #[trigger] entries_has(es1, c, now) == entries_has(
        es2,
        c,
        now,
    ) && entries_weight(es1, c, now) == entries_weight(es2, c, now) by {
        assert forall|i: int| 0 <= i < es1.len() implies seq_weight(
            (#[trigger] es1[i]).1,
            c,
            now,
        ) == seq_weight(es2[i].1, c, now) && seq_has(es1[i].1, c, now) == seq_has(
            es2[i].1,
            c,
            now,
        ) by {
            lemma_seq_sum_permutation(es1[i].1, es2[i].1, |t: TransactionView| txn_weight(t, c, now));
            lemma_seq_any_permutation(es1[i].1, es2[i].1, |t: TransactionView| txn_counts(t, c, now));
        }
        lemma_seq_sum_elementwise(es1, es2, |x: (Seq<char>, Seq<TransactionView>)| seq_weight(x.1, c, now));
        if entries_has(es1, c, now) {
            let i = choose|i: int|
                0 <= i < es1.len() && (|x: (Seq<char>, Seq<TransactionView>)| seq_has(x.1, c, now))(
                    es1[i],
                );
            assert(seq_has(es2[i].1, c, now));
            assert(entries_has(es2, c, now));
        }
        if entries_has(es2, c, now) {
            let i = choose|i: int|
                0 <= i < es2.len() && (|x: (Seq<char>, Seq<TransactionView>)| seq_has(x.1, c, now))(
                    es2[i],
                );
            assert(seq_has(es1[i].1, c, now));
            assert(entries_has(es1, c, now));
        }
    }
    assert(spec_summary(es1, now) =~= spec_summary(es2, now));
}

/// Law: the seven-day window boundary is strict — a transaction exactly seven
/// days old at `now` is excluded, one a second younger is included.
pub proof fn lemma_window_boundary(now: int)
    ensures
        !spec_included(now - WINDOW_SECONDS, now),
        spec_included(now - WINDOW_SECONDS + 1, now),
{
}

} // verus!

