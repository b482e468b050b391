//! The credential-scoped transaction store.
//!
//! A [`UserCache`] maps account ids to that account's transactions, in the
//! order the data API returned them; a [`CredentialCache`] maps credential
//! identities to their [`UserCache`]. Both are association lists with unique
//! keys, viewed as mathematical maps. The cache discipline of the request
//! handlers — read, fetch on a miss, fill only on success — is verified in
//! [`store_fetch_result`].

use vstd::prelude::*;

use crate::errors::FetchError;
use crate::model::{Transaction, TransactionView};
use vstd::pervasive::VecAdditionalExecFns;

verus! {

/// The map described by an association list, later keys overriding earlier.
pub open spec fn assoc_map<V>(s: Seq<(Seq<char>, V)>) -> Map<Seq<char>, V>
    decreases s.len(),
{
    if s.len() == 0 {
        Map::empty()
    } else {
        assoc_map(s.drop_last()).insert(s.last().0, s.last().1)
    }
}

/// No key occurs twice.
pub open spec fn assoc_keys_unique<V>(s: Seq<(Seq<char>, V)>) -> bool {
    forall|i: int, j: int| 0 <= i < j < s.len() ==> s[i].0 != s[j].0
}

pub proof fn lemma_assoc_map_dom<V>(s: Seq<(Seq<char>, V)>, k: Seq<char>)
    ensures
        assoc_map(s).dom().contains(k) <==> exists|i: int| 0 <= i < s.len() && s[i].0 == k,
    decreases s.len(),
{
    if s.len() > 0 {
        let pre = s.drop_last();
        lemma_assoc_map_dom(pre, k);
        if s.last().0 == k {
            assert(s[s.len() - 1].0 == k);
        } else {
            if exists|i: int| 0 <= i < s.len() && s[i].0 == k {
                let i = choose|i: int| 0 <= i < s.len() && s[i].0 == k;
                assert(pre[i] == s[i]);
            }
            if exists|i: int| 0 <= i < pre.len() && pre[i] == #[trigger] s[i] && s[i].0 == k {
            }
            if assoc_map(s).dom().contains(k) {
                let i = choose|i: int| 0 <= i < pre.len() && pre[i].0 == k;
                assert(s[i].0 == k);
            }
        }
    }
}

pub proof fn lemma_assoc_map_at<V>(s: Seq<(Seq<char>, V)>, i: int)
    requires
        assoc_keys_unique(s),
        0 <= i < s.len(),
    ensures
        assoc_map(s).dom().contains(s[i].0),
        assoc_map(s)[s[i].0] == s[i].1,
    decreases s.len(),
{
    let pre = s.drop_last();
    if i == s.len() - 1 {
    } else {
        assert(assoc_keys_unique(pre)) by {
            assert(forall|a: int, b: int|
                0 <= a < b < pre.len() ==> pre[a] == s[a] && pre[b] == s[b]);
        }
        lemma_assoc_map_at(pre, i);
        assert(pre[i] == s[i]);
        assert(s[i].0 != s.last().0);
    }
}

/// The mathematical image of a transaction sequence.
pub open spec fn txn_seq_view(s: Seq<Transaction>) -> Seq<TransactionView> {
    s.map_values(|t: Transaction| t@)
}

/// An exact copy of a transaction list.
pub fn copy_transactions(src: &Vec<Transaction>) -> (r: Vec<Transaction>)
    ensures
        txn_seq_view(r@) == txn_seq_view(src@),
        r@.len() == src@.len(),
{
    let mut out: Vec<Transaction> = Vec::new();
    let mut i: usize = 0;
    while i < src.len()
        invariant
            0 <= i <= src@.len(),
            out@.len() == i,
            forall|j: int| 0 <= j < i ==> out@[j]@ == src@[j]@,
        decreases src@.len() - i,
    {
        out.push(src[i].duplicate());
        i += 1;
    }
    proof {
        assert(txn_seq_view(out@) =~= txn_seq_view(src@));
    }
    out
}

/// Per-credential store: account id to that account's transactions, in the
/// order of the data API's responses.
pub struct UserCache {
    pub entries: Vec<(String, Vec<Transaction>)>,
}

impl View for UserCache {
    type V = Map<Seq<char>, Seq<TransactionView>>;

    open spec fn view(&self) -> Map<Seq<char>, Seq<TransactionView>> {
        assoc_map(self.entries_view())
    }
}

impl UserCache {
    /// The association list itself, with every value abstracted.
    pub open spec fn entries_view(&self) -> Seq<(Seq<char>, Seq<TransactionView>)> {
        self.entries@.map_values(
            |e: (String, Vec<Transaction>)| (e.0@, txn_seq_view(e.1@)),
        )
    }

    /// Well-formed: account ids are unique.
    pub open spec fn wf(&self) -> bool {
        assoc_keys_unique(self.entries_view())
    }

    /// An empty store.
    pub fn new() -> (r: UserCache)
        ensures
            r.wf(),
            r@ == Map::<Seq<char>, Seq<TransactionView>>::empty(),
            r.entries_view() == Seq::<(Seq<char>, Seq<TransactionView>)>::empty(),
    {
        let r = UserCache { entries: Vec::new() };
        proof {
            assert(r.entries_view() =~= Seq::<(Seq<char>, Seq<TransactionView>)>::empty());
        }
        r
    }

    /// Stores an account's transactions, replacing any earlier entry for the
    /// same account wholesale.
    pub fn insert(&mut self, account_id: String, txns: Vec<Transaction>)
        requires
            old(self).wf(),
        ensures
            final(self).wf(),
            final(self)@ == old(self)@.insert(account_id@, txn_seq_view(txns@)),
            old(self)@.dom().contains(account_id@) || final(self).entries_view() == old(
                self,
            ).entries_view().push((account_id@, txn_seq_view(txns@))),
    {
        let ghost old_entries = self.entries_view();
        let mut i: usize = 0;
        while i < self.entries.len()
            invariant
                self.entries == old(self).entries,
                self.wf(),
                old_entries == self.entries_view(),
                0 <= i <= self.entries@.len(),
                forall|j: int| 0 <= j < i ==> self.entries@[j].0@ != account_id@,
            decreases self.entries@.len() - i,
        {
            if self.entries[i].0 == account_id {
                let ghost idx = i as int;
                self.entries.set(i, (account_id, txns));
                proof {
                    assert(self.entries_view() =~= old_entries.update(
                        idx,
                        (account_id@, txn_seq_view(txns@)),
                    ));
                    lemma_assoc_map_update(old_entries, idx, txn_seq_view(txns@));
                    lemma_assoc_map_dom(old_entries, account_id@);
                }
                return ;
            }
            i += 1;
        }
        self.entries.push((account_id, txns));
        proof {
            assert(self.entries_view() =~= old_entries.push(
                (account_id@, txn_seq_view(txns@)),
            ));
            assert(self.entries_view().drop_last() =~= old_entries);
            assert(forall|a: int, b: int|
                0 <= a < b < self.entries_view().len() ==> self.entries_view()[a].0
                    != self.entries_view()[b].0);
        }
    }

    /// A snapshot copy of one account's transactions.
    pub fn get(&self, account_id: &str) -> (r: Option<Vec<Transaction>>)
        requires
            self.wf(),
        ensures
            match r {
                Some(d) => self@.dom().contains(account_id@) && txn_seq_view(d@)
                    == self@[account_id@],
                None => !self@.dom().contains(account_id@),
            },
    {
        let key: String = account_id.to_owned();
        let mut i: usize = 0;
        while i < self.entries.len()
            invariant
                self.wf(),
                key@ == account_id@,
                0 <= i <= self.entries@.len(),
                forall|j: int| 0 <= j < i ==> self.entries@[j].0@ != account_id@,
            decreases self.entries@.len() - i,
        {
            if self.entries[i].0 == key {
                let d = copy_transactions(&self.entries[i].1);
                proof {
                    lemma_assoc_map_at(self.entries_view(), i as int);
                }
                return Some(d);
            }
            i += 1;
        }
        proof {
            lemma_assoc_map_dom(self.entries_view(), account_id@);
        }
        None
    }

    /// An exact copy of the whole store.
    pub fn duplicate(&self) -> (r: UserCache)
        ensures
            r.entries_view() == self.entries_view(),
            r@ == self@,
            r.wf() == self.wf(),
    {
        let mut out: Vec<(String, Vec<Transaction>)> = Vec::new();
        let mut i: usize = 0;
        while i < self.entries.len()
            invariant
                0 <= i <= self.entries@.len(),
                out@.len() == i,
                forall|j: int| 0 <= j < i ==> out@[j].0@ == self.entries@[j].0@ && txn_seq_view(
                    out@[j].1@,
                ) == txn_seq_view(self.entries@[j].1@),
            decreases self.entries@.len() - i,
        {
            let copied = copy_transactions(&self.entries[i].1);
            out.push((self.entries[i].0.clone(), copied));
            i += 1;
        }
        let r = UserCache { entries: out };
        proof {
            assert(r.entries_view() =~= self.entries_view());
        }
        r
    }
}

pub proof fn lemma_assoc_map_update<V>(s: Seq<(Seq<char>, V)>, i: int, v: V)
    requires
        assoc_keys_unique(s),
        0 <= i < s.len(),
    ensures
        assoc_map(s.update(i, (s[i].0, v))) == assoc_map(s).insert(s[i].0, v),
        assoc_keys_unique(s.update(i, (s[i].0, v))),
    decreases s.len(),
{
    let t = s.update(i, (s[i].0, v));
    assert(assoc_keys_unique(t)) by {
        assert(forall|a: int| 0 <= a < t.len() ==> t[a].0 == s[a].0);
    }
    if i == s.len() - 1 {
        assert(t.drop_last() =~= s.drop_last());
        assert(t.last() == (s[i].0, v));
        assert(assoc_map(s.drop_last()).insert(s[i].0, s[i].1).insert(s[i].0, v)
            =~= assoc_map(s.drop_last()).insert(s[i].0, v));
    } else {
        let pre = s.drop_last();
        assert(assoc_keys_unique(pre)) by {
            assert(forall|a: int, b: int|
                0 <= a < b < pre.len() ==> pre[a] == s[a] && pre[b] == s[b]);
        }
        assert(pre[i] == s[i]);
        lemma_assoc_map_update(pre, i, v);
        assert(t.drop_last() =~= pre.update(i, (s[i].0, v)));
        assert(t.last() == s.last());
        assert(s[i].0 != s.last().0);
        assert(assoc_map(pre).insert(s[i].0, v).insert(s.last().0, s.last().1)
            =~= assoc_map(pre).insert(s.last().0, s.last().1).insert(s[i].0, v));
    }
}

/// Process-wide store: credential identity to that identity's [`UserCache`].
pub struct CredentialCache {
    pub entries: Vec<(String, UserCache)>,
}

/// The mathematical image of a credential cache: identity to account map.
pub open spec fn cache_view_of(s: Seq<(String, UserCache)>) -> Seq<
    (Seq<char>, Map<Seq<char>, Seq<TransactionView>>),
> {
    s.map_values(|e: (String, UserCache)| (e.0@, e.1@))
}

impl View for CredentialCache {
    type V = Map<Seq<char>, Map<Seq<char>, Seq<TransactionView>>>;

    open spec fn view(&self) -> Map<Seq<char>, Map<Seq<char>, Seq<TransactionView>>> {
        assoc_map(cache_view_of(self.entries@))
    }
}

impl CredentialCache {
    /// Well-formed: identities are unique and every stored map is well-formed.
    pub open spec fn wf(&self) -> bool {
        &&& assoc_keys_unique(cache_view_of(self.entries@))
        &&& forall|i: int| 0 <= i < self.entries@.len() ==> (#[trigger] self.entries@[i].1).wf()
    }

    /// An empty cache: the state at process start.
    pub fn new() -> (r: CredentialCache)
        ensures
            r.wf(),
            r@ == Map::<Seq<char>, Map<Seq<char>, Seq<TransactionView>>>::empty(),
    {
        let r = CredentialCache { entries: Vec::new() };
        proof {
            assert(cache_view_of(r.entries@) =~= Seq::<
                (Seq<char>, Map<Seq<char>, Seq<TransactionView>>),
            >::empty());
        }
        r
    }

    /// A snapshot copy of one identity's stored data, `None` on a miss.
    pub fn get(&self, credentials_id: &str) -> (r: Option<UserCache>)
        requires
            self.wf(),
        ensures
            match r {
                Some(d) => self@.dom().contains(credentials_id@) && d@ == self@[credentials_id@]
                    && d.wf(),
                None => !self@.dom().contains(credentials_id@),
            },
    {
        let key: String = credentials_id.to_owned();
        let mut i: usize = 0;
        while i < self.entries.len()
            invariant
                self.wf(),
                key@ == credentials_id@,
                0 <= i <= self.entries@.len(),
                forall|j: int| 0 <= j < i ==> self.entries@[j].0@ != credentials_id@,
            decreases self.entries@.len() - i,
        {
            if self.entries[i].0 == key {
                let d = self.entries[i].1.duplicate();
                proof {
                    lemma_assoc_map_at(cache_view_of(self.entries@), i as int);
                }
                return Some(d);
            }
            i += 1;
        }
        proof {
            lemma_assoc_map_dom(cache_view_of(self.entries@), credentials_id@);
        }
        None
    }

    /// Unconditionally overwrites the entry for this identity.
    pub fn fill(&mut self, credentials_id: &str, data: UserCache)
        requires
            old(self).wf(),
            data.wf(),
        ensures
            final(self).wf(),
            final(self)@ == old(self)@.insert(credentials_id@, data@),
    {
        let ghost old_entries = cache_view_of(self.entries@);
        let key: String = credentials_id.to_owned();
        let mut i: usize = 0;
        while i < self.entries.len()
            invariant
                self.wf(),
                data.wf(),
                key@ == credentials_id@,
                old_entries == cache_view_of(self.entries@),
                old(self).entries == self.entries,
                0 <= i <= self.entries@.len(),
                forall|j: int| 0 <= j < i ==> self.entries@[j].0@ != credentials_id@,
            decreases self.entries@.len() - i,
        {
            if self.entries[i].0 == key {
                let ghost idx = i as int;
                self.entries.set(i, (key, data));
                proof {
                    assert(cache_view_of(self.entries@) =~= old_entries.update(
                        idx,
                        (credentials_id@, data@),
                    ));
                    lemma_assoc_map_update(old_entries, idx, data@);
                }
                return ;
            }
            i += 1;
        }
        self.entries.push((key, data));
        proof {
            assert(cache_view_of(self.entries@) =~= old_entries.push((credentials_id@, data@)));
            assert(cache_view_of(self.entries@).drop_last() =~= old_entries);
            assert(forall|a: int, b: int|
                0 <= a < b < cache_view_of(self.entries@).len() ==> cache_view_of(self.entries@)[a].0
                    != cache_view_of(self.entries@)[b].0);
        }
    }
}

/// The handlers' cache discipline after a fetch: a successful fetch is written
/// into the cache and handed back; a failed fetch leaves the cache exactly as
/// it was and surfaces the error. In particular, an identity that was absent
/// before a failed fetch is still absent after it.
pub fn store_fetch_result(
    cache: &mut CredentialCache,
    credentials_id: &str,
    fetched: Result<UserCache, FetchError>,
) -> (r: Result<UserCache, FetchError>)
    requires
        old(cache).wf(),
        fetched matches Ok(d) ==> d.wf(),
    ensures
        final(cache).wf(),
        fetched matches Ok(d) ==> final(cache)@ == old(cache)@.insert(credentials_id@, d@),
        fetched is Err ==> final(cache)@ == old(cache)@,
        r == fetched,
{
    match fetched {
        Ok(data) => {
            let copy = data.duplicate();
            cache.fill(credentials_id, copy);
            Ok(data)
        },
        Err(e) => Err(e),
    }
}

/// Law: filling the cache for an identity and then reading that identity
/// yields exactly the stored data (the round trip of `fill` and `get`).
pub proof fn lemma_cache_round_trip(
    m: Map<Seq<char>, Map<Seq<char>, Seq<TransactionView>>>,
    credentials_id: Seq<char>,
    data: Map<Seq<char>, Seq<TransactionView>>,
)
    ensures
        m.insert(credentials_id, data).dom().contains(credentials_id),
        m.insert(credentials_id, data)[credentials_id] == data,
{
}

/// Law: a failed fetch mutates nothing, so an identity with no cache entry
/// before the fetch has none after it.
pub proof fn lemma_failed_fetch_keeps_absence(
    before: Map<Seq<char>, Map<Seq<char>, Seq<TransactionView>>>,
    after: Map<Seq<char>, Map<Seq<char>, Seq<TransactionView>>>,
    credentials_id: Seq<char>,
)
    requires
        after == before,
        !before.dom().contains(credentials_id),
    ensures
        !after.dom().contains(credentials_id),
{
}

} // verus!
