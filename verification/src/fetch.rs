//! Orchestration of the per-account transaction fetch.
//!
//! The outbound HTTP calls themselves happen outside the library; every
//! decision around them is made here. A [`FetchPlan`] is the state of one
//! fan-out: which accounts still wait, how many fetches are in flight (never
//! more than [`MAX_IN_FLIGHT`]), what has arrived, and whether anything
//! failed. The driver repeatedly asks [`FetchPlan::start_next`] for work,
//! reports each outcome through [`FetchPlan::complete`] or
//! [`FetchPlan::fail`], and closes with [`FetchPlan::finish`]: all or
//! nothing — one failed account fails the whole fetch, and a successful one
//! holds every listed account. The plan keeps a ghost ledger of the ids
//! handed out and not yet reported, so that this completeness is proved, not
//! assumed of the driver.

use vstd::prelude::*;

use crate::cache::{UserCache, txn_seq_view};
use crate::errors::FetchError;
use crate::model::{Account, Config, Transaction};
use vstd::multiset::Multiset;
use vstd::string::StringExecFns;

verus! {

broadcast use vstd::multiset::group_multiset_axioms;

/// The hard cap on simultaneously in-flight per-account fetches.
pub const MAX_IN_FLIGHT: usize = 10;

/// The data API's accounts endpoint.
pub fn accounts_url(cfg: &Config) -> (r: String)
    ensures
        r@ == cfg.data_api_uri@ + "/accounts"@,
{
    cfg.data_api_uri.clone().concat("/accounts")
}

/// The data API's transactions endpoint for one account.
pub fn transactions_url(cfg: &Config, account_id: &str) -> (r: String)
    ensures
        r@ == cfg.data_api_uri@ + "/accounts/"@ + account_id@ + "/transactions"@,
{
    cfg.data_api_uri.clone().concat("/accounts/").concat(account_id).concat("/transactions")
}

/// Whether an HTTP status is a success.
pub open spec fn spec_success(status: u16) -> bool {
    200 <= status < 300
}

/// Splits a data-API response: a success status hands the body on for
/// decoding; any other status is the typed HTTP failure, keeping the
/// provider's status and body for diagnostics.
pub fn classify_response(status: u16, body: String) -> (r: Result<String, FetchError>)
    ensures
        spec_success(status) ==> (r matches Ok(b) && b@ == body@),
        !spec_success(status) ==> (r matches Err(e) && e matches FetchError::Http {
            status: s,
            body: b,
        } && s == status && b@ == body@),
{
    if 200 <= status && status < 300 {
        Ok(body)
    } else {
        Err(FetchError::Http { status, body })
    }
}

/// The ids of the listed accounts, in order.
pub fn account_ids(accounts: &Vec<Account>) -> (r: Vec<String>)
    ensures
        r@.len() == accounts@.len(),
        forall|i: int| 0 <= i < r@.len() ==> r@[i]@ == accounts@[i].account_id@,
{
    let mut out: Vec<String> = Vec::new();
    let mut i: usize = 0;
    while i < accounts.len()
        invariant
            0 <= i <= accounts@.len(),
            out@.len() == i,
            forall|j: int| 0 <= j < i ==> out@[j]@ == accounts@[j].account_id@,
        decreases accounts@.len() - i,
    {
        out.push(accounts[i].account_id.clone());
        i += 1;
    }
    out
}

/// The id sequence of a list of account-id strings.
pub open spec fn ids_view(v: Seq<String>) -> Seq<Seq<char>> {
    v.map_values(|s: String| s@)
}

/// The set of ids a list of account-id strings holds.
pub open spec fn ids_set(v: Seq<String>) -> Set<Seq<char>> {
    Set::new(|x: Seq<char>| exists|i: int| 0 <= i < v.len() && v[i]@ == x)
}

/// The set of ids an id sequence holds.
pub open spec fn id_seq_set(s: Seq<Seq<char>>) -> Set<Seq<char>> {
    Set::new(|x: Seq<char>| exists|i: int| 0 <= i < s.len() && s[i] == x)
}

/// The state of one bounded-concurrency fan-out over accounts.
pub struct FetchPlan {
    /// Accounts whose fetch has not been started yet.
    pub pending: Vec<String>,
    /// Fetches started and not yet reported back.
    pub in_flight: usize,
    /// Results that arrived so far, keyed by account id, in arrival order.
    pub collected: UserCache,
    /// The first failure, if any arrived.
    pub error: Option<FetchError>,
    /// The ids as listed when the plan was made.
    pub listed: Ghost<Seq<Seq<char>>>,
    /// The ids handed out and not yet reported back.
    pub outstanding: Ghost<Multiset<Seq<char>>>,
}

impl FetchPlan {
    /// Well-formed: never more than [`MAX_IN_FLIGHT`] fetches in flight, the
    /// in-flight count equals the outstanding ledger, and — while nothing
    /// failed — collected, outstanding and pending ids together are exactly
    /// the listed ids.
    pub open spec fn wf(&self) -> bool {
        &&& self.in_flight <= MAX_IN_FLIGHT
        &&& self.collected.wf()
        &&& self.in_flight == self.outstanding@.len()
        &&& (self.error is None ==> self.collected@.dom().union(self.outstanding@.dom()).union(
            ids_set(self.pending@),
        ) == id_seq_set(self.listed@))
    }

    /// A fresh plan over the listed accounts: nothing started, nothing
    /// arrived.
    pub fn new(accounts: Vec<String>) -> (r: FetchPlan)
        ensures
            r.wf(),
            r.pending == accounts,
            r.in_flight == 0,
            r.collected@ == Map::<Seq<char>, Seq<crate::model::TransactionView>>::empty(),
            r.error is None,
            r.listed@ == ids_view(accounts@),
            r.outstanding@ == Multiset::<Seq<char>>::empty(),
    {
        let ghost listed = ids_view(accounts@);
        let r = FetchPlan {
            pending: accounts,
            in_flight: 0,
            collected: UserCache::new(),
            error: None,
            listed: Ghost(listed),
            outstanding: Ghost(Multiset::empty()),
        };
        proof {
            assert forall|x: Seq<char>|
                r.collected@.dom().union(r.outstanding@.dom()).union(ids_set(r.pending@)).contains(
                    x,
                ) <==> id_seq_set(listed).contains(x) by {
                if ids_set(r.pending@).contains(x) {
                    let i = choose|i: int| 0 <= i < r.pending@.len() && r.pending@[i]@ == x;
                    assert(listed[i] == x);
                }
                if id_seq_set(listed).contains(x) {
                    let i = choose|i: int| 0 <= i < listed.len() && listed[i] == x;
                    assert(r.pending@[i]@ == x);
                }
            }
            assert(r.collected@.dom().union(r.outstanding@.dom()).union(ids_set(r.pending@))
                =~= id_seq_set(listed));
        }
        r
    }

    /// Hands out the next account to fetch, exactly when nothing has failed,
    /// a concurrency slot is free and an account still waits; the account
    /// then counts as in flight.
    pub fn start_next(&mut self) -> (r: Option<String>)
        requires
            old(self).wf(),
        ensures
            final(self).wf(),
            r is Some <==> (old(self).error is None && old(self).in_flight < MAX_IN_FLIGHT && old(
                self,
            ).pending@.len() > 0),
            r matches Some(id) ==> id == old(self).pending@.last()
                && final(self).pending@ == old(self).pending@.drop_last()
                && final(self).in_flight == old(self).in_flight + 1
                && final(self).outstanding@ == old(self).outstanding@.insert(id@),
            r is None ==> *final(self) == *old(self),
            final(self).in_flight <= MAX_IN_FLIGHT,
            final(self).collected == old(self).collected,
            final(self).error == old(self).error,
            final(self).listed == old(self).listed,
    {
        if self.error.is_some() {
            return None;
        }
        if self.in_flight >= MAX_IN_FLIGHT {
            return None;
        }
        if self.pending.len() == 0 {
            return None;
        }
        let ghost oldp = self.pending@;
        let ghost oldout = self.outstanding@;
        match self.pending.pop() {
            Some(id) => {
                self.in_flight = self.in_flight + 1;
                proof {
                    self.outstanding@ = self.outstanding@.insert(id@);
                }
                proof {
                    assert forall|x: Seq<char>|
                        self.collected@.dom().union(self.outstanding@.dom()).union(
                            ids_set(self.pending@),
                        ).contains(x) <==> id_seq_set(self.listed@).contains(x) by {
                        if self.outstanding@.dom().contains(x) && !oldout.dom().contains(x) {
                            assert(x == id@);
                            assert(oldp[oldp.len() - 1]@ == x);
                            assert(ids_set(oldp).contains(x));
                        }
                        if ids_set(self.pending@).contains(x) {
                            let i = choose|i: int|
                                0 <= i < self.pending@.len() && self.pending@[i]@ == x;
                            assert(oldp[i]@ == x);
                            assert(ids_set(oldp).contains(x));
                        }
                        if ids_set(oldp).contains(x) {
                            let i = choose|i: int| 0 <= i < oldp.len() && oldp[i]@ == x;
                            if i < oldp.len() - 1 {
                                assert(self.pending@[i]@ == x);
                                assert(ids_set(self.pending@).contains(x));
                            } else {
                                assert(x == id@);
                                assert(self.outstanding@.count(x) > 0);
                            }
                        }
                    }
                    assert(self.collected@.dom().union(self.outstanding@.dom()).union(
                        ids_set(self.pending@),
                    ) =~= id_seq_set(self.listed@));
                }
                Some(id)
            },
            None => None,
        }
    }

    /// Reports one started account's transactions; they are collected under
    /// the account's id, replacing any earlier entry for it wholesale.
    pub fn complete(&mut self, account_id: String, txns: Vec<Transaction>)
        requires
            old(self).wf(),
            old(self).in_flight > 0,
            old(self).outstanding@.count(account_id@) > 0,
        ensures
            final(self).wf(),
            final(self).in_flight == old(self).in_flight - 1,
            final(self).collected@ == old(self).collected@.insert(
                account_id@,
                txn_seq_view(txns@),
            ),
            old(self).collected@.dom().contains(account_id@) || final(self).collected.entries_view()
                == old(self).collected.entries_view().push((account_id@, txn_seq_view(txns@))),
            final(self).pending == old(self).pending,
            final(self).error == old(self).error,
            final(self).listed == old(self).listed,
            final(self).outstanding@ == old(self).outstanding@.remove(account_id@),
    {
        proof {
            lemma_outstanding_remove(self.outstanding@, account_id@);
            self.outstanding@ = self.outstanding@.remove(account_id@);
        }
        self.in_flight = self.in_flight - 1;
        self.collected.insert(account_id, txns);
        proof {
            if self.error is None {
                assert(old(self).outstanding@.dom().contains(account_id@));
                assert(self.collected@.dom().union(self.outstanding@.dom()).union(
                    ids_set(self.pending@),
                ) =~= id_seq_set(self.listed@));
            }
        }
    }

    /// Reports one started account's failure; the first failure is kept and
    /// fails the whole fan-out.
    pub fn fail(&mut self, account_id: &str, e: FetchError)
        requires
            old(self).wf(),
            old(self).in_flight > 0,
            old(self).outstanding@.count(account_id@) > 0,
        ensures
            final(self).wf(),
            final(self).in_flight == old(self).in_flight - 1,
            old(self).error is None ==> (final(self).error matches Some(e2) && e2 == e),
            old(self).error is Some ==> final(self).error == old(self).error,
            final(self).collected == old(self).collected,
            final(self).pending == old(self).pending,
            final(self).listed == old(self).listed,
            final(self).outstanding@ == old(self).outstanding@.remove(account_id@),
    {
        proof {
            lemma_outstanding_remove(self.outstanding@, account_id@);
            self.outstanding@ = self.outstanding@.remove(account_id@);
        }
        self.in_flight = self.in_flight - 1;
        if self.error.is_none() {
            self.error = Some(e);
        }
    }

    /// Closes the fan-out once nothing is in flight any more: on full
    /// success everything collected, with every listed account present; the
    /// first error and no partial data otherwise.
    pub fn finish(self) -> (r: Result<UserCache, FetchError>)
        requires
            self.wf(),
            self.in_flight == 0,
            self.error is Some || self.pending@.len() == 0,
        ensures
            self.error matches Some(e) ==> (r matches Err(e2) && e2 == e),
            self.error is None ==> (r matches Ok(d) && d == self.collected && d.wf() && d@.dom()
                == id_seq_set(self.listed@)),
    {
        proof {
            if self.error is None {
                vstd::multiset::lemma_multiset_empty_len(self.outstanding@);
                assert(self.outstanding@ =~= Multiset::empty());
                assert forall|x: Seq<char>| #[trigger]
                    self.collected@.dom().contains(x) <==> id_seq_set(self.listed@).contains(
                        x,
                    ) by {
                    assert(self.collected@.dom().union(self.outstanding@.dom()).union(
                        ids_set(self.pending@),
                    ).contains(x) <==> id_seq_set(self.listed@).contains(x));
                    assert(!self.outstanding@.dom().contains(x));
                    assert(!ids_set(self.pending@).contains(x));
                }
                assert(self.collected@.dom() =~= id_seq_set(self.listed@));
            }
        }
        match self.error {
            Some(e) => Err(e),
            None => Ok(self.collected),
        }
    }
}

proof fn lemma_outstanding_remove(m: Multiset<Seq<char>>, x: Seq<char>)
    requires
        m.count(x) > 0,
    ensures
        m.remove(x).len() == m.len() - 1,
{
    assert(Multiset::singleton(x).subset_of(m));
}

/// Law: a well-formed fan-out never has more than ten fetches in flight, and
/// one more fetch is started only while strictly fewer than ten are.
pub proof fn lemma_bounded_concurrency(p: FetchPlan)
    requires
        p.wf(),
    ensures
        p.in_flight <= MAX_IN_FLIGHT,
{
}

} // verus!
