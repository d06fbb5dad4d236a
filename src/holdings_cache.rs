use vstd::prelude::*;
use crate::error::FetchError;
use crate::holding::{copy_holdings, holdings_view, Holding};
use crate::lp_cache::age;
use crate::store::KeyedStore;
use crate::summary::{all_amounts_parse, is_summary, summarise, totals_fit, SummaryError, TokenTotal};
use crate::time::MINUTE_NS;

verus! {

/// What one user's last computation gave.
pub struct CachedHoldings {
    pub holdings: Vec<Holding>,
    pub summary: Vec<TokenTotal>,
    pub ts: u64,
}

/// Whether an entry is fresh at `now`: younger than a minute.
pub open spec fn is_fresh(e: CachedHoldings, now: u64) -> bool {
    age(now, e.ts) < MINUTE_NS
}

/// Why computing a user's holdings failed.
#[derive(Debug)]
pub enum AggregateError {
    Fetch(FetchError),
    Summary(SummaryError),
}

/// Copies a summary.
pub fn copy_summary(v: &Vec<TokenTotal>) -> (r: Vec<TokenTotal>)
    ensures
        r@.len() == v@.len(),
        forall|i: int|
            0 <= i < v@.len() ==> (#[trigger] r@[i]).token@ == v@[i].token@ && r@[i].total
                == v@[i].total && r@[i].scale == v@[i].scale,
{
    let mut out: Vec<TokenTotal> = Vec::new();
    let mut i: usize = 0;
    while i < v.len()
        invariant
            i <= v@.len(),
            out@.len() == i,
            forall|j: int|
                0 <= j < i ==> (#[trigger] out@[j]).token@ == v@[j].token@ && out@[j].total
                    == v@[j].total && out@[j].scale == v@[j].scale,
        decreases v.len() - i,
    {
        out.push(TokenTotal { token: v[i].token.clone(), total: v[i].total, scale: v[i].scale });
        i = i + 1;
    }
    out
}

/// Per-user holdings and summary with the time they were computed.
pub struct HoldingsCache {
    pub entries: KeyedStore<CachedHoldings>,
}

impl HoldingsCache {
    /// Keys are distinct, and each entry's summary is the summary of its
    /// holdings.
    pub open spec fn wf(&self) -> bool {
        &&& self.entries.wf()
        &&& forall|u: Seq<char>| #[trigger]
            self.entries@.contains_key(u) ==> is_summary(
                holdings_view(self.entries@[u].holdings@),
                self.entries@[u].summary@,
            )
    }

    pub fn new() -> (r: HoldingsCache)
        ensures
            r.wf(),
            r.entries@ == Map::<Seq<char>, CachedHoldings>::empty(),
    {
        HoldingsCache { entries: KeyedStore::new() }
    }

    /// The holdings of `user`, while the entry is fresh at `now`.
    pub fn fresh(&self, user: &String, now: u64) -> (r: Option<Vec<Holding>>)
        requires
            self.wf(),
        ensures
            match r {
                Some(v) => self.entries@.contains_key(user@) && is_fresh(
                    self.entries@[user@],
                    now,
                ) && holdings_view(v@) == holdings_view(self.entries@[user@].holdings@),
                None => !(self.entries@.contains_key(user@) && is_fresh(
                    self.entries@[user@],
                    now,
                )),
            },
    {
        match self.entries.get(user) {
            Some(e) => {
                let a = if now >= e.ts {
                    now - e.ts
                } else {
                    0
                };
                if a < MINUTE_NS {
                    Some(copy_holdings(&e.holdings))
                } else {
                    None
                }
            },
            None => None,
        }
    }

    /// The summary of `user`, while the entry is fresh at `now`.
    pub fn fresh_summary(&self, user: &String, now: u64) -> (r: Option<Vec<TokenTotal>>)
        requires
            self.wf(),
        ensures
            match r {
                Some(v) => self.entries@.contains_key(user@) && is_fresh(
                    self.entries@[user@],
                    now,
                ) && v@.len() == self.entries@[user@].summary@.len() && forall|i: int|
                    0 <= i < v@.len() ==> (#[trigger] v@[i]).token@
                        == self.entries@[user@].summary@[i].token@ && v@[i].total
                        == self.entries@[user@].summary@[i].total && v@[i].scale
                        == self.entries@[user@].summary@[i].scale,
                None => !(self.entries@.contains_key(user@) && is_fresh(
                    self.entries@[user@],
                    now,
                )),
            },
    {
        match self.entries.get(user) {
            Some(e) => {
                let a = if now >= e.ts {
                    now - e.ts
                } else {
                    0
                };
                if a < MINUTE_NS {
                    Some(copy_summary(&e.summary))
                } else {
                    None
                }
            },
            None => None,
        }
    }

    /// The last holdings of `user` whatever their age; none if never
    /// computed.
    pub fn last_holdings(&self, user: &String) -> (r: Vec<Holding>)
        requires
            self.wf(),
        ensures
            self.entries@.contains_key(user@) ==> holdings_view(r@) == holdings_view(
                self.entries@[user@].holdings@,
            ),
            !self.entries@.contains_key(user@) ==> r@.len() == 0,
    {
        match self.entries.get(user) {
            Some(e) => copy_holdings(&e.holdings),
            None => Vec::new(),
        }
    }

    /// Stores a fresh computation for `user`.
    pub fn put(&mut self, user: &String, holdings: Vec<Holding>, summary: Vec<TokenTotal>, now: u64)
        requires
            old(self).wf(),
            is_summary(holdings_view(holdings@), summary@),
        ensures
            final(self).wf(),
            final(self).entries@ == old(self).entries@.insert(
                user@,
                CachedHoldings { holdings, summary, ts: now },
            ),
    {
        self.entries.insert(user.clone(), CachedHoldings { holdings, summary, ts: now });
    }

    /// Forgets `user`'s entry, as a change of their settings requires.
    pub fn invalidate(&mut self, user: &String)
        requires
            old(self).wf(),
        ensures
            final(self).wf(),
            final(self).entries@ == old(self).entries@.remove(user@),
    {
        self.entries.remove(user);
    }

    pub fn len(&self) -> (r: usize)
        requires
            self.wf(),
        ensures
            r == self.entries@.dom().len(),
    {
        self.entries.len()
    }

    /// Completes a recomputation for `user` from the merged rows: summarises
    /// them, stores rows and summary at `now`, and returns the rows. A failed
    /// fetch or summary is returned and leaves the cache as it was.
    pub fn complete(
        &mut self,
        user: &String,
        merged: Result<Vec<Holding>, FetchError>,
        now: u64,
    ) -> (r: Result<Vec<Holding>, AggregateError>)
        requires
            old(self).wf(),
        ensures
            final(self).wf(),
            merged matches Ok(h) ==> (r is Ok <==> all_amounts_parse(holdings_view(h@))
                && totals_fit(holdings_view(h@))),
            match merged {
                Err(_) => r is Err && final(self).entries@ == old(self).entries@,
                Ok(h) => match r {
                    Ok(v) => holdings_view(v@) == holdings_view(h@) && final(self).entries@.contains_key(user@) && holdings_view(
                        final(self).entries@[user@].holdings@,
                    ) == holdings_view(h@) && final(self).entries@[user@].ts == now
                        && final(self).entries@ == old(self).entries@.insert(
                        user@,
                        final(self).entries@[user@],
                    ),
                    Err(e) => e is Summary && final(self).entries@ == old(self).entries@,
                },
            },
    {
        let holdings = match merged {
            Err(e) => {
                return Err(AggregateError::Fetch(e));
            },
            Ok(h) => h,
        };
        let summary = match summarise(&holdings) {
            Err(e) => {
                return Err(AggregateError::Summary(e));
            },
            Ok(s) => s,
        };
        let out = copy_holdings(&holdings);
        self.put(user, holdings, summary, now);
        Ok(out)
    }
}

/// Freshness: once `put` has stored rows for `user` at `t1`, every lookup
/// before `t1 + MINUTE_NS` finds that entry fresh and serves those rows, so
/// two requests less than a minute apart with no recomputation in between
/// see the same rows.
pub proof fn lemma_freshness(
    m: Map<Seq<char>, CachedHoldings>,
    user: Seq<char>,
    rows: Vec<Holding>,
    summary: Vec<TokenTotal>,
    t1: u64,
    t2: u64,
)
    requires
        t1 <= t2,
        t2 < t1 + MINUTE_NS,
    ensures
        ({
            let after = m.insert(user, CachedHoldings { holdings: rows, summary, ts: t1 });
            &&& after.contains_key(user)
            &&& is_fresh(after[user], t2)
            &&& holdings_view(after[user].holdings@) == holdings_view(rows@)
        }),
{
}

} // verus!
