use vstd::prelude::*;
use crate::amount::{amount_text, format_amount};
use crate::holding::{copy_holdings, holdings_view, Holding, HoldingView};
use crate::store::{keys_unique, lemma_map_of_absent, map_of, KeyedStore};
use crate::time::WEEK_NS;

verus! {

/// Age after which a cached position list is stale: one week.
pub const STALE_NS: u64 = WEEK_NS;

/// `now - ts`, or zero for a time stamp in the future.
pub open spec fn age(now: u64, ts: u64) -> int {
    if now >= ts {
        now - ts
    } else {
        0
    }
}

/// The cached position list of one user in one pool.
pub struct LpEntry {
    pub data: Vec<Holding>,
    pub height: u64,
    pub ts: u64,
}

/// What a cached entry serves at `height` and `now`: its list, where the
/// height is the one observed and the entry is younger than a week.
pub open spec fn served(e: Option<LpEntry>, height: u64, now: u64) -> Option<Seq<HoldingView>> {
    match e {
        Some(x) => if x.height == height && age(now, x.ts) < STALE_NS {
            Some(holdings_view(x.data@))
        } else {
            None
        },
        None => None,
    }
}

/// Position lists cached per user and pool, invalidated when the pool's
/// height moves or the entry grows stale.
pub struct LpCache {
    pub users: KeyedStore<KeyedStore<LpEntry>>,
}

impl LpCache {
    pub open spec fn wf(&self) -> bool {
        &&& self.users.wf()
        &&& forall|u: Seq<char>| #[trigger] self.users@.contains_key(u) ==> self.users@[u].wf()
    }

    /// The entry of `user` in `pool`.
    pub open spec fn entry(&self, user: Seq<char>, pool: Seq<char>) -> Option<LpEntry> {
        if self.users@.contains_key(user) && self.users@[user]@.contains_key(pool) {
            Some(self.users@[user]@[pool])
        } else {
            None
        }
    }

    pub fn new() -> (r: LpCache)
        ensures
            r.wf(),
            forall|u: Seq<char>, p: Seq<char>| r.entry(u, p) is None,
    {
        LpCache { users: KeyedStore::new() }
    }

    /// The cached list of `user` in `pool`, where it is current at `height`
    /// and `now`; `None` means the positions must be fetched.
    pub fn lookup(&self, user: &String, pool: &String, height: u64, now: u64) -> (r: Option<
        Vec<Holding>,
    >)
        requires
            self.wf(),
        ensures
            match r {
                Some(v) => served(self.entry(user@, pool@), height, now) == Some(
                    holdings_view(v@),
                ),
                None => served(self.entry(user@, pool@), height, now) is None,
            },
    {
        match self.users.get(user) {
            Some(pools) => match pools.get(pool) {
                Some(e) => {
                    let a = if now >= e.ts {
                        now - e.ts
                    } else {
                        0
                    };
                    if e.height == height && a < STALE_NS {
                        Some(copy_holdings(&e.data))
                    } else {
                        None
                    }
                },
                None => None,
            },
            None => None,
        }
    }

    /// Replaces the entry of `user` in `pool` with freshly fetched `data`.
    pub fn store(&mut self, user: &String, pool: &String, height: u64, data: Vec<Holding>, now: u64)
        requires
            old(self).wf(),
        ensures
            final(self).wf(),
            final(self).entry(user@, pool@) == Some(LpEntry { data, height, ts: now }),
            forall|u: Seq<char>, p: Seq<char>|
                (u != user@ || p != pool@) ==> #[trigger] final(self).entry(u, p) == old(
                    self,
                ).entry(u, p),
    {
        let mut pools = match self.users.take(user) {
            Some(p) => p,
            None => KeyedStore::new(),
        };
        let ghost before = pools@;
        pools.insert(pool.clone(), LpEntry { data, height, ts: now });
        self.users.insert(user.clone(), pools);
        proof {
            assert forall|u: Seq<char>| #[trigger] self.users@.contains_key(u) implies self.users@[
                u
            ].wf() by {
                if u != user@ {
                    assert(old(self).users@.contains_key(u));
                }
            }
            assert forall|u: Seq<char>, p: Seq<char>|
                (u != user@ || p != pool@) implies #[trigger] self.entry(u, p) == old(self).entry(
                u,
                p,
            ) by {
                if u == user@ {
                    if old(self).users@.contains_key(u) {
                        assert(before == old(self).users@[u]@);
                    } else {
                        assert(!before.contains_key(p));
                    }
                }
            }
        }
    }

    /// Drops every entry that is stale at `now`.
    pub fn evict_stale(&mut self, now: u64)
        requires
            old(self).wf(),
        ensures
            final(self).wf(),
            forall|u: Seq<char>, p: Seq<char>| #[trigger]
                final(self).entry(u, p) == keep_fresh(old(self).entry(u, p), now),
    {
        let ghost old_map = self.users@;
        let mut kept: KeyedStore<KeyedStore<LpEntry>> = KeyedStore::new();
        while self.users.entries.len() > 0
            invariant
                keys_unique(self.users.entries@),
                kept.wf(),
                forall|u: Seq<char>| #[trigger] kept@.contains_key(u) ==> kept@[u].wf(),
                forall|u: Seq<char>| #[trigger]
                    map_of(self.users.entries@).contains_key(u) ==> old_map.contains_key(u) && old_map[u]
                        == map_of(self.users.entries@)[u] && !kept@.contains_key(u) && old_map[u].wf(),
                forall|u: Seq<char>, p: Seq<char>|
                    !map_of(self.users.entries@).contains_key(u) ==> #[trigger] pair_entry(kept@, u, p)
                        == keep_fresh(pair_entry(old_map, u, p), now),
            decreases self.users.entries.len(),
        {
            let ghost before = self.users.entries@;
            let (u, pools) = self.users.entries.pop().unwrap();
            proof {
                assert(before.drop_last() =~= self.users.entries@);
                assert(map_of(before) == map_of(self.users.entries@).insert(u@, pools));
                assert forall|i: int| 0 <= i < self.users.entries@.len() implies self.users.entries@[i].0@ != u@ by {
                    assert(before[i].0@ != before[before.len() - 1].0@);
                }
                lemma_map_of_absent(self.users.entries@, u@);
                assert(map_of(before).contains_key(u@));
                assert(old_map[u@] == pools);
            }
            let fresh = fresh_pools(pools, now);
            let ghost kept_before = kept@;
            let ghost fr = fresh;
            let ghost uv = u@;
            kept.insert(u, fresh);
            proof {
                assert forall|v: Seq<char>|
                    #[trigger] map_of(self.users.entries@).contains_key(v) implies old_map.contains_key(v) && old_map[v]
                        == map_of(self.users.entries@)[v] && !kept@.contains_key(v) && old_map[v].wf() by {
                    assert(map_of(before).contains_key(v));
                }
                assert forall|v: Seq<char>, p: Seq<char>|
                    !map_of(self.users.entries@).contains_key(v) implies #[trigger] pair_entry(kept@, v, p)
                    == keep_fresh(pair_entry(old_map, v, p), now) by {
                    if v != uv {
                        assert(!map_of(before).contains_key(v));
                        assert(pair_entry(kept_before, v, p) == keep_fresh(pair_entry(old_map, v, p), now));
                        assert(kept@.contains_key(v) == kept_before.contains_key(v));
                        if kept@.contains_key(v) {
                            assert(kept@[v] == kept_before[v]);
                        }
                    } else {
                        assert(kept@[v] == fr);
                        assert(old_map[v] == pools);
                        if fr@.contains_key(p) {
                            assert(fr@[p] == pools@[p]);
                        }
                    }
                }
            }
        }
        self.users = kept;
        proof {
            assert forall|u: Seq<char>, p: Seq<char>| #[trigger]
                self.entry(u, p) == keep_fresh(old(self).entry(u, p), now) by {
                assert(self.entry(u, p) == pair_entry(self.users@, u, p));
                assert(old(self).entry(u, p) == pair_entry(old_map, u, p));
            }
        }
    }
}

/// The entry of `u` in `p` in a two-level map.
pub open spec fn pair_entry(
    m: Map<Seq<char>, KeyedStore<LpEntry>>,
    u: Seq<char>,
    p: Seq<char>,
) -> Option<LpEntry> {
    if m.contains_key(u) && m[u]@.contains_key(p) {
        Some(m[u]@[p])
    } else {
        None
    }
}

/// An entry as eviction leaves it: kept while younger than a week.
pub open spec fn keep_fresh(e: Option<LpEntry>, now: u64) -> Option<LpEntry> {
    match e {
        Some(x) => if age(now, x.ts) < STALE_NS {
            Some(x)
        } else {
            None
        },
        None => None,
    }
}

/// The entries of one user's pools that are fresh at `now`.
fn fresh_pools(pools: KeyedStore<LpEntry>, now: u64) -> (r: KeyedStore<LpEntry>)
    requires
        pools.wf(),
    ensures
        r.wf(),
        forall|p: Seq<char>| #[trigger]
            r@.contains_key(p) <==> pools@.contains_key(p) && age(now, pools@[p].ts) < STALE_NS,
        forall|p: Seq<char>| #[trigger] r@.contains_key(p) ==> r@[p] == pools@[p],
{
    let ghost old_map = pools@;
    let mut pending = pools.entries;
    let mut kept: KeyedStore<LpEntry> = KeyedStore::new();
    while pending.len() > 0
        invariant
            keys_unique(pending@),
            kept.wf(),
            forall|p: Seq<char>| #[trigger]
                map_of(pending@).contains_key(p) ==> old_map.contains_key(p) && old_map[p]
                    == map_of(pending@)[p] && !kept@.contains_key(p),
            forall|p: Seq<char>|
                !map_of(pending@).contains_key(p) ==> (#[trigger] kept@.contains_key(p) <==> (
                old_map.contains_key(p) && age(now, old_map[p].ts) < STALE_NS)),
            forall|p: Seq<char>| #[trigger] kept@.contains_key(p) ==> kept@[p] == old_map[p],
        decreases pending.len(),
    {
        let ghost before = pending@;
        let (p, e) = pending.pop().unwrap();
        proof {
            assert(before.drop_last() =~= pending@);
            assert(map_of(before) == map_of(pending@).insert(p@, e));
            assert forall|i: int| 0 <= i < pending@.len() implies pending@[i].0@ != p@ by {
                assert(before[i].0@ != before[before.len() - 1].0@);
            }
            lemma_map_of_absent(pending@, p@);
            assert(map_of(before).contains_key(p@));
            assert(old_map[p@] == e);
        }
        let ghost kept_before = kept@;
        let a = if now >= e.ts {
            now - e.ts
        } else {
            0
        };
        if a < STALE_NS {
            kept.insert(p, e);
        }
        proof {
            assert forall|q: Seq<char>| #[trigger]
                map_of(pending@).contains_key(q) implies old_map.contains_key(q) && old_map[q]
                    == map_of(pending@)[q] && !kept@.contains_key(q) by {
                assert(map_of(before).contains_key(q));
            }
            assert forall|q: Seq<char>|
                !map_of(pending@).contains_key(q) implies (#[trigger] kept@.contains_key(q) <==> (
            old_map.contains_key(q) && age(now, old_map[q].ts) < STALE_NS)) by {
                if q != p@ {
                    assert(!map_of(before).contains_key(q));
                }
            }
        }
    }
    proof {
        assert forall|p: Seq<char>| old_map.contains_key(p) implies !map_of(pending@).contains_key(
            p,
        ) by {}
    }
    kept
}

/// Height invalidation: an entry stored at height `h` and time `t0` serves
/// its list at `h` until it is a week old, so the positions are fetched at
/// most once meanwhile; at any other height it serves nothing, so a move of
/// the height brings a fetch.
pub proof fn lemma_height_invalidation(data: Vec<Holding>, h: u64, t0: u64, other: u64, t: u64)
    ensures
        age(t, t0) < STALE_NS ==> served(Some(LpEntry { data, height: h, ts: t0 }), h, t) == Some(
            holdings_view(data@),
        ),
        other != h ==> served(Some(LpEntry { data, height: other, ts: t0 }), h, t) is None,
{
}

/// One liquidity position: the amounts of the pool's two tokens, in base
/// units.
pub struct Position {
    pub amount0: u128,
    pub amount1: u128,
}

/// The row for `amount` base units of `token` with `d` decimals held in
/// escrow by the pool of `source`.
pub open spec fn lp_row(source: Seq<char>, token: Seq<char>, amount: u128, d: u8) -> HoldingView {
    HoldingView {
        source,
        token,
        amount: amount_text(amount as nat, d as nat),
        status: "lp_escrow"@,
    }
}

/// Two rows per position, one for each token of the pool; none where the
/// pool's decimals could not be read.
pub fn pool_holdings(
    source: &String,
    token0: &String,
    token1: &String,
    decimals: Option<(u8, u8)>,
    positions: &Vec<Position>,
) -> (r: Vec<Holding>)
    ensures
        decimals is None ==> r@.len() == 0,
        decimals is Some ==> r@.len() == 2 * positions@.len() && forall|i: int|
            0 <= i < positions@.len() ==> #[trigger] r@[2 * i]@ == lp_row(
                source@,
                token0@,
                positions@[i].amount0,
                decimals->Some_0.0,
            ) && r@[2 * i + 1]@ == lp_row(
                source@,
                token1@,
                positions@[i].amount1,
                decimals->Some_0.1,
            ),
{
    let mut out: Vec<Holding> = Vec::new();
    let (d0, d1) = match decimals {
        Some(d) => d,
        None => {
            return out;
        },
    };
    proof {
        reveal_strlit("lp_escrow");
    }
    let mut i: usize = 0;
    while i < positions.len()
        invariant
            i <= positions@.len(),
            decimals == Some((d0, d1)),
            out@.len() == 2 * i,
            forall|j: int|
                0 <= j < i ==> #[trigger] out@[2 * j]@ == lp_row(
                    source@,
                    token0@,
                    positions@[j].amount0,
                    d0,
                ) && out@[2 * j + 1]@ == lp_row(source@, token1@, positions@[j].amount1, d1),
        decreases positions.len() - i,
    {
        let p = &positions[i];
        let ghost prev = out@;
        out.push(
            Holding::new(
                source.clone(),
                token0.clone(),
                format_amount(p.amount0, d0),
                String::from_str("lp_escrow"),
            ),
        );
        out.push(
            Holding::new(
                source.clone(),
                token1.clone(),
                format_amount(p.amount1, d1),
                String::from_str("lp_escrow"),
            ),
        );
        proof {
            assert forall|j: int| 0 <= j < i + 1 implies #[trigger] out@[2 * j]@ == lp_row(
                source@,
                token0@,
                positions@[j].amount0,
                d0,
            ) && out@[2 * j + 1]@ == lp_row(source@, token1@, positions@[j].amount1, d1) by {
                if j < i {
                    assert(out@[2 * j] == prev[2 * j]);
                    assert(out@[2 * j + 1] == prev[2 * j + 1]);
                }
            }
        }
        i = i + 1;
    }
    out
}

/// The view of a cached entry: its rows, height and time.
pub type LpView = (Seq<HoldingView>, u64, u64);

pub open spec fn entry_view(e: Option<LpEntry>) -> Option<LpView> {
    match e {
        Some(x) => Some((holdings_view(x.data@), x.height, x.ts)),
        None => None,
    }
}

/// One cached entry in persisted form.
pub struct StableLp {
    pub user: String,
    pub pool: String,
    pub data: Vec<Holding>,
    pub height: u64,
    pub ts: u64,
}

/// The view of a persisted entry: user, pool, and the entry.
pub type StableLpView = (Seq<char>, Seq<char>, LpView);

pub open spec fn stable_lp_view(d: Seq<StableLp>) -> Seq<StableLpView> {
    d.map_values(|x: StableLp| (x.user@, x.pool@, (holdings_view(x.data@), x.height, x.ts)))
}

/// The persisted form of one user's pools.
pub open spec fn inner_saved(u: Seq<char>, s: Seq<(String, LpEntry)>) -> Seq<StableLpView>
    decreases s.len(),
{
    if s.len() == 0 {
        Seq::empty()
    } else {
        inner_saved(u, s.drop_last()).push(
            (u, s.last().0@, (holdings_view(s.last().1.data@), s.last().1.height, s.last().1.ts)),
        )
    }
}

/// The persisted form of the whole cache: user by user, pool by pool.
pub open spec fn saved_lp(s: Seq<(String, KeyedStore<LpEntry>)>) -> Seq<StableLpView>
    decreases s.len(),
{
    if s.len() == 0 {
        Seq::empty()
    } else {
        saved_lp(s.drop_last()) + inner_saved(s.last().0@, s.last().1.entries@)
    }
}

/// The entry of `(u, p)` that restoring `d` gives: the last one persisted.
pub open spec fn restored_lp(d: Seq<StableLpView>, u: Seq<char>, p: Seq<char>) -> Option<LpView>
    decreases d.len(),
{
    if d.len() == 0 {
        None
    } else if d.last().0 == u && d.last().1 == p {
        Some(d.last().2)
    } else {
        restored_lp(d.drop_last(), u, p)
    }
}

proof fn lemma_restored_inner(
    base: Seq<StableLpView>,
    u: Seq<char>,
    s: Seq<(String, LpEntry)>,
    u2: Seq<char>,
    p: Seq<char>,
)
    ensures
        restored_lp(base + inner_saved(u, s), u2, p) == if u2 == u && map_of(s).contains_key(p) {
            entry_view(Some(map_of(s)[p]))
        } else {
            restored_lp(base, u2, p)
        },
    decreases s.len(),
{
    if s.len() == 0 {
        assert(base + inner_saved(u, s) =~= base);
    } else {
        lemma_restored_inner(base, u, s.drop_last(), u2, p);
        assert((base + inner_saved(u, s)).drop_last() =~= base + inner_saved(u, s.drop_last()));
    }
}

proof fn lemma_restored_saved(s: Seq<(String, KeyedStore<LpEntry>)>, u: Seq<char>, p: Seq<char>)
    requires
        keys_unique(s),
    ensures
        restored_lp(saved_lp(s), u, p) == if map_of(s).contains_key(u) && map_of(s)[u]@.contains_key(p) {
            entry_view(Some(map_of(s)[u]@[p]))
        } else {
            None
        },
    decreases s.len(),
{
    if s.len() > 0 {
        let t = s.drop_last();
        lemma_restored_saved(t, u, p);
        lemma_restored_inner(saved_lp(t), s.last().0@, s.last().1.entries@, u, p);
        if u == s.last().0@ {
            assert forall|i: int| 0 <= i < t.len() implies t[i].0@ != u by {
                assert(s[i].0@ != s[s.len() - 1].0@);
            }
            lemma_map_of_absent(t, u);
        }
    }
}

impl LpCache {
    /// The entries in persisted form.
    pub fn stable_save(&self) -> (r: Vec<StableLp>)
        ensures
            stable_lp_view(r@) == saved_lp(self.users.entries@),
    {
        let mut out: Vec<StableLp> = Vec::new();
        let ghost outer = self.users.entries@;
        let mut i: usize = 0;
        assert(stable_lp_view(out@) =~= saved_lp(outer.take(0)));
        while i < self.users.entries.len()
            invariant
                outer == self.users.entries@,
                i <= outer.len(),
                stable_lp_view(out@) == saved_lp(outer.take(i as int)),
            decreases outer.len() - i,
        {
            let user = &self.users.entries[i].0;
            let pools = &self.users.entries[i].1;
            let ghost base = out@;
            let ghost inner = pools.entries@;
            let mut j: usize = 0;
            assert(stable_lp_view(out@) =~= stable_lp_view(base) + inner_saved(user@, inner.take(0)));
            while j < pools.entries.len()
                invariant
                    inner == pools.entries@,
                    j <= inner.len(),
                    stable_lp_view(out@) == stable_lp_view(base) + inner_saved(user@, inner.take(j as int)),
                decreases inner.len() - j,
            {
                let e = &pools.entries[j].1;
                let ghost prev = out@;
                out.push(
                    StableLp {
                        user: user.clone(),
                        pool: pools.entries[j].0.clone(),
                        data: copy_holdings(&e.data),
                        height: e.height,
                        ts: e.ts,
                    },
                );
                proof {
                    assert(inner.take(j + 1).drop_last() =~= inner.take(j as int));
                    assert(stable_lp_view(out@) =~= stable_lp_view(prev).push(
                        stable_lp_view(out@).last(),
                    ));
                }
                j = j + 1;
            }
            proof {
                assert(inner.take(inner.len() as int) =~= inner);
                assert(outer.take(i + 1).drop_last() =~= outer.take(i as int));
            }
            i = i + 1;
        }
        assert(outer.take(outer.len() as int) =~= outer);
        out
    }

    /// Rebuilds the cache from persisted entries, a later entry for the same
    /// user and pool winning.
    pub fn stable_restore(data: Vec<StableLp>) -> (r: LpCache)
        ensures
            r.wf(),
            forall|u: Seq<char>, p: Seq<char>| #[trigger]
                entry_view(r.entry(u, p)) == restored_lp(stable_lp_view(data@), u, p),
    {
        let mut c = LpCache::new();
        let ghost all = stable_lp_view(data@);
        let mut i: usize = 0;
        while i < data.len()
            invariant
                c.wf(),
                i <= data@.len(),
                all == stable_lp_view(data@),
                forall|u: Seq<char>, p: Seq<char>| #[trigger]
                    entry_view(c.entry(u, p)) == restored_lp(all.take(i as int), u, p),
            decreases data.len() - i,
        {
            let x = &data[i];
            c.store(&x.user, &x.pool, x.height, copy_holdings(&x.data), x.ts);
            proof {
                assert(all.take(i + 1).drop_last() =~= all.take(i as int));
                assert forall|u: Seq<char>, p: Seq<char>| #[trigger]
                    entry_view(c.entry(u, p)) == restored_lp(all.take(i + 1), u, p) by {
                    if u == x.user@ && p == x.pool@ {
                    } else {
                    }
                }
            }
            i = i + 1;
        }
        assert(all.take(data@.len() as int) =~= all);
        c
    }
}

/// Stable round trip: restoring what `stable_save` wrote gives back every
/// entry, with the same rows, height and time.
pub proof fn lemma_lp_round_trip(c: &LpCache, u: Seq<char>, p: Seq<char>)
    requires
        c.wf(),
    ensures
        restored_lp(saved_lp(c.users.entries@), u, p) == entry_view(c.entry(u, p)),
{
    lemma_restored_saved(c.users.entries@, u, p);
}

/// Number of cached entries over all users, saturating.
pub open spec fn entry_count(s: Seq<(String, KeyedStore<LpEntry>)>) -> nat
    decreases s.len(),
{
    if s.len() == 0 {
        0
    } else {
        entry_count(s.drop_last()) + s.last().1.entries@.len()
    }
}

impl LpCache {
    /// The number of cached entries (at most `usize::MAX`).
    pub fn len(&self) -> (r: usize)
        ensures
            r == if entry_count(self.users.entries@) <= usize::MAX {
                entry_count(self.users.entries@)
            } else {
                usize::MAX as nat
            },
    {
        let ghost s = self.users.entries@;
        let mut n: usize = 0;
        let mut i: usize = 0;
        while i < self.users.entries.len()
            invariant
                s == self.users.entries@,
                i <= s.len(),
                n == if entry_count(s.take(i as int)) <= usize::MAX {
                    entry_count(s.take(i as int))
                } else {
                    usize::MAX as nat
                },
            decreases s.len() - i,
        {
            proof {
                assert(s.take(i + 1).drop_last() =~= s.take(i as int));
            }
            n = n.saturating_add(self.users.entries[i].1.entries.len());
            i = i + 1;
        }
        assert(s.take(s.len() as int) =~= s);
        n
    }
}

} // verus!
