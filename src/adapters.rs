use vstd::prelude::*;
use crate::config::{AdapterEntry, AdapterKind};
use crate::store::KeyedStore;
use crate::time::DAY_NS;

verus! {

/// How long an adapter keeps the metadata it read of a pool or ledger.
pub const ADAPTER_META_TTL_NS: u64 = DAY_NS;

/// A reward that a user can claim from an adapter.
#[derive(Debug)]
pub struct RewardInfo {
    pub token: String,
    pub amount: String,
}

/// Metadata an adapter has read, per endpoint, each with its expiry.
pub struct SubCache<V> {
    pub entries: KeyedStore<(V, u64)>,
}

impl<V> SubCache<V> {
    pub open spec fn wf(&self) -> bool {
        self.entries.wf()
    }

    pub fn new() -> (r: SubCache<V>)
        ensures
            r.wf(),
            r.entries@.dom().len() == 0,
    {
        let r = SubCache { entries: KeyedStore::new() };
        assert(r.entries@.dom() =~= Set::<Seq<char>>::empty());
        r
    }

    /// The value of `endpoint` while it has not expired at `now`.
    pub fn lookup(&self, endpoint: &String, now: u64) -> (r: Option<&V>)
        requires
            self.wf(),
        ensures
            match r {
                Some(v) => self.entries@.contains_key(endpoint@) && now
                    < self.entries@[endpoint@].1 && *v == self.entries@[endpoint@].0,
                None => !(self.entries@.contains_key(endpoint@) && now
                    < self.entries@[endpoint@].1),
            },
    {
        match self.entries.get(endpoint) {
            Some(e) => if now < e.1 {
                Some(&e.0)
            } else {
                None
            },
            None => None,
        }
    }

    /// Keeps `value` for `endpoint` for a day from `now`.
    pub fn store(&mut self, endpoint: &String, value: V, now: u64)
        requires
            old(self).wf(),
        ensures
            final(self).wf(),
            final(self).entries@ == old(self).entries@.insert(
                endpoint@,
                (value, if now + ADAPTER_META_TTL_NS > u64::MAX {
                    u64::MAX
                } else {
                    (now + ADAPTER_META_TTL_NS) as u64
                }),
            ),
    {
        self.entries.insert(endpoint.clone(), (value, now.saturating_add(ADAPTER_META_TTL_NS)));
    }

    /// Forgets everything, as a reload of the configuration requires.
    pub fn clear(&mut self)
        ensures
            final(self).wf(),
            final(self).entries@.dom().len() == 0,
    {
        self.entries = KeyedStore::new();
        assert(self.entries@.dom() =~= Set::<Seq<char>>::empty());
    }
}

/// The factory-style adapter: liquidity positions in the pools that a
/// factory lists. It keeps each pool's token decimals.
pub struct IcpswapAdapter {
    pub endpoint: String,
    pub pool_meta: SubCache<(u8, u8)>,
}

/// The router-style adapter: positions that a router reports whole.
pub struct SonicAdapter {
    pub endpoint: String,
}

/// The vault-style adapter: balances held by a vault. It keeps each
/// ledger's symbol, decimals and fee.
pub struct InfinityAdapter {
    pub endpoint: String,
    pub ledger_meta: SubCache<(String, u8, u64)>,
}

/// The distributor-style adapter: rewards claimable from a distributor.
pub struct SnsAdapter {
    pub endpoint: String,
}

impl IcpswapAdapter {
    pub fn clear_cache(&mut self)
        ensures
            final(self).pool_meta.wf(),
            final(self).pool_meta.entries@.dom().len() == 0,
            final(self).endpoint == old(self).endpoint,
    {
        self.pool_meta.clear();
    }
}

impl InfinityAdapter {
    pub fn clear_cache(&mut self)
        ensures
            final(self).ledger_meta.wf(),
            final(self).ledger_meta.entries@.dom().len() == 0,
            final(self).endpoint == old(self).endpoint,
    {
        self.ledger_meta.clear();
    }
}

impl SonicAdapter {
    /// The router adapter keeps nothing between calls.
    pub fn clear_cache(&mut self)
        ensures
            final(self).endpoint == old(self).endpoint,
    {
    }
}

impl SnsAdapter {
    /// The distributor adapter keeps nothing between calls.
    pub fn clear_cache(&mut self)
        ensures
            final(self).endpoint == old(self).endpoint,
    {
    }
}

/// One live adapter of the registry.
pub enum Adapter {
    Factory(IcpswapAdapter),
    Router(SonicAdapter),
    Vault(InfinityAdapter),
    Distributor(SnsAdapter),
}

impl Adapter {
    /// The endpoint the adapter talks to.
    pub open spec fn endpoint_view(&self) -> Seq<char> {
        match self {
            Adapter::Factory(a) => a.endpoint@,
            Adapter::Router(a) => a.endpoint@,
            Adapter::Vault(a) => a.endpoint@,
            Adapter::Distributor(a) => a.endpoint@,
        }
    }

    /// Whether the adapter holds no cached metadata.
    pub open spec fn is_cleared(&self) -> bool {
        match self {
            Adapter::Factory(a) => a.pool_meta.wf() && a.pool_meta.entries@.dom().len() == 0,
            Adapter::Vault(a) => a.ledger_meta.wf() && a.ledger_meta.entries@.dom().len() == 0,
            _ => true,
        }
    }

    /// A fresh adapter of the style and endpoint of a registry entry.
    pub fn from_entry(e: &AdapterEntry) -> (r: Adapter)
        ensures
            r.endpoint_view() == e.endpoint@,
            r.is_cleared(),
            e.kind == AdapterKind::Factory ==> r is Factory,
            e.kind == AdapterKind::Router ==> r is Router,
            e.kind == AdapterKind::Vault ==> r is Vault,
            e.kind == AdapterKind::Distributor ==> r is Distributor,
    {
        match e.kind {
            AdapterKind::Factory => Adapter::Factory(
                IcpswapAdapter { endpoint: e.endpoint.clone(), pool_meta: SubCache::new() },
            ),
            AdapterKind::Router => Adapter::Router(SonicAdapter { endpoint: e.endpoint.clone() }),
            AdapterKind::Vault => Adapter::Vault(
                InfinityAdapter { endpoint: e.endpoint.clone(), ledger_meta: SubCache::new() },
            ),
            AdapterKind::Distributor => Adapter::Distributor(
                SnsAdapter { endpoint: e.endpoint.clone() },
            ),
        }
    }

    /// Forgets the adapter's cached metadata.
    pub fn clear_cache(&mut self)
        ensures
            final(self).is_cleared(),
            final(self).endpoint_view() == old(self).endpoint_view(),
    {
        match self {
            Adapter::Factory(a) => a.clear_cache(),
            Adapter::Router(a) => a.clear_cache(),
            Adapter::Vault(a) => a.clear_cache(),
            Adapter::Distributor(a) => a.clear_cache(),
        }
    }
}

} // verus!
