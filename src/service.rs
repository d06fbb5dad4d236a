use vstd::prelude::*;
use crate::amount::{dec_digits, format_amount};
use crate::metrics::{wrapped_add, MetricsRecorder};
use crate::store::KeyedStore;

verus! {

/// A caller paid less than an operation costs.
#[derive(Clone, Copy, Debug, PartialEq, Eq)]
pub struct Insufficient {
    pub sent: u128,
    pub required: u128,
}

impl Insufficient {
    /// The message callers see.
    pub fn message(&self) -> (r: String)
        ensures
            r@ == "Insufficient cycles: sent "@ + dec_digits(self.sent as nat) + ", required "@
                + dec_digits(self.required as nat),
    {
        proof {
            reveal_strlit("Insufficient cycles: sent ");
            reveal_strlit(", required ");
        }
        String::from_str("Insufficient cycles: sent ").concat(format_amount(self.sent, 0).as_str()).concat(
            ", required ",
        ).concat(format_amount(self.required, 0).as_str())
    }
}

/// Charges an operation that costs `price`, of which the caller's payment
/// let `accepted` be taken: what was taken is counted as collected, and the
/// call fails where it falls short of the price. A zero price charges
/// nothing.
pub fn pay_cycles(price: u128, accepted: u128, metrics: &mut MetricsRecorder) -> (r: Result<
    (),
    Insufficient,
>)
    ensures
        price == 0 ==> r is Ok && *final(metrics) == *old(metrics),
        price > 0 ==> final(metrics).counters == old(metrics).counters && final(metrics).collected
            == wrapped_add(old(metrics).collected, (accepted % 0x1_0000_0000_0000_0000) as u64),
        price > 0 && accepted < price ==> r == Err::<(), Insufficient>(
            Insufficient { sent: accepted, required: price },
        ),
        price > 0 && accepted >= price ==> r is Ok,
{
    if price == 0 {
        return Ok(());
    }
    metrics.add_cycles_collected(accepted);
    if accepted < price {
        Err(Insufficient { sent: accepted, required: price })
    } else {
        Ok(())
    }
}

/// Build identification.
pub struct Version {
    pub git_sha: String,
    pub build_time: String,
}

/// The version of the build: the recorded commit and build time, each
/// `unknown` where none was recorded.
pub fn version(git_sha: Option<String>, build_time: Option<String>) -> (r: Version)
    ensures
        r.git_sha@ == match git_sha {
            Some(s) => s@,
            None => "unknown"@,
        },
        r.build_time@ == match build_time {
            Some(s) => s@,
            None => "unknown"@,
        },
{
    Version {
        git_sha: match git_sha {
            Some(s) => s,
            None => String::from_str("unknown"),
        },
        build_time: match build_time {
            Some(s) => s,
            None => String::from_str("unknown"),
        },
    }
}

/// The answer of the liveness probe.
pub fn health_check() -> (r: String)
    ensures
        r@ == "ok"@,
{
    String::from_str("ok")
}

/// One liquidity pool as the pool description file gives it.
pub struct PoolMeta {
    pub id: String,
    pub token_a: String,
    pub token_b: String,
    pub decimals_a: u8,
    pub decimals_b: u8,
    pub image_a: Option<String>,
    pub image_b: Option<String>,
}

impl PoolMeta {
    pub fn duplicate(&self) -> (r: PoolMeta)
        ensures
            r.id@ == self.id@,
            r.token_a@ == self.token_a@,
            r.token_b@ == self.token_b@,
            r.decimals_a == self.decimals_a,
            r.decimals_b == self.decimals_b,
    {
        PoolMeta {
            id: self.id.clone(),
            token_a: self.token_a.clone(),
            token_b: self.token_b.clone(),
            decimals_a: self.decimals_a,
            decimals_b: self.decimals_b,
            image_a: self.image_a.clone(),
            image_b: self.image_b.clone(),
        }
    }
}

/// The known pools, by id.
pub struct PoolRegistry {
    pub pools: KeyedStore<PoolMeta>,
}

impl PoolRegistry {
    pub open spec fn wf(&self) -> bool {
        self.pools.wf()
    }

    pub fn new() -> (r: PoolRegistry)
        ensures
            r.wf(),
            r.pools@.dom().len() == 0,
    {
        let r = PoolRegistry { pools: KeyedStore::new() };
        assert(r.pools@.dom() =~= Set::<Seq<char>>::empty());
        r
    }

    /// Replaces the registry with the pools of a freshly read file, a later
    /// pool with the same id winning.
    pub fn refresh(&mut self, pools: Vec<PoolMeta>)
        ensures
            final(self).wf(),
            forall|i: int|
                0 <= i < pools@.len() ==> final(self).pools@.contains_key(#[trigger] pools@[i].id@),
            forall|k: Seq<char>|
                final(self).pools@.contains_key(k) ==> exists|i: int|
                    0 <= i < pools@.len() && (#[trigger] pools@[i].id@) == k,
            forall|k: Seq<char>| #[trigger]
                final(self).pools@.contains_key(k) ==> final(self).pools@[k].id@ == k,
    {
        let mut reg: KeyedStore<PoolMeta> = KeyedStore::new();
        let mut rest = pools;
        let ghost all = rest@;
        let mut i: usize = 0;
        while i < rest.len()
            invariant
                reg.wf(),
                i <= all.len(),
                rest@ == all,
                forall|j: int| 0 <= j < i ==> reg@.contains_key(#[trigger] all[j].id@),
                forall|k: Seq<char>|
                    reg@.contains_key(k) ==> exists|j: int| 0 <= j < i && (#[trigger] all[j].id@) == k,
                forall|k: Seq<char>| #[trigger] reg@.contains_key(k) ==> reg@[k].id@ == k,
            decreases all.len() - i,
        {
            let p = rest[i].duplicate();
            let ghost pid = p.id@;
            reg.insert(p.id.clone(), p);
            proof {
                assert(all[i as int].id@ == pid);
                assert forall|k: Seq<char>| reg@.contains_key(k) implies exists|j: int|
                    0 <= j < i + 1 && (#[trigger] all[j].id@) == k by {
                    if k != pid {
                        let j = choose|j: int| 0 <= j < i && (#[trigger] all[j].id@) == k;
                        assert(all[j].id@ == k);
                    } else {
                        assert(all[i as int].id@ == k);
                    }
                }
            }
            i = i + 1;
        }
        self.pools = reg;
    }

    /// The known pools.
    pub fn list(&self) -> (r: Vec<PoolMeta>)
        ensures
            r@.len() == self.pools.entries@.len(),
            forall|i: int|
                0 <= i < r@.len() ==> (#[trigger] r@[i]).id@ == self.pools.entries@[i].1.id@
                    && r@[i].token_a@ == self.pools.entries@[i].1.token_a@ && r@[i].token_b@
                    == self.pools.entries@[i].1.token_b@ && r@[i].decimals_a
                    == self.pools.entries@[i].1.decimals_a && r@[i].decimals_b
                    == self.pools.entries@[i].1.decimals_b,
    {
        let mut out: Vec<PoolMeta> = Vec::new();
        let mut i: usize = 0;
        while i < self.pools.entries.len()
            invariant
                i <= self.pools.entries@.len(),
                out@.len() == i,
                forall|j: int|
                    0 <= j < i ==> (#[trigger] out@[j]).id@ == self.pools.entries@[j].1.id@
                        && out@[j].token_a@ == self.pools.entries@[j].1.token_a@ && out@[j].token_b@
                        == self.pools.entries@[j].1.token_b@ && out@[j].decimals_a
                        == self.pools.entries@[j].1.decimals_a && out@[j].decimals_b
                        == self.pools.entries@[j].1.decimals_b,
            decreases self.pools.entries.len() - i,
        {
            out.push(self.pools.entries[i].1.duplicate());
            i = i + 1;
        }
        out
    }
}

} // verus!
