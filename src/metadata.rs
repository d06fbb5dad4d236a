use vstd::prelude::*;
use crate::store::{keys_unique, lemma_map_of_index, map_of, KeyedStore};
use crate::time::DAY_NS;
use sha2::Digest;

verus! {

/// How long fetched metadata stays valid: one day.
pub const META_TTL_NS: u64 = DAY_NS;

/// Length of a content hash in bytes.
pub const HASH_LEN: usize = 32;

/// SHA-256 digest of a byte string.
pub uninterp spec fn sha256_of(b: Seq<u8>) -> Seq<u8>;

/// Relies on `sha2::Sha256::digest`: the SHA-256 digest of the bytes, whose
/// output size is 32 bytes, and which depends on the bytes alone.
#[verifier::external_body]
fn sha256(b: &Vec<u8>) -> (r: Vec<u8>)
    ensures
        r@ == sha256_of(b@),
        r@.len() == HASH_LEN,
{
    sha2::Sha256::digest(b.as_slice()).to_vec()
}

/// The content hash of an encoded metadata reply.
pub fn content_hash(encoded: &Vec<u8>) -> (r: Vec<u8>)
    ensures
        r@ == sha256_of(encoded@),
        r@.len() == HASH_LEN,
{
    sha256(encoded)
}

/// Symbol, decimals and transfer fee of a token ledger.
pub struct TokenMeta {
    pub symbol: String,
    pub decimals: u8,
    pub fee: u64,
}

/// The cached metadata of one endpoint.
pub struct Meta {
    pub symbol: String,
    pub decimals: u8,
    pub fee: u64,
    pub hash: Vec<u8>,
    pub expires: u64,
}

pub struct MetaView {
    pub symbol: Seq<char>,
    pub decimals: u8,
    pub fee: u64,
    pub hash: Seq<u8>,
    pub expires: u64,
}

impl View for Meta {
    type V = MetaView;

    open spec fn view(&self) -> MetaView {
        MetaView {
            symbol: self.symbol@,
            decimals: self.decimals,
            fee: self.fee,
            hash: self.hash@,
            expires: self.expires,
        }
    }
}

/// `now + META_TTL_NS`, saturating.
pub open spec fn expiry_after(now: u64) -> u64 {
    if now + META_TTL_NS > u64::MAX {
        u64::MAX
    } else {
        (now + META_TTL_NS) as u64
    }
}

/// The entry after a fetch that hashed to `hash` at `now`: on a match only
/// the expiry moves; otherwise the fetched values replace the entry.
pub open spec fn after_fetch(
    prev: Option<MetaView>,
    hash: Seq<u8>,
    symbol: Seq<char>,
    decimals: u8,
    fee: u64,
    now: u64,
) -> MetaView {
    match prev {
        Some(p) => if p.hash == hash {
            MetaView { expires: expiry_after(now), ..p }
        } else {
            MetaView { symbol, decimals, fee, hash, expires: expiry_after(now) }
        },
        None => MetaView { symbol, decimals, fee, hash, expires: expiry_after(now) },
    }
}

/// Metadata per endpoint, each entry valid until its expiry.
pub struct MetaCache {
    pub entries: KeyedStore<Meta>,
}

impl View for MetaCache {
    type V = Map<Seq<char>, MetaView>;

    open spec fn view(&self) -> Map<Seq<char>, MetaView> {
        self.entries@.map_values(|m: Meta| m@)
    }
}

impl MetaCache {
    /// Keys are distinct and every hash has the digest's length.
    pub open spec fn wf(&self) -> bool {
        &&& self.entries.wf()
        &&& forall|k: Seq<char>| #[trigger]
            self.entries@.contains_key(k) ==> self.entries@[k].hash@.len() == HASH_LEN
    }

    pub fn new() -> (r: MetaCache)
        ensures
            r.wf(),
            r@ == Map::<Seq<char>, MetaView>::empty(),
    {
        let r = MetaCache { entries: KeyedStore::new() };
        assert(r@ =~= Map::<Seq<char>, MetaView>::empty());
        r
    }

    /// The cached symbol, decimals and fee of `endpoint`, while the entry has
    /// not expired at `now`; `None` calls for a fetch.
    pub fn lookup(&self, endpoint: &String, now: u64) -> (r: Option<TokenMeta>)
        requires
            self.wf(),
        ensures
            match r {
                Some(m) => self@.contains_key(endpoint@) && now < self@[endpoint@].expires
                    && m.symbol@ == self@[endpoint@].symbol && m.decimals
                    == self@[endpoint@].decimals && m.fee == self@[endpoint@].fee,
                None => !(self@.contains_key(endpoint@) && now < self@[endpoint@].expires),
            },
    {
        match self.entries.get(endpoint) {
            Some(m) => if now < m.expires {
                Some(TokenMeta { symbol: m.symbol.clone(), decimals: m.decimals, fee: m.fee })
            } else {
                None
            },
            None => None,
        }
    }

    /// Records a successful fetch for `endpoint` whose reply hashed to
    /// `hash`, and returns the metadata now in force.
    pub fn apply_fetch(&mut self, endpoint: &String, hash: Vec<u8>, fetched: TokenMeta, now: u64) -> (r:
        TokenMeta)
        requires
            old(self).wf(),
            hash@.len() == HASH_LEN,
        ensures
            final(self).wf(),
            final(self)@ == old(self)@.insert(
                endpoint@,
                after_fetch(
                    if old(self)@.contains_key(endpoint@) {
                        Some(old(self)@[endpoint@])
                    } else {
                        None
                    },
                    hash@,
                    fetched.symbol@,
                    fetched.decimals,
                    fetched.fee,
                    now,
                ),
            ),
            r.symbol@ == final(self)@[endpoint@].symbol,
            r.decimals == final(self)@[endpoint@].decimals,
            r.fee == final(self)@[endpoint@].fee,
    {
        let expires = now.saturating_add(META_TTL_NS);
        let next = match self.entries.take(endpoint) {
            Some(m) => if bytes_equal(&m.hash, &hash) {
                Meta { expires, ..m }
            } else {
                Meta {
                    symbol: fetched.symbol,
                    decimals: fetched.decimals,
                    fee: fetched.fee,
                    hash,
                    expires,
                }
            },
            None => Meta {
                symbol: fetched.symbol,
                decimals: fetched.decimals,
                fee: fetched.fee,
                hash,
                expires,
            },
        };
        let r = TokenMeta { symbol: next.symbol.clone(), decimals: next.decimals, fee: next.fee };
        let ghost nv = next@;
        self.entries.insert(endpoint.clone(), next);
        proof {
            assert(self@ =~= old(self)@.insert(endpoint@, nv));
        }
        r
    }

    /// Records a successful fetch whose encoded reply is `encoded`: hashes
    /// it, then applies it as `apply_fetch` does.
    pub fn refresh(&mut self, endpoint: &String, encoded: &Vec<u8>, fetched: TokenMeta, now: u64) -> (r:
        TokenMeta)
        requires
            old(self).wf(),
        ensures
            final(self).wf(),
            final(self)@ == old(self)@.insert(
                endpoint@,
                after_fetch(
                    if old(self)@.contains_key(endpoint@) {
                        Some(old(self)@[endpoint@])
                    } else {
                        None
                    },
                    sha256_of(encoded@),
                    fetched.symbol@,
                    fetched.decimals,
                    fetched.fee,
                    now,
                ),
            ),
            r.symbol@ == final(self)@[endpoint@].symbol,
            r.decimals == final(self)@[endpoint@].decimals,
            r.fee == final(self)@[endpoint@].fee,
    {
        let hash = content_hash(encoded);
        self.apply_fetch(endpoint, hash, fetched, now)
    }

    pub fn len(&self) -> (r: usize)
        requires
            self.wf(),
        ensures
            r == self@.dom().len(),
    {
        assert(self@.dom() =~= self.entries@.dom());
        self.entries.len()
    }
}

/// Whether two byte strings are equal.
pub fn bytes_equal(a: &Vec<u8>, b: &Vec<u8>) -> (r: bool)
    ensures
        r == (a@ == b@),
{
    if a.len() != b.len() {
        return false;
    }
    let mut i: usize = 0;
    while i < a.len()
        invariant
            a@.len() == b@.len(),
            i <= a@.len(),
            forall|j: int| 0 <= j < i ==> a@[j] == b@[j],
        decreases a.len() - i,
    {
        if a[i] != b[i] {
            return false;
        }
        i = i + 1;
    }
    assert(a@ =~= b@);
    true
}

/// Metadata time-to-live: before expiry the cache answers (no fetch); a
/// fetch whose hash matches keeps symbol, decimals and fee and only moves the
/// expiry; one whose hash differs replaces the entry.
pub proof fn lemma_metadata_ttl(
    prev: MetaView,
    hash: Seq<u8>,
    symbol: Seq<char>,
    decimals: u8,
    fee: u64,
    now: u64,
)
    ensures
        ({
            let next = after_fetch(Some(prev), hash, symbol, decimals, fee, now);
            &&& prev.hash == hash ==> next.symbol == prev.symbol && next.decimals == prev.decimals
                && next.fee == prev.fee && next.hash == prev.hash
            &&& prev.hash != hash ==> next.symbol == symbol && next.decimals == decimals && next.fee
                == fee && next.hash == hash
            &&& next.expires == expiry_after(now)
        }),
{
}

/// Copies a byte string.
pub fn copy_bytes(v: &Vec<u8>) -> (r: Vec<u8>)
    ensures
        r@ == v@,
{
    let r = v.clone();
    assert(r@ =~= v@);
    r
}

/// One entry of the metadata cache in its persisted form.
pub struct StableMeta {
    pub cid: String,
    pub symbol: String,
    pub decimals: u8,
    pub fee: u64,
    pub hash: Vec<u8>,
    pub expires: u64,
}

/// The persisted form of the entries `s`, in order.
pub open spec fn saved_view(s: Seq<(String, Meta)>) -> Seq<(Seq<char>, MetaView)> {
    s.map_values(|e: (String, Meta)| (e.0@, e.1@))
}

/// The view of persisted entries.
pub open spec fn stable_view(d: Seq<StableMeta>) -> Seq<(Seq<char>, MetaView)> {
    d.map_values(
        |m: StableMeta|
            (
                m.cid@,
                MetaView {
                    symbol: m.symbol@,
                    decimals: m.decimals,
                    fee: m.fee,
                    hash: m.hash@,
                    expires: m.expires,
                },
            ),
    )
}

/// A persisted hash as restore keeps it: one of the wrong length is dropped
/// for an all-zero hash, which no digest matches in practice.
pub open spec fn kept_hash(h: Seq<u8>) -> Seq<u8> {
    if h.len() == HASH_LEN {
        h
    } else {
        Seq::new(HASH_LEN as nat, |i: int| 0u8)
    }
}

/// The cache that restoring `d` gives: each entry in turn, a later one for
/// the same endpoint winning.
pub open spec fn restored(d: Seq<(Seq<char>, MetaView)>) -> Map<Seq<char>, MetaView>
    decreases d.len(),
{
    if d.len() == 0 {
        Map::empty()
    } else {
        restored(d.drop_last()).insert(
            d.last().0,
            MetaView { hash: kept_hash(d.last().1.hash), ..d.last().1 },
        )
    }
}

fn zero_hash() -> (r: Vec<u8>)
    ensures
        r@ == Seq::new(HASH_LEN as nat, |i: int| 0u8),
{
    let mut r: Vec<u8> = Vec::new();
    let mut i: usize = 0;
    while i < HASH_LEN
        invariant
            i <= HASH_LEN,
            r@ == Seq::new(i as nat, |j: int| 0u8),
        decreases HASH_LEN - i,
    {
        r.push(0u8);
        i = i + 1;
        assert(r@ =~= Seq::new(i as nat, |j: int| 0u8));
    }
    r
}

impl MetaCache {
    /// The entries in persisted form.
    pub fn stable_save(&self) -> (r: Vec<StableMeta>)
        ensures
            stable_view(r@) == saved_view(self.entries.entries@),
    {
        let mut out: Vec<StableMeta> = Vec::new();
        let mut i: usize = 0;
        let ghost s = self.entries.entries@;
        while i < self.entries.entries.len()
            invariant
                s == self.entries.entries@,
                i <= s.len(),
                out@.len() == i,
                stable_view(out@) == saved_view(s.subrange(0, i as int)),
            decreases s.len() - i,
        {
            let (k, m) = (&self.entries.entries[i].0, &self.entries.entries[i].1);
            let ghost prev = out@;
            out.push(
                StableMeta {
                    cid: k.clone(),
                    symbol: m.symbol.clone(),
                    decimals: m.decimals,
                    fee: m.fee,
                    hash: copy_bytes(&m.hash),
                    expires: m.expires,
                },
            );
            proof {
                assert forall|j: int| 0 <= j < i + 1 implies #[trigger] stable_view(out@)[j]
                    == saved_view(s.subrange(0, i + 1))[j] by {
                    if j < i {
                        assert(out@[j] == prev[j]);
                        assert(stable_view(prev)[j] == saved_view(s.subrange(0, i as int))[j]);
                    }
                }
            }
            i = i + 1;
            assert(stable_view(out@) =~= saved_view(s.subrange(0, i as int)));
        }
        assert(s.subrange(0, s.len() as int) =~= s);
        out
    }

    /// Rebuilds the cache from persisted entries.
    pub fn stable_restore(data: Vec<StableMeta>) -> (r: MetaCache)
        ensures
            r.wf(),
            r@ == restored(stable_view(data@)),
    {
        let mut c = MetaCache::new();
        let mut i: usize = 0;
        while i < data.len()
            invariant
                i <= data@.len(),
                c.wf(),
                c@ == restored(stable_view(data@).subrange(0, i as int)),
            decreases data.len() - i,
        {
            let m = &data[i];
            let hash = if m.hash.len() == HASH_LEN {
                copy_bytes(&m.hash)
            } else {
                zero_hash()
            };
            let ghost before = c@;
            let meta = Meta {
                symbol: m.symbol.clone(),
                decimals: m.decimals,
                fee: m.fee,
                hash,
                expires: m.expires,
            };
            let ghost mv = meta@;
            c.entries.insert(m.cid.clone(), meta);
            proof {
                assert(stable_view(data@).subrange(0, i + 1).drop_last() =~= stable_view(
                    data@,
                ).subrange(0, i as int));
                assert(c@ =~= before.insert(data@[i as int].cid@, mv));
            }
            i = i + 1;
        }
        assert(stable_view(data@).subrange(0, data.len() as int) =~= stable_view(data@));
        c
    }
}

proof fn lemma_restore_saved(s: Seq<(String, Meta)>)
    requires
        keys_unique(s),
        forall|i: int| 0 <= i < s.len() ==> (#[trigger] s[i]).1.hash@.len() == HASH_LEN,
    ensures
        restored(saved_view(s)) == map_of(s).map_values(|m: Meta| m@),
    decreases s.len(),
{
    if s.len() > 0 {
        let t = s.drop_last();
        assert(saved_view(s).drop_last() =~= saved_view(t));
        lemma_restore_saved(t);
        assert(restored(saved_view(s)) =~= map_of(s).map_values(|m: Meta| m@));
    }
}

/// Stable round trip: restoring what `stable_save` wrote gives back the same
/// cache.
pub proof fn lemma_meta_round_trip(c: &MetaCache)
    requires
        c.wf(),
    ensures
        restored(saved_view(c.entries.entries@)) == c@,
{
    let s = c.entries.entries@;
    assert forall|i: int| 0 <= i < s.len() implies (#[trigger] s[i]).1.hash@.len() == HASH_LEN by {
        lemma_map_of_index(s, i);
        assert(c.entries@.contains_key(s[i].0@));
    }
    lemma_restore_saved(s);
}

/// A value of a metadata reply, as far as the cache reads it.
pub enum MetaValue {
    Text(String),
    Nat(u128),
    Other,
}

/// The last text under `key`, if any.
pub open spec fn last_text(items: Seq<(String, MetaValue)>, key: Seq<char>) -> Option<Seq<char>>
    decreases items.len(),
{
    if items.len() == 0 {
        None
    } else if items.last().0@ == key && items.last().1 is Text {
        Some(items.last().1->Text_0@)
    } else {
        last_text(items.drop_last(), key)
    }
}

/// The last number under `key`, if any.
pub open spec fn last_nat(items: Seq<(String, MetaValue)>, key: Seq<char>) -> Option<u128>
    decreases items.len(),
{
    if items.len() == 0 {
        None
    } else if items.last().0@ == key && items.last().1 is Nat {
        Some(items.last().1->Nat_0)
    } else {
        last_nat(items.drop_last(), key)
    }
}

/// A number read as a `u64`: zero where it does not fit.
pub open spec fn nat_as_u64(n: u128) -> u64 {
    if n <= u64::MAX {
        n as u64
    } else {
        0
    }
}

/// Symbol, decimals and fee that a metadata reply gives: the last value of
/// each of `icrc1:symbol`, `icrc1:decimals` (its low byte) and `icrc1:fee`,
/// and empty or zero where one is missing.
pub open spec fn meta_of(items: Seq<(String, MetaValue)>) -> (Seq<char>, u8, u64) {
    (
        match last_text(items, "icrc1:symbol"@) {
            Some(t) => t,
            None => Seq::empty(),
        },
        match last_nat(items, "icrc1:decimals"@) {
            Some(n) => (nat_as_u64(n) % 256) as u8,
            None => 0,
        },
        match last_nat(items, "icrc1:fee"@) {
            Some(n) => nat_as_u64(n),
            None => 0,
        },
    )
}

fn u64_of(n: u128) -> (r: u64)
    ensures
        r == nat_as_u64(n),
{
    if n <= u64::MAX as u128 {
        n as u64
    } else {
        0
    }
}

/// Reads symbol, decimals and fee out of a metadata reply.
pub fn parse_metadata(items: &Vec<(String, MetaValue)>) -> (r: TokenMeta)
    ensures
        (r.symbol@, r.decimals, r.fee) == meta_of(items@),
{
    let sym_key = String::from_str("icrc1:symbol");
    let dec_key = String::from_str("icrc1:decimals");
    let fee_key = String::from_str("icrc1:fee");
    let mut symbol = String::new();
    let mut decimals: u8 = 0;
    let mut fee: u64 = 0;
    let mut i: usize = 0;
    while i < items.len()
        invariant
            i <= items@.len(),
            sym_key@ == "icrc1:symbol"@,
            dec_key@ == "icrc1:decimals"@,
            fee_key@ == "icrc1:fee"@,
            symbol@ == match last_text(items@.subrange(0, i as int), sym_key@) {
                Some(t) => t,
                None => Seq::empty(),
            },
            decimals == match last_nat(items@.subrange(0, i as int), dec_key@) {
                Some(n) => (nat_as_u64(n) % 256) as u8,
                None => 0,
            },
            fee == match last_nat(items@.subrange(0, i as int), fee_key@) {
                Some(n) => nat_as_u64(n),
                None => 0,
            },
        decreases items.len() - i,
    {
        let (k, v) = (&items[i].0, &items[i].1);
        proof {
            assert(items@.subrange(0, i + 1).drop_last() =~= items@.subrange(0, i as int));
        }
        match v {
            MetaValue::Text(t) => {
                if *k == sym_key {
                    symbol = t.clone();
                }
            },
            MetaValue::Nat(n) => {
                if *k == dec_key {
                    decimals = (u64_of(*n) % 256) as u8;
                }
                if *k == fee_key {
                    fee = u64_of(*n);
                }
            },
            MetaValue::Other => {},
        }
        i = i + 1;
    }
    assert(items@.subrange(0, items.len() as int) =~= items@);
    TokenMeta { symbol, decimals, fee }
}

} // verus!
