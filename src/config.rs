use vstd::prelude::*;
use crate::principal::{check_principal, principal_valid};
use crate::store::KeyedStore;
use crate::text::{contains_text, ends_with, has_prefix, has_suffix, starts_with, texts};

verus! {

/// The text of an optional string.
pub open spec fn opt_text(o: Option<String>) -> Option<Seq<char>> {
    match o {
        Some(s) => Some(s@),
        None => None,
    }
}

/// The value of the last pair named `n`, as in a table where a later line
/// wins.
pub open spec fn assoc(s: Seq<(String, String)>, n: Seq<char>) -> Option<Seq<char>>
    decreases s.len(),
{
    if s.len() == 0 {
        None
    } else if s.last().0@ == n {
        Some(s.last().1@)
    } else {
        assoc(s.drop_last(), n)
    }
}

proof fn lemma_assoc_some<'a>(s: Seq<(String, String)>, n: Seq<char>)
    requires
        assoc(s, n) is Some,
    ensures
        exists|j: int| 0 <= j < s.len() && #[trigger] s[j].0@ == n,
    decreases s.len(),
{
    if s.last().0@ != n {
        lemma_assoc_some(s.drop_last(), n);
        let j = choose|j: int| 0 <= j < s.drop_last().len() && #[trigger] s.drop_last()[j].0@ == n;
        assert(s[j].0@ == n);
    } else {
        assert(s[s.len() - 1].0@ == n);
    }
}

/// Looks up the last pair named `n`.
pub fn assoc_get(v: &Vec<(String, String)>, n: &String) -> (r: Option<String>)
    ensures
        opt_text(r) == assoc(v@, n@),
{
    let mut found: Option<String> = None;
    let mut i: usize = 0;
    while i < v.len()
        invariant
            i <= v@.len(),
            opt_text(found) == assoc(v@.subrange(0, i as int), n@),
        decreases v.len() - i,
    {
        if v[i].0 == *n {
            found = Some(v[i].1.clone());
        }
        proof {
            assert(v@.subrange(0, i + 1).drop_last() =~= v@.subrange(0, i as int));
        }
        i = i + 1;
    }
    assert(v@.subrange(0, v.len() as int) =~= v@);
    found
}

/// Names whose endpoint the environment may set even where the file has no
/// line for them.
pub open spec fn well_known(n: Seq<char>) -> bool {
    n == "ICPSWAP_FACTORY"@ || n == "SONIC_ROUTER"@ || n == "INFINITY_VAULT"@ || n
        == "SNS_DISTRIBUTOR"@
}

/// The valid principal of `v`, if it is one.
pub open spec fn valid_text(v: Option<Seq<char>>) -> Option<Seq<char>> {
    match v {
        Some(t) => if principal_valid(t) {
            Some(t)
        } else {
            None
        },
        None => None,
    }
}

/// The file's entry for `n`: its endpoint, when it parses, and its expected
/// controller, when one is configured and parses.
pub open spec fn file_entry(
    dex: Seq<(String, String)>,
    ctrls: Seq<(String, String)>,
    n: Seq<char>,
) -> Option<(Seq<char>, Option<Seq<char>>)> {
    match valid_text(assoc(dex, n)) {
        Some(id) => Some((id, valid_text(assoc(ctrls, n)))),
        None => None,
    }
}

/// The environment's endpoint for `n`, where it may override and parses.
pub open spec fn override_of(
    dex: Seq<(String, String)>,
    env: Seq<(String, String)>,
    n: Seq<char>,
) -> Option<Seq<char>> {
    if assoc(dex, n) is Some || well_known(n) {
        valid_text(assoc(env, n))
    } else {
        None
    }
}

/// The configured endpoint and expected controller of `n` once the
/// environment is laid over the file: an override replaces the endpoint and
/// keeps the file's controller.
pub open spec fn configured(
    dex: Seq<(String, String)>,
    ctrls: Seq<(String, String)>,
    env: Seq<(String, String)>,
    n: Seq<char>,
) -> Option<(Seq<char>, Option<Seq<char>>)> {
    match override_of(dex, env, n) {
        Some(p) => Some(
            (
                p,
                match file_entry(dex, ctrls, n) {
                    Some(e) => e.1,
                    None => None,
                },
            ),
        ),
        None => file_entry(dex, ctrls, n),
    }
}

/// One named endpoint of the configuration.
pub struct DexEntry {
    pub id: String,
    pub controller: Option<String>,
    pub enabled: bool,
}

/// Whether `m` holds, enabled, exactly the configured entries.
pub open spec fn matches_config(
    m: Map<Seq<char>, DexEntry>,
    dex: Seq<(String, String)>,
    ctrls: Seq<(String, String)>,
    env: Seq<(String, String)>,
) -> bool {
    forall|n: Seq<char>| #[trigger]
        m.contains_key(n) <==> configured(dex, ctrls, env, n) is Some && (m.contains_key(n)
            ==> configured(dex, ctrls, env, n) == Some((m[n].id@, opt_text(m[n].controller)))
            && m[n].enabled)
}

fn valid_opt(v: Option<String>) -> (r: Option<String>)
    ensures
        opt_text(r) == valid_text(opt_text(v)),
{
    match v {
        Some(t) => if check_principal(&t) {
            Some(t)
        } else {
            None
        },
        None => None,
    }
}

fn is_well_known(n: &String) -> (r: bool)
    ensures
        r == well_known(n@),
{
    let a = String::from_str("ICPSWAP_FACTORY");
    let b = String::from_str("SONIC_ROUTER");
    let c = String::from_str("INFINITY_VAULT");
    let d = String::from_str("SNS_DISTRIBUTOR");
    *n == a || *n == b || *n == c || *n == d
}

fn configured_entry(
    dex: &Vec<(String, String)>,
    ctrls: &Vec<(String, String)>,
    env: &Vec<(String, String)>,
    n: &String,
) -> (r: Option<DexEntry>)
    ensures
        match r {
            Some(e) => configured(dex@, ctrls@, env@, n@) == Some((e.id@, opt_text(e.controller)))
                && e.enabled,
            None => configured(dex@, ctrls@, env@, n@) is None,
        },
{
    let in_file = assoc_get(dex, n);
    let file_id = valid_opt(assoc_get(dex, n));
    let file_ctrl = match file_id {
        Some(_) => valid_opt(assoc_get(ctrls, n)),
        None => None,
    };
    let over = if in_file.is_some() || is_well_known(n) {
        valid_opt(assoc_get(env, n))
    } else {
        None
    };
    match over {
        Some(p) => Some(DexEntry { id: p, controller: file_ctrl, enabled: true }),
        None => match file_id {
            Some(id) => Some(DexEntry { id, controller: file_ctrl, enabled: true }),
            None => None,
        },
    }
}

/// The endpoint table: named endpoints, each with an optional expected
/// controller and a flag that the sanity probes clear.
pub struct DexConfig {
    pub entries: KeyedStore<DexEntry>,
}

impl View for DexConfig {
    type V = Map<Seq<char>, DexEntry>;

    open spec fn view(&self) -> Map<Seq<char>, DexEntry> {
        self.entries@
    }
}

impl DexConfig {
    pub open spec fn wf(&self) -> bool {
        self.entries.wf()
    }

    /// An empty table, as a missing or malformed file gives.
    pub fn empty() -> (r: DexConfig)
        ensures
            r.wf(),
            r@ == Map::<Seq<char>, DexEntry>::empty(),
    {
        DexConfig { entries: KeyedStore::new() }
    }

    fn add_candidate(
        &mut self,
        dex: &Vec<(String, String)>,
        ctrls: &Vec<(String, String)>,
        env: &Vec<(String, String)>,
        n: String,
    )
        requires
            old(self).wf(),
            forall|k: Seq<char>| #[trigger]
                old(self)@.contains_key(k) ==> configured(dex@, ctrls@, env@, k) == Some(
                    (old(self)@[k].id@, opt_text(old(self)@[k].controller)),
                ) && old(self)@[k].enabled,
        ensures
            final(self).wf(),
            forall|k: Seq<char>| #[trigger]
                final(self)@.contains_key(k) ==> configured(dex@, ctrls@, env@, k) == Some(
                    (final(self)@[k].id@, opt_text(final(self)@[k].controller)),
                ) && final(self)@[k].enabled,
            forall|k: Seq<char>| old(self)@.contains_key(k) ==> #[trigger] final(self)@.contains_key(k),
            configured(dex@, ctrls@, env@, n@) is Some ==> final(self)@.contains_key(n@),
    {
        let ghost nv = n@;
        match configured_entry(dex, ctrls, env, &n) {
            Some(e) => {
                self.entries.insert(n, e);
                proof {
                    assert forall|k: Seq<char>| #[trigger]
                        final(self)@.contains_key(k) implies configured(dex@, ctrls@, env@, k)
                        == Some((final(self)@[k].id@, opt_text(final(self)@[k].controller)))
                        && final(self)@[k].enabled by {
                        if k != nv {
                            assert(old(self)@.contains_key(k));
                        }
                    }
                }
            },
            None => {},
        }
    }

    /// Builds the table from the file's `[dex]` and `[dex_controllers]`
    /// lines and the environment's values. An endpoint or controller that is
    /// not a principal is left out; an environment value replaces the
    /// endpoint of a name in the file or of a well-known name, keeping the
    /// file's controller. Every entry starts enabled.
    pub fn build(
        dex: &Vec<(String, String)>,
        ctrls: &Vec<(String, String)>,
        env: &Vec<(String, String)>,
    ) -> (r: DexConfig)
        ensures
            r.wf(),
            matches_config(r@, dex@, ctrls@, env@),
    {
        let mut cfg = DexConfig::empty();
        let mut i: usize = 0;
        while i < dex.len()
            invariant
                cfg.wf(),
                i <= dex@.len(),
                forall|k: Seq<char>| #[trigger]
                    cfg@.contains_key(k) ==> configured(dex@, ctrls@, env@, k) == Some(
                        (cfg@[k].id@, opt_text(cfg@[k].controller)),
                    ) && cfg@[k].enabled,
                forall|j: int|
                    0 <= j < i && configured(dex@, ctrls@, env@, #[trigger] dex@[j].0@) is Some
                        ==> cfg@.contains_key(dex@[j].0@),
            decreases dex.len() - i,
        {
            let name = dex[i].0.clone();
            cfg.add_candidate(dex, ctrls, env, name);
            i = i + 1;
        }
        let ghost mid = cfg@;
        cfg.add_candidate(dex, ctrls, env, String::from_str("ICPSWAP_FACTORY"));
        cfg.add_candidate(dex, ctrls, env, String::from_str("SONIC_ROUTER"));
        cfg.add_candidate(dex, ctrls, env, String::from_str("INFINITY_VAULT"));
        cfg.add_candidate(dex, ctrls, env, String::from_str("SNS_DISTRIBUTOR"));
        proof {
            assert forall|n: Seq<char>| configured(dex@, ctrls@, env@, n) is Some implies #[trigger]
                cfg@.contains_key(n) by {
                if assoc(dex@, n) is Some {
                    lemma_assoc_some(dex@, n);
                    let j = choose|j: int| 0 <= j < dex@.len() && #[trigger] dex@[j].0@ == n;
                    assert(mid.contains_key(dex@[j].0@));
                }
            }
        }
        cfg
    }

    /// Applies the outcome of the sanity probes to `name`: an enabled entry
    /// is disabled where the metadata probe failed, or where a controller is
    /// expected and the controllers reported (`None` where that call failed)
    /// do not hold it.
    pub fn apply_probe(
        &mut self,
        name: &String,
        metadata_ok: bool,
        controllers: &Option<Vec<String>>,
    )
        requires
            old(self).wf(),
        ensures
            final(self).wf(),
            old(self)@.contains_key(name@) && !probe_passes(
                old(self)@[name@],
                metadata_ok,
                *controllers,
            ) ==> final(self)@ == old(self)@.insert(
                name@,
                DexEntry { enabled: false, ..old(self)@[name@] },
            ),
            !(old(self)@.contains_key(name@) && !probe_passes(
                old(self)@[name@],
                metadata_ok,
                *controllers,
            )) ==> final(self)@ == old(self)@,
    {
        match self.entries.take(name) {
            Some(e) => {
                let keep = metadata_ok && match &e.controller {
                    None => true,
                    Some(c) => match controllers {
                        Some(list) => contains_text(list, c),
                        None => false,
                    },
                };
                let disable = e.enabled && !keep;
                let DexEntry { id, controller, enabled } = e;
                let next = DexEntry { id, controller, enabled: if disable { false } else { enabled } };
                self.entries.insert(name.clone(), next);
                proof {
                    if !disable {
                        assert(final(self)@ =~= old(self)@);
                    } else {
                        assert(final(self)@ =~= old(self)@.insert(
                            name@,
                            DexEntry { enabled: false, ..old(self)@[name@] },
                        ));
                    }
                }
            },
            None => {},
        }
    }
}

/// Whether an entry stays enabled after its probes.
pub open spec fn probe_passes(e: DexEntry, metadata_ok: bool, controllers: Option<Vec<String>>) -> bool {
    !e.enabled || (metadata_ok && match e.controller {
        None => true,
        Some(c) => match controllers {
            Some(list) => texts(list@).contains(c@),
            None => false,
        },
    })
}

/// What `resolve` answers for `n`: the endpoint of an enabled entry.
pub open spec fn resolved(m: Map<Seq<char>, DexEntry>, n: Seq<char>) -> Option<Seq<char>> {
    if m.contains_key(n) && m[n].enabled {
        Some(m[n].id@)
    } else {
        None
    }
}

/// Resolves names to endpoints, memoising answers until the table changes.
pub struct Resolver {
    pub config: DexConfig,
    pub cache: KeyedStore<Option<String>>,
}

impl Resolver {
    /// The table is well formed and every memoised answer is current.
    pub open spec fn wf(&self) -> bool {
        &&& self.config.wf()
        &&& self.cache.wf()
        &&& forall|n: Seq<char>| #[trigger]
            self.cache@.contains_key(n) ==> opt_text(self.cache@[n]) == resolved(self.config@, n)
    }

    pub fn new(config: DexConfig) -> (r: Resolver)
        requires
            config.wf(),
        ensures
            r.wf(),
            r.config@ == config@,
            r.cache@.dom().len() == 0,
    {
        let r = Resolver { config, cache: KeyedStore::new() };
        proof {
            assert(r.cache@.dom() =~= Set::<Seq<char>>::empty());
        }
        r
    }

    /// Replaces the table, as a reload of the file does, and forgets every
    /// memoised answer.
    pub fn reload(&mut self, config: DexConfig)
        requires
            old(self).wf(),
            config.wf(),
        ensures
            final(self).wf(),
            final(self).config@ == config@,
            final(self).cache@.dom().len() == 0,
    {
        self.config = config;
        self.cache = KeyedStore::new();
        proof {
            assert(self.cache@.dom() =~= Set::<Seq<char>>::empty());
        }
    }

    /// Records the outcome of the sanity probes of `name`, and forgets every
    /// memoised answer.
    pub fn probe(&mut self, name: &String, metadata_ok: bool, controllers: &Option<Vec<String>>)
        requires
            old(self).wf(),
        ensures
            final(self).wf(),
            old(self).config@.contains_key(name@) && !probe_passes(
                old(self).config@[name@],
                metadata_ok,
                *controllers,
            ) ==> final(self).config@ == old(self).config@.insert(
                name@,
                DexEntry { enabled: false, ..old(self).config@[name@] },
            ),
            !(old(self).config@.contains_key(name@) && !probe_passes(
                old(self).config@[name@],
                metadata_ok,
                *controllers,
            )) ==> final(self).config@ == old(self).config@,
    {
        self.config.apply_probe(name, metadata_ok, controllers);
        self.cache = KeyedStore::new();
    }

    /// The endpoint of `name`: `None` where it is unknown or disabled.
    pub fn resolve(&mut self, name: &String) -> (r: Option<String>)
        requires
            old(self).wf(),
        ensures
            final(self).wf(),
            final(self).config@ == old(self).config@,
            opt_text(r) == resolved(old(self).config@, name@),
    {
        match self.cache.get(name) {
            Some(v) => {
                return v.clone();
            },
            None => {},
        }
        let v = match self.config.entries.get(name) {
            Some(e) => if e.enabled {
                Some(e.id.clone())
            } else {
                None
            },
            None => None,
        };
        let stored = v.clone();
        self.cache.insert(name.clone(), stored);
        v
    }
}

/// The style of adapter that a configured name selects.
#[derive(Clone, Copy, Debug, PartialEq, Eq, Structural)]
pub enum AdapterKind {
    Factory,
    Router,
    Vault,
    Distributor,
}

/// The adapter style of a name: `*_FACTORY`, `*_ROUTER`, `*_VAULT`, then
/// `SNS_*`; other names select none.
pub open spec fn kind_of(n: Seq<char>) -> Option<AdapterKind> {
    if has_suffix(n, "_FACTORY"@) {
        Some(AdapterKind::Factory)
    } else if has_suffix(n, "_ROUTER"@) {
        Some(AdapterKind::Router)
    } else if has_suffix(n, "_VAULT"@) {
        Some(AdapterKind::Vault)
    } else if has_prefix(n, "SNS_"@) {
        Some(AdapterKind::Distributor)
    } else {
        None
    }
}

/// Chooses the adapter style for a configured name.
pub fn adapter_kind(name: &str) -> (r: Option<AdapterKind>)
    ensures
        r == kind_of(name@),
{
    if ends_with(name, "_FACTORY") {
        Some(AdapterKind::Factory)
    } else if ends_with(name, "_ROUTER") {
        Some(AdapterKind::Router)
    } else if ends_with(name, "_VAULT") {
        Some(AdapterKind::Vault)
    } else if starts_with(name, "SNS_") {
        Some(AdapterKind::Distributor)
    } else {
        None
    }
}

/// One adapter of the registry: its configured name, style and endpoint.
pub struct AdapterEntry {
    pub name: String,
    pub kind: AdapterKind,
    pub endpoint: String,
}

/// The registry that a table's entries give, in table order: each enabled
/// entry whose name selects a style.
pub open spec fn registry_of(s: Seq<(String, DexEntry)>) -> Seq<(Seq<char>, AdapterKind, Seq<char>)>
    decreases s.len(),
{
    if s.len() == 0 {
        Seq::empty()
    } else {
        let prev = registry_of(s.drop_last());
        let n = s.last().0;
        let e = s.last().1;
        if e.enabled && kind_of(n@) is Some {
            prev.push((n@, kind_of(n@)->Some_0, e.id@))
        } else {
            prev
        }
    }
}

/// The view of registry rows.
pub open spec fn registry_view(v: Seq<AdapterEntry>) -> Seq<(Seq<char>, AdapterKind, Seq<char>)> {
    v.map_values(|a: AdapterEntry| (a.name@, a.kind, a.endpoint@))
}

/// The endpoints of the enabled entries, in table order.
pub open spec fn enabled_ids_of(s: Seq<(String, DexEntry)>) -> Seq<Seq<char>>
    decreases s.len(),
{
    if s.len() == 0 {
        Seq::empty()
    } else if s.last().1.enabled {
        enabled_ids_of(s.drop_last()).push(s.last().1.id@)
    } else {
        enabled_ids_of(s.drop_last())
    }
}

impl DexConfig {
    /// Rebuilds the adapter registry from the table.
    pub fn registry(&self) -> (r: Vec<AdapterEntry>)
        ensures
            registry_view(r@) == registry_of(self.entries.entries@),
    {
        let mut out: Vec<AdapterEntry> = Vec::new();
        let mut i: usize = 0;
        let ghost s = self.entries.entries@;
        while i < self.entries.entries.len()
            invariant
                s == self.entries.entries@,
                i <= s.len(),
                registry_view(out@) == registry_of(s.subrange(0, i as int)),
            decreases s.len() - i,
        {
            let name = &self.entries.entries[i].0;
            let e = &self.entries.entries[i].1;
            proof {
                assert(s.subrange(0, i + 1).drop_last() =~= s.subrange(0, i as int));
            }
            if e.enabled {
                match adapter_kind(name.as_str()) {
                    Some(kind) => {
                        out.push(AdapterEntry { name: name.clone(), kind, endpoint: e.id.clone() });
                        proof {
                            assert(registry_view(out@) =~= registry_of(s.subrange(0, i + 1)));
                        }
                    },
                    None => {},
                }
            }
            i = i + 1;
        }
        assert(s.subrange(0, s.len() as int) =~= s);
        out
    }

    /// The endpoints of the enabled entries, in table order.
    pub fn enabled_ids(&self) -> (r: Vec<String>)
        ensures
            texts(r@) == enabled_ids_of(self.entries.entries@),
    {
        let mut out: Vec<String> = Vec::new();
        let mut i: usize = 0;
        let ghost s = self.entries.entries@;
        while i < self.entries.entries.len()
            invariant
                s == self.entries.entries@,
                i <= s.len(),
                texts(out@) == enabled_ids_of(s.subrange(0, i as int)),
            decreases s.len() - i,
        {
            let e = &self.entries.entries[i].1;
            proof {
                assert(s.subrange(0, i + 1).drop_last() =~= s.subrange(0, i as int));
            }
            if e.enabled {
                out.push(e.id.clone());
                proof {
                    assert(texts(out@) =~= enabled_ids_of(s.subrange(0, i + 1)));
                }
            }
            i = i + 1;
        }
        assert(s.subrange(0, s.len() as int) =~= s);
        out
    }
}

} // verus!
