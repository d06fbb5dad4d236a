use vstd::prelude::*;
use crate::principal::{check_principal, principal_valid};
use crate::store::{map_of, KeyedStore};
use crate::text::texts;

verus! {

/// A user's filters: the ledgers and the adapters to include. An absent
/// filter means no filtering.
pub struct UserSettings {
    pub ledgers: Option<Vec<String>>,
    pub dexes: Option<Vec<String>>,
}

pub struct SettingsView {
    pub ledgers: Option<Seq<Seq<char>>>,
    pub dexes: Option<Seq<Seq<char>>>,
}

/// The texts of an optional list.
pub open spec fn opt_texts(o: Option<Vec<String>>) -> Option<Seq<Seq<char>>> {
    match o {
        Some(v) => Some(texts(v@)),
        None => None,
    }
}

impl View for UserSettings {
    type V = SettingsView;

    open spec fn view(&self) -> SettingsView {
        SettingsView { ledgers: opt_texts(self.ledgers), dexes: opt_texts(self.dexes) }
    }
}

/// Copies a list of strings.
pub fn copy_texts(v: &Vec<String>) -> (r: Vec<String>)
    ensures
        texts(r@) == texts(v@),
{
    let mut out: Vec<String> = Vec::new();
    let mut i: usize = 0;
    while i < v.len()
        invariant
            i <= v@.len(),
            out@.len() == i,
            forall|j: int| 0 <= j < i ==> #[trigger] out@[j]@ == v@[j]@,
        decreases v.len() - i,
    {
        out.push(v[i].clone());
        i = i + 1;
    }
    assert(texts(out@) =~= texts(v@));
    out
}

fn copy_opt_texts(o: &Option<Vec<String>>) -> (r: Option<Vec<String>>)
    ensures
        opt_texts(r) == opt_texts(*o),
{
    match o {
        Some(v) => Some(copy_texts(v)),
        None => None,
    }
}

impl UserSettings {
    /// No filters.
    pub fn none() -> (r: UserSettings)
        ensures
            r.ledgers is None && r.dexes is None,
    {
        UserSettings { ledgers: None, dexes: None }
    }

    pub fn duplicate(&self) -> (r: UserSettings)
        ensures
            r@ == self@,
    {
        UserSettings { ledgers: copy_opt_texts(&self.ledgers), dexes: copy_opt_texts(&self.dexes) }
    }

    /// The ledger filter in force: the listed ledgers that are principals,
    /// or none where that leaves nothing.
    pub fn ledger_filter(&self) -> (r: Option<Vec<String>>)
        ensures
            match self.ledgers {
                None => r is None,
                Some(v) => {
                    let kept = texts(v@).filter(|t: Seq<char>| principal_valid(t));
                    if kept.len() == 0 {
                        r is None
                    } else {
                        r is Some && texts(r->Some_0@) == kept
                    }
                },
            },
    {
        match &self.ledgers {
            None => None,
            Some(v) => {
                let mut out: Vec<String> = Vec::new();
                let mut i: usize = 0;
                while i < v.len()
                    invariant
                        i <= v@.len(),
                        texts(out@) == texts(v@.take(i as int)).filter(
                            |t: Seq<char>| principal_valid(t),
                        ),
                    decreases v.len() - i,
                {
                    proof {
                        assert(texts(v@.take(i + 1)).drop_last() =~= texts(v@.take(i as int)));
                        reveal(Seq::filter);
                    }
                    if check_principal(&v[i]) {
                        out.push(v[i].clone());
                        proof {
                            assert(texts(out@) =~= texts(out@).drop_last().push(v@[i as int]@));
                        }
                    }
                    i = i + 1;
                }
                proof {
                    assert(v@.take(v@.len() as int) =~= v@);
                }
                if out.len() == 0 {
                    None
                } else {
                    Some(out)
                }
            },
        }
    }

    /// The adapter filter in force: none where the list is absent or empty.
    pub fn dex_filter(&self) -> (r: Option<Vec<String>>)
        ensures
            match self.dexes {
                None => r is None,
                Some(v) => if v@.len() == 0 {
                    r is None
                } else {
                    r is Some && texts(r->Some_0@) == texts(v@)
                },
            },
    {
        match &self.dexes {
            None => None,
            Some(v) => if v.len() == 0 {
                None
            } else {
                Some(copy_texts(v))
            },
        }
    }
}

/// Why a settings change was refused.
#[derive(Clone, Copy, Debug, PartialEq, Eq, Structural)]
pub enum SettingsError {
    /// Only the user may change their own settings.
    Unauthorized,
}

/// Per-user settings: created on first write, replaced on write, deleted on
/// removal.
pub struct SettingsStore {
    pub entries: KeyedStore<UserSettings>,
}

impl View for SettingsStore {
    type V = Map<Seq<char>, SettingsView>;

    open spec fn view(&self) -> Map<Seq<char>, SettingsView> {
        self.entries@.map_values(|s: UserSettings| s@)
    }
}

/// One stored entry in persisted form.
pub struct StableEntry {
    pub principal: String,
    pub settings: UserSettings,
}

/// The persisted form of store entries, in order.
pub open spec fn saved_settings(s: Seq<(String, UserSettings)>) -> Seq<(Seq<char>, SettingsView)> {
    s.map_values(|e: (String, UserSettings)| (e.0@, e.1@))
}

/// The view of persisted entries.
pub open spec fn stable_settings(d: Seq<StableEntry>) -> Seq<(Seq<char>, SettingsView)> {
    d.map_values(|e: StableEntry| (e.principal@, e.settings@))
}

/// The store that restoring `d` gives, a later entry for a user winning.
pub open spec fn restored_settings(d: Seq<(Seq<char>, SettingsView)>) -> Map<Seq<char>, SettingsView>
    decreases d.len(),
{
    if d.len() == 0 {
        Map::empty()
    } else {
        restored_settings(d.drop_last()).insert(d.last().0, d.last().1)
    }
}

impl SettingsStore {
    pub open spec fn wf(&self) -> bool {
        self.entries.wf()
    }

    pub fn new() -> (r: SettingsStore)
        ensures
            r.wf(),
            r@ == Map::<Seq<char>, SettingsView>::empty(),
    {
        let r = SettingsStore { entries: KeyedStore::new() };
        assert(r@ =~= Map::<Seq<char>, SettingsView>::empty());
        r
    }

    pub fn get(&self, user: &String) -> (r: Option<UserSettings>)
        requires
            self.wf(),
        ensures
            match r {
                Some(s) => self@.contains_key(user@) && s@ == self@[user@],
                None => !self@.contains_key(user@),
            },
    {
        match self.entries.get(user) {
            Some(s) => Some(s.duplicate()),
            None => None,
        }
    }

    pub fn update(&mut self, user: &String, settings: UserSettings)
        requires
            old(self).wf(),
        ensures
            final(self).wf(),
            final(self)@ == old(self)@.insert(user@, settings@),
    {
        let ghost v = settings@;
        self.entries.insert(user.clone(), settings);
        assert(self@ =~= old(self)@.insert(user@, v));
    }

    /// Replaces `user`'s settings where `caller` is that user.
    pub fn update_as(&mut self, caller: &String, user: &String, settings: UserSettings) -> (r:
        Result<(), SettingsError>)
        requires
            old(self).wf(),
        ensures
            final(self).wf(),
            caller@ == user@ ==> r is Ok && final(self)@ == old(self)@.insert(user@, settings@),
            caller@ != user@ ==> r == Err::<(), SettingsError>(SettingsError::Unauthorized)
                && final(self)@ == old(self)@,
    {
        if *caller != *user {
            return Err(SettingsError::Unauthorized);
        }
        self.update(user, settings);
        Ok(())
    }

    pub fn remove(&mut self, user: &String)
        requires
            old(self).wf(),
        ensures
            final(self).wf(),
            final(self)@ == old(self)@.remove(user@),
    {
        self.entries.remove(user);
        assert(self@ =~= old(self)@.remove(user@));
    }

    /// The entries in persisted form.
    pub fn stable_save(&self) -> (r: Vec<StableEntry>)
        ensures
            stable_settings(r@) == saved_settings(self.entries.entries@),
    {
        let mut out: Vec<StableEntry> = Vec::new();
        let mut i: usize = 0;
        let ghost s = self.entries.entries@;
        while i < self.entries.entries.len()
            invariant
                s == self.entries.entries@,
                i <= s.len(),
                out@.len() == i,
                stable_settings(out@) == saved_settings(s.subrange(0, i as int)),
            decreases s.len() - i,
        {
            let ghost prev = out@;
            out.push(
                StableEntry {
                    principal: self.entries.entries[i].0.clone(),
                    settings: self.entries.entries[i].1.duplicate(),
                },
            );
            proof {
                assert forall|j: int| 0 <= j < i + 1 implies #[trigger] stable_settings(out@)[j]
                    == saved_settings(s.subrange(0, i + 1))[j] by {
                    if j < i {
                        assert(out@[j] == prev[j]);
                        assert(stable_settings(prev)[j] == saved_settings(s.subrange(0, i as int))[j]);
                    }
                }
            }
            i = i + 1;
            assert(stable_settings(out@) =~= saved_settings(s.subrange(0, i as int)));
        }
        assert(s.subrange(0, s.len() as int) =~= s);
        out
    }

    /// Rebuilds the store from persisted entries.
    pub fn stable_restore(data: Vec<StableEntry>) -> (r: SettingsStore)
        ensures
            r.wf(),
            r@ == restored_settings(stable_settings(data@)),
    {
        let mut st = SettingsStore::new();
        let mut i: usize = 0;
        while i < data.len()
            invariant
                i <= data@.len(),
                st.wf(),
                st@ == restored_settings(stable_settings(data@).subrange(0, i as int)),
            decreases data.len() - i,
        {
            proof {
                assert(stable_settings(data@).subrange(0, i + 1).drop_last() =~= stable_settings(
                    data@,
                ).subrange(0, i as int));
            }
            st.update(&data[i].principal, data[i].settings.duplicate());
            i = i + 1;
        }
        assert(stable_settings(data@).subrange(0, data.len() as int) =~= stable_settings(data@));
        st
    }
}

proof fn lemma_restore_saved_settings(s: Seq<(String, UserSettings)>)
    ensures
        restored_settings(saved_settings(s)) == map_of(s).map_values(|u: UserSettings| u@),
    decreases s.len(),
{
    if s.len() > 0 {
        assert(saved_settings(s).drop_last() =~= saved_settings(s.drop_last()));
        lemma_restore_saved_settings(s.drop_last());
        assert(restored_settings(saved_settings(s)) =~= map_of(s).map_values(
            |u: UserSettings| u@,
        ));
    }
}

/// Stable round trip: restoring what `stable_save` wrote gives back the same
/// settings for every user.
pub proof fn lemma_settings_round_trip(st: &SettingsStore)
    ensures
        restored_settings(saved_settings(st.entries.entries@)) == st@,
{
    lemma_restore_saved_settings(st.entries.entries@);
}

} // verus!
