use vstd::prelude::*;
use crate::text::{contains_text, texts};
use crate::time::DAY_NS;

verus! {

/// Items refreshed per scheduler tick.
pub const ITEMS_PER_TICK: usize = 3;

/// Bound on the queue.
pub const MAX_QUEUE_SIZE: usize = 128;

/// The endpoints queued from `s`: each the first time it occurs, until the
/// bound is reached.
pub open spec fn warm_ids(s: Seq<Seq<char>>) -> Seq<Seq<char>>
    decreases s.len(),
{
    if s.len() == 0 {
        Seq::empty()
    } else {
        let prev = warm_ids(s.drop_last());
        if prev.len() < MAX_QUEUE_SIZE && !prev.contains(s.last()) {
            prev.push(s.last())
        } else {
            prev
        }
    }
}

/// A rotating queue of endpoints whose metadata is kept warm, each with the
/// time it is next due.
pub struct WarmQueue {
    pub items: Vec<(String, u64)>,
}

impl WarmQueue {
    /// The queued endpoints, front first.
    pub open spec fn ids(&self) -> Seq<Seq<char>> {
        self.items@.map_values(|e: (String, u64)| e.0@)
    }

    /// Builds the queue from the ledger endpoints, then the adapter
    /// endpoints, without duplicates and at most `MAX_QUEUE_SIZE` long, every
    /// item due at `now`.
    pub fn init(ledgers: &Vec<String>, adapters: &Vec<String>, now: u64) -> (r: WarmQueue)
        ensures
            r.ids() == warm_ids(texts(ledgers@) + texts(adapters@)),
            forall|i: int| 0 <= i < r.items@.len() ==> (#[trigger] r.items@[i]).1 == now,
    {
        let ghost all = texts(ledgers@) + texts(adapters@);
        let mut q = WarmQueue { items: Vec::new() };
        let mut seen: Vec<String> = Vec::new();
        let mut i: usize = 0;
        assert(q.ids() =~= warm_ids(all.take(0)));
        while i < ledgers.len()
            invariant
                all == texts(ledgers@) + texts(adapters@),
                i <= ledgers@.len(),
                q.ids() == warm_ids(all.take(i as int)),
                texts(seen@) == q.ids(),
                forall|k: int| 0 <= k < q.items@.len() ==> (#[trigger] q.items@[k]).1 == now,
            decreases ledgers.len() - i,
        {
            proof {
                assert(all[i as int] == ledgers@[i as int]@);
                assert(all.take(i + 1).drop_last() =~= all.take(i as int));
            }
            q.offer(&mut seen, &ledgers[i], now);
            i = i + 1;
        }
        let mut j: usize = 0;
        while j < adapters.len()
            invariant
                all == texts(ledgers@) + texts(adapters@),
                j <= adapters@.len(),
                q.ids() == warm_ids(all.take(ledgers@.len() + j)),
                texts(seen@) == q.ids(),
                forall|k: int| 0 <= k < q.items@.len() ==> (#[trigger] q.items@[k]).1 == now,
            decreases adapters.len() - j,
        {
            proof {
                assert(all[ledgers@.len() + j] == adapters@[j as int]@);
                assert(all.take(ledgers@.len() + j + 1).drop_last() =~= all.take(
                    ledgers@.len() + j,
                ));
            }
            q.offer(&mut seen, &adapters[j], now);
            j = j + 1;
        }
        assert(all.take(all.len() as int) =~= all);
        q
    }

    fn offer(&mut self, seen: &mut Vec<String>, id: &String, now: u64)
        requires
            texts(old(seen)@) == old(self).ids(),
        ensures
            texts(final(seen)@) == final(self).ids(),
            final(self).ids() == if old(self).ids().len() < MAX_QUEUE_SIZE && !old(
                self,
            ).ids().contains(id@) {
                old(self).ids().push(id@)
            } else {
                old(self).ids()
            },
            forall|k: int|
                0 <= k < old(self).items@.len() ==> #[trigger] final(self).items@[k] == old(
                    self,
                ).items@[k],
            final(self).items@.len() > old(self).items@.len() ==> final(self).items@.last().1
                == now,
    {
        if self.items.len() < MAX_QUEUE_SIZE && !contains_text(seen, id) {
            self.items.push((id.clone(), now));
            seen.push(id.clone());
            proof {
                assert(self.ids() =~= old(self).ids().push(id@));
                assert(texts(seen@) =~= self.ids());
            }
        }
    }

    /// Takes the front item and puts it back at the tail. Where it is due at
    /// `now`, it is next due a day later and its endpoint is returned for a
    /// metadata refresh; otherwise it goes back unchanged.
    pub fn next_item(&mut self, now: u64) -> (r: Option<String>)
        ensures
            old(self).items@.len() == 0 ==> r is None && final(self).items@ == old(self).items@,
            old(self).items@.len() > 0 ==> {
                let front = old(self).items@[0];
                &&& final(self).items@.len() == old(self).items@.len()
                &&& final(self).items@.drop_last() == old(self).items@.skip(1)
                &&& final(self).items@.last().0@ == front.0@
                &&& if now >= front.1 {
                    r is Some && r->Some_0@ == front.0@ && final(self).items@.last().1 == (if now
                        + DAY_NS > u64::MAX {
                        u64::MAX
                    } else {
                        (now + DAY_NS) as u64
                    })
                } else {
                    r is None && final(self).items@.last().1 == front.1
                }
            },
    {
        if self.items.len() == 0 {
            return None;
        }
        let (id, next) = self.items.remove(0);
        if now >= next {
            let out = id.clone();
            self.items.push((id, now.saturating_add(DAY_NS)));
            proof {
                assert(self.items@.drop_last() =~= old(self).items@.skip(1));
            }
            Some(out)
        } else {
            self.items.push((id, next));
            proof {
                assert(self.items@.drop_last() =~= old(self).items@.skip(1));
            }
            None
        }
    }

    pub fn len(&self) -> (r: usize)
        ensures
            r == self.items@.len(),
    {
        self.items.len()
    }

    /// The queued endpoints, front first.
    pub fn dump(&self) -> (r: Vec<String>)
        ensures
            texts(r@) == self.ids(),
    {
        let mut out: Vec<String> = Vec::new();
        let mut i: usize = 0;
        while i < self.items.len()
            invariant
                i <= self.items@.len(),
                out@.len() == i,
                texts(out@) == self.ids().take(i as int),
            decreases self.items.len() - i,
        {
            let ghost prev = out@;
            out.push(self.items[i].0.clone());
            proof {
                assert forall|k: int| 0 <= k < i + 1 implies #[trigger] texts(out@)[k] == self.ids().take(
                    i + 1,
                )[k] by {
                    if k < i {
                        assert(out@[k] == prev[k]);
                        assert(texts(prev)[k] == self.ids().take(i as int)[k]);
                    }
                }
            }
            i = i + 1;
            assert(texts(out@) =~= self.ids().take(i as int));
        }
        assert(self.ids().take(self.items@.len() as int) =~= self.ids());
        out
    }
}

proof fn lemma_warm_ids_shape(s: Seq<Seq<char>>)
    ensures
        warm_ids(s).len() <= MAX_QUEUE_SIZE,
        warm_ids(s).no_duplicates(),
        forall|x: Seq<char>| warm_ids(s).contains(x) ==> s.contains(x),
    decreases s.len(),
{
    if s.len() > 0 {
        lemma_warm_ids_shape(s.drop_last());
        let prev = warm_ids(s.drop_last());
        assert forall|x: Seq<char>| warm_ids(s).contains(x) implies s.contains(x) by {
            if prev.contains(x) {
                assert(s.drop_last().contains(x));
                let j = choose|j: int| 0 <= j < s.drop_last().len() && s.drop_last()[j] == x;
                assert(s[j] == x);
            } else {
                assert(s[s.len() - 1] == x);
            }
        }
    }
}

/// Warm-up determinism: the queue is a function of the endpoint lists
/// alone, so building it twice from the same configuration gives the same
/// queue; it holds each endpoint once, only configured ones, and at most
/// `MAX_QUEUE_SIZE` of them.
pub proof fn lemma_warm_deterministic(
    ledgers: Seq<Seq<char>>,
    adapters: Seq<Seq<char>>,
    q1: Seq<Seq<char>>,
    q2: Seq<Seq<char>>,
)
    requires
        q1 == warm_ids(ledgers + adapters),
        q2 == warm_ids(ledgers + adapters),
    ensures
        q1 == q2,
        q1.len() <= MAX_QUEUE_SIZE,
        q1.no_duplicates(),
        forall|x: Seq<char>| q1.contains(x) ==> (ledgers + adapters).contains(x),
{
    lemma_warm_ids_shape(ledgers + adapters);
}

} // verus!
