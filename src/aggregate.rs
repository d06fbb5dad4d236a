use vstd::prelude::*;
use crate::amount::{amount_text, format_amount};
use crate::config::{registry_view, AdapterEntry};
use crate::error::FetchError;
use crate::holding::{append_holdings, holdings_view, Holding, HoldingView};
use crate::text::{contains_text, texts};

verus! {

/// Rows kept per user by default.
pub const DEFAULT_MAX_HOLDINGS: usize = 500;

/// Attempts made of each metadata or balance call.
pub const MAX_ATTEMPTS: u32 = 3;

/// Back-off before the second attempt; it doubles for each further one.
pub const FIRST_BACKOFF_MS: u64 = 100;

/// What follows a failed attempt numbered `attempt` (from zero): the delay
/// before the next one, or `None` once the attempts are used up.
pub open spec fn backoff_after(attempt: u32) -> Option<u64> {
    if attempt + 1 < MAX_ATTEMPTS {
        Some((FIRST_BACKOFF_MS * vstd::arithmetic::power2::pow2(attempt as nat)) as u64)
    } else {
        None
    }
}

/// Decides what follows a failed attempt of a retried call.
pub fn retry_after_failure(attempt: u32) -> (r: Option<u64>)
    ensures
        r == backoff_after(attempt),
{
    proof {
        vstd::arithmetic::power2::lemma2_to64();
    }
    if attempt == 0 {
        Some(FIRST_BACKOFF_MS)
    } else if attempt == 1 {
        Some(FIRST_BACKOFF_MS * 2)
    } else {
        None
    }
}

/// The row a ledger contributes: its balance under its symbol where both
/// calls succeeded; an error row otherwise, with the symbol where only the
/// balance call failed and `unknown` where the metadata call failed.
pub open spec fn ledger_row(meta: Option<(Seq<char>, u8)>, balance: Option<u128>) -> HoldingView {
    match meta {
        None => HoldingView {
            source: "ledger"@,
            token: "unknown"@,
            amount: "0"@,
            status: "error"@,
        },
        Some(m) => match balance {
            None => HoldingView { source: "ledger"@, token: m.0, amount: "0"@, status: "error"@ },
            Some(b) => HoldingView {
                source: "ledger"@,
                token: m.0,
                amount: amount_text(b as nat, m.1 as nat),
                status: "liquid"@,
            },
        },
    }
}

/// Builds the row of one ledger from the outcome of its metadata call
/// (symbol and decimals) and of its balance call.
pub fn ledger_holding(meta: Option<(String, u8)>, balance: Option<u128>) -> (r: Holding)
    ensures
        r@ == ledger_row(
            match meta {
                Some(m) => Some((m.0@, m.1)),
                None => None,
            },
            balance,
        ),
{
    proof {
        reveal_strlit("ledger");
        reveal_strlit("unknown");
        reveal_strlit("0");
        reveal_strlit("error");
        reveal_strlit("liquid");
    }
    match meta {
        None => Holding::new(
            String::from_str("ledger"),
            String::from_str("unknown"),
            String::from_str("0"),
            String::from_str("error"),
        ),
        Some((symbol, decimals)) => match balance {
            None => Holding::new(
                String::from_str("ledger"),
                symbol,
                String::from_str("0"),
                String::from_str("error"),
            ),
            Some(b) => Holding::new(
                String::from_str("ledger"),
                symbol,
                format_amount(b, decimals),
                String::from_str("liquid"),
            ),
        },
    }
}

/// Whether a filter admits `name`: an absent or empty filter admits all.
pub open spec fn admits(filter: Option<Seq<Seq<char>>>, name: Seq<char>) -> bool {
    match filter {
        None => true,
        Some(f) => f.len() == 0 || f.contains(name),
    }
}

/// The texts of an optional filter.
pub open spec fn filter_view(f: Option<Vec<String>>) -> Option<Seq<Seq<char>>> {
    match f {
        Some(v) => Some(texts(v@)),
        None => None,
    }
}

/// The adapters of the registry that the filter admits, in registry order.
pub open spec fn admitted(
    reg: Seq<(Seq<char>, crate::config::AdapterKind, Seq<char>)>,
    filter: Option<Seq<Seq<char>>>,
) -> Seq<(Seq<char>, crate::config::AdapterKind, Seq<char>)>
    decreases reg.len(),
{
    if reg.len() == 0 {
        Seq::empty()
    } else if admits(filter, reg.last().0) {
        admitted(reg.drop_last(), filter).push(reg.last())
    } else {
        admitted(reg.drop_last(), filter)
    }
}

/// Every adapter that the filter keeps is one that it admits.
pub proof fn lemma_admitted(
    reg: Seq<(Seq<char>, crate::config::AdapterKind, Seq<char>)>,
    filter: Option<Seq<Seq<char>>>,
)
    ensures
        forall|i: int|
            0 <= i < admitted(reg, filter).len() ==> admits(
                filter,
                #[trigger] admitted(reg, filter)[i].0,
            ),
    decreases reg.len(),
{
    if reg.len() > 0 {
        let prev = admitted(reg.drop_last(), filter);
        lemma_admitted(reg.drop_last(), filter);
        assert forall|i: int|
            0 <= i < admitted(reg, filter).len() implies admits(
            filter,
            #[trigger] admitted(reg, filter)[i].0,
        ) by {
            if i < prev.len() {
                assert(admitted(reg, filter)[i] == prev[i]);
            }
        }
    }
}

fn admits_name(filter: &Option<Vec<String>>, name: &String) -> (r: bool)
    ensures
        r == admits(filter_view(*filter), name@),
{
    match filter {
        None => true,
        Some(f) => f.len() == 0 || contains_text(f, name),
    }
}

/// The adapters to ask for positions: those of the registry that the
/// user's filter admits.
pub fn filter_adapters(registry: &Vec<AdapterEntry>, filter: &Option<Vec<String>>) -> (r: Vec<
    AdapterEntry,
>)
    ensures
        registry_view(r@) == admitted(registry_view(registry@), filter_view(*filter)),
{
    let mut out: Vec<AdapterEntry> = Vec::new();
    let mut i: usize = 0;
    while i < registry.len()
        invariant
            i <= registry@.len(),
            registry_view(out@) == admitted(
                registry_view(registry@.subrange(0, i as int)),
                filter_view(*filter),
            ),
        decreases registry.len() - i,
    {
        let a = &registry[i];
        proof {
            assert(registry_view(registry@.subrange(0, i + 1)).drop_last() =~= registry_view(
                registry@.subrange(0, i as int),
            ));
            assert(registry_view(registry@.subrange(0, i + 1)).last() == (
                a.name@,
                a.kind,
                a.endpoint@,
            ));
        }
        if admits_name(filter, &a.name) {
            out.push(AdapterEntry { name: a.name.clone(), kind: a.kind, endpoint: a.endpoint.clone() });
            proof {
                assert(registry_view(out@) =~= registry_view(out@).drop_last().push(
                    registry_view(out@).last(),
                ));
            }
        }
        i = i + 1;
    }
    assert(registry@.subrange(0, registry.len() as int) =~= registry@);
    out
}

/// The rows of the adapters' answers, in order, or the first failure.
pub open spec fn gathered(rs: Seq<Result<Vec<Holding>, FetchError>>) -> Option<Seq<HoldingView>>
    decreases rs.len(),
{
    if rs.len() == 0 {
        Some(Seq::empty())
    } else {
        match gathered(rs.drop_last()) {
            None => None,
            Some(prev) => match rs.last() {
                Ok(v) => Some(prev + holdings_view(v@)),
                Err(_) => None,
            },
        }
    }
}

proof fn lemma_gathered_none(rs: Seq<Result<Vec<Holding>, FetchError>>, j: int)
    requires
        0 <= j <= rs.len(),
        gathered(rs.subrange(0, j)) is None,
    ensures
        gathered(rs) is None,
    decreases rs.len() - j,
{
    if j < rs.len() {
        assert(rs.subrange(0, j + 1).drop_last() =~= rs.subrange(0, j));
        lemma_gathered_none(rs, j + 1);
    } else {
        assert(rs.subrange(0, j) =~= rs);
    }
}

/// Joins the answers of the adapters asked, in order. A failure of any one
/// fails the whole: the first failure is returned.
pub fn gather_dex(results: &Vec<Result<Vec<Holding>, FetchError>>) -> (r: Result<
    Vec<Holding>,
    FetchError,
>)
    ensures
        match r {
            Ok(v) => gathered(results@) == Some(holdings_view(v@)),
            Err(_) => gathered(results@) is None,
        },
{
    let mut out: Vec<Holding> = Vec::new();
    let mut i: usize = 0;
    assert(holdings_view(out@) =~= Seq::<HoldingView>::empty());
    while i < results.len()
        invariant
            i <= results@.len(),
            gathered(results@.subrange(0, i as int)) == Some(holdings_view(out@)),
        decreases results.len() - i,
    {
        proof {
            assert(results@.subrange(0, i + 1).drop_last() =~= results@.subrange(0, i as int));
        }
        match &results[i] {
            Ok(v) => {
                append_holdings(&mut out, v);
            },
            Err(e) => {
                proof {
                    lemma_gathered_none(results@, i + 1);
                }
                return Err(e.duplicate());
            },
        }
        i = i + 1;
    }
    assert(results@.subrange(0, results.len() as int) =~= results@);
    Ok(out)
}

/// The rows of one user: ledger rows, then neuron rows, then adapter rows,
/// cut to the first `max`.
pub open spec fn merged(
    ledger: Seq<HoldingView>,
    neuron: Seq<HoldingView>,
    dex: Seq<HoldingView>,
    max: usize,
) -> Seq<HoldingView> {
    let all = ledger + neuron + dex;
    if all.len() <= max {
        all
    } else {
        all.take(max as int)
    }
}

/// Merges the three fetches of one user in the fixed order ledger, neuron,
/// adapters, keeping at most `max` rows. A failed adapter fetch fails the
/// whole.
pub fn merge_holdings(
    ledger: &Vec<Holding>,
    neuron: &Vec<Holding>,
    dex: &Result<Vec<Holding>, FetchError>,
    max: usize,
) -> (r: Result<Vec<Holding>, FetchError>)
    ensures
        match dex {
            Err(_) => r is Err,
            Ok(d) => r is Ok && holdings_view(r->Ok_0@) == merged(
                holdings_view(ledger@),
                holdings_view(neuron@),
                holdings_view(d@),
                max,
            ),
        },
{
    match dex {
        Err(e) => Err(e.duplicate()),
        Ok(d) => {
            let mut out: Vec<Holding> = Vec::new();
            assert(holdings_view(out@) =~= Seq::<HoldingView>::empty());
            append_holdings(&mut out, ledger);
            append_holdings(&mut out, neuron);
            append_holdings(&mut out, d);
            let ghost all = out@;
            if out.len() > max {
                out.truncate(max);
                assert(holdings_view(out@) =~= holdings_view(all).take(max as int));
            }
            Ok(out)
        },
    }
}

/// The cap on rows holds: a merge never gives more than `max` rows.
pub proof fn lemma_truncation_cap(
    ledger: Seq<HoldingView>,
    neuron: Seq<HoldingView>,
    dex: Seq<HoldingView>,
    max: usize,
)
    ensures
        merged(ledger, neuron, dex, max).len() <= max,
{
}

/// Filter correctness: where each adapter's answer carries its own name as
/// source (as `pool_holdings` writes it) and only the adapters the filter
/// admits were asked, every joined row names an admitted adapter.
pub proof fn lemma_filter_correct(
    asked: Seq<(Seq<char>, crate::config::AdapterKind, Seq<char>)>,
    results: Seq<Result<Vec<Holding>, FetchError>>,
    filter: Option<Seq<Seq<char>>>,
)
    requires
        results.len() == asked.len(),
        forall|i: int| 0 <= i < asked.len() ==> admits(filter, #[trigger] asked[i].0),
        forall|i: int, j: int|
            0 <= i < results.len() && results[i] is Ok && 0 <= j < results[i]->Ok_0@.len()
                ==> #[trigger] results[i]->Ok_0@[j].source@ == asked[i].0,
        gathered(results) is Some,
    ensures
        forall|j: int|
            0 <= j < gathered(results)->Some_0.len() ==> admits(
                filter,
                #[trigger] gathered(results)->Some_0[j].source,
            ),
    decreases results.len(),
{
    if results.len() > 0 {
        let n = (results.len() - 1) as int;
        lemma_filter_correct(asked.drop_last(), results.drop_last(), filter);
        let prev = gathered(results.drop_last())->Some_0;
        let last = results.last()->Ok_0@;
        assert forall|j: int|
            0 <= j < gathered(results)->Some_0.len() implies admits(
            filter,
            #[trigger] gathered(results)->Some_0[j].source,
        ) by {
            if j >= prev.len() {
                assert(gathered(results)->Some_0[j] == holdings_view(last)[j - prev.len()]);
                assert(results[n]->Ok_0@[j - prev.len()].source@ == asked[n].0);
            } else {
                assert(gathered(results)->Some_0[j] == prev[j]);
            }
        }
    }
}

/// The ledger endpoints that a filter admits, in order.
pub open spec fn admitted_ids(ids: Seq<Seq<char>>, filter: Option<Seq<Seq<char>>>) -> Seq<Seq<char>>
    decreases ids.len(),
{
    if ids.len() == 0 {
        Seq::empty()
    } else if admits(filter, ids.last()) {
        admitted_ids(ids.drop_last(), filter).push(ids.last())
    } else {
        admitted_ids(ids.drop_last(), filter)
    }
}

/// The ledgers to ask for balances: those the user's filter admits.
pub fn filter_ledgers(ids: &Vec<String>, filter: &Option<Vec<String>>) -> (r: Vec<String>)
    ensures
        texts(r@) == admitted_ids(texts(ids@), filter_view(*filter)),
{
    let mut out: Vec<String> = Vec::new();
    let mut i: usize = 0;
    while i < ids.len()
        invariant
            i <= ids@.len(),
            texts(out@) == admitted_ids(texts(ids@.subrange(0, i as int)), filter_view(*filter)),
        decreases ids.len() - i,
    {
        proof {
            assert(texts(ids@.subrange(0, i + 1)).drop_last() =~= texts(ids@.subrange(0, i as int)));
            assert(texts(ids@.subrange(0, i + 1)).last() == ids@[i as int]@);
        }
        if admits_name(filter, &ids[i]) {
            out.push(ids[i].clone());
            proof {
                assert(texts(out@) =~= texts(out@).drop_last().push(ids@[i as int]@));
            }
        }
        i = i + 1;
    }
    assert(ids@.subrange(0, ids.len() as int) =~= ids@);
    out
}

} // verus!
