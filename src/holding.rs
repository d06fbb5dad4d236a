use vstd::prelude::*;

verus! {

/// One normalised row of value held by a user at some source.
#[derive(Clone, Debug)]
pub struct Holding {
    /// Where the row came from: `"ledger"`, `"neuron"` or an adapter name.
    pub source: String,
    /// Token symbol or address.
    pub token: String,
    /// Non-negative decimal amount in canonical form.
    pub amount: String,
    /// One of `liquid`, `locked`, `dissolved`, `lp_escrow`, `claimable`,
    /// `pending`, `error`, `unknown`.
    pub status: String,
}

/// The mathematical view of a holding: its four texts.
pub struct HoldingView {
    pub source: Seq<char>,
    pub token: Seq<char>,
    pub amount: Seq<char>,
    pub status: Seq<char>,
}

impl View for Holding {
    type V = HoldingView;

    open spec fn view(&self) -> HoldingView {
        HoldingView {
            source: self.source@,
            token: self.token@,
            amount: self.amount@,
            status: self.status@,
        }
    }
}

/// Views of a list of holdings.
pub open spec fn holdings_view(v: Seq<Holding>) -> Seq<HoldingView> {
    v.map_values(|h: Holding| h@)
}

impl Holding {
    pub fn new(source: String, token: String, amount: String, status: String) -> (r: Holding)
        ensures
            r.source@ == source@,
            r.token@ == token@,
            r.amount@ == amount@,
            r.status@ == status@,
    {
        Holding { source, token, amount, status }
    }

    /// A copy with the same four texts.
    pub fn duplicate(&self) -> (r: Holding)
        ensures
            r@ == self@,
    {
        Holding {
            source: self.source.clone(),
            token: self.token.clone(),
            amount: self.amount.clone(),
            status: self.status.clone(),
        }
    }
}

/// Copies a list of holdings, row by row.
pub fn copy_holdings(v: &Vec<Holding>) -> (r: Vec<Holding>)
    ensures
        holdings_view(r@) == holdings_view(v@),
{
    let mut out: Vec<Holding> = Vec::new();
    let mut i: usize = 0;
    while i < v.len()
        invariant
            i <= v.len(),
            out@.len() == i,
            forall|j: int| 0 <= j < i ==> #[trigger] out@[j]@ == v@[j]@,
        decreases v.len() - i,
    {
        out.push(v[i].duplicate());
        i = i + 1;
    }
    assert(holdings_view(out@) =~= holdings_view(v@));
    out
}

/// Appends copies of the rows of `v` to `out`.
pub fn append_holdings(out: &mut Vec<Holding>, v: &Vec<Holding>)
    ensures
        holdings_view(final(out)@) == holdings_view(old(out)@) + holdings_view(v@),
{
    let ghost start = out@;
    let mut i: usize = 0;
    while i < v.len()
        invariant
            i <= v@.len(),
            out@.len() == start.len() + i,
            forall|j: int| 0 <= j < start.len() ==> #[trigger] out@[j]@ == start[j]@,
            forall|j: int| 0 <= j < i ==> #[trigger] out@[start.len() + j]@ == v@[j]@,
        decreases v.len() - i,
    {
        out.push(v[i].duplicate());
        i = i + 1;
    }
    assert(holdings_view(out@) =~= holdings_view(start) + holdings_view(v@)) by {
        assert forall|j: int| start.len() <= j < out@.len() implies out@[j]@ == v@[j
            - start.len()]@ by {
            assert(out@[start.len() + (j - start.len())]@ == v@[j - start.len()]@);
        }
    }
}

} // verus!
