use vstd::prelude::*;
use crate::adapters::RewardInfo;
use crate::amount::{amount_text, format_amount};
use crate::holding::{holdings_view, Holding, HoldingView};

verus! {

/// Base units of ICP in one ICP.
pub const E8S_PER_ICP: u64 = 100_000_000;

/// The row of one governance neuron: its stake in whole ICP (rounded down),
/// locked while it has a dissolve delay, dissolved otherwise.
pub open spec fn neuron_row(stake_e8s: u64, dissolve_delay_seconds: u64) -> HoldingView {
    HoldingView {
        source: "neuron"@,
        token: "ICP"@,
        amount: amount_text((stake_e8s / E8S_PER_ICP) as nat, 0),
        status: if dissolve_delay_seconds > 0 {
            "locked"@
        } else {
            "dissolved"@
        },
    }
}

pub fn neuron_holding(stake_e8s: u64, dissolve_delay_seconds: u64) -> (r: Holding)
    ensures
        r@ == neuron_row(stake_e8s, dissolve_delay_seconds),
{
    proof {
        reveal_strlit("neuron");
        reveal_strlit("ICP");
        reveal_strlit("locked");
        reveal_strlit("dissolved");
    }
    let status = if dissolve_delay_seconds > 0 {
        String::from_str("locked")
    } else {
        String::from_str("dissolved")
    };
    Holding::new(
        String::from_str("neuron"),
        String::from_str("ICP"),
        format_amount((stake_e8s / E8S_PER_ICP) as u128, 0),
        status,
    )
}

/// A row of `amount` units of `token` with `decimals` places and `status`.
pub open spec fn row(
    source: Seq<char>,
    token: Seq<char>,
    amount: u128,
    decimals: u8,
    status: Seq<char>,
) -> HoldingView {
    HoldingView { source, token, amount: amount_text(amount as nat, decimals as nat), status }
}

fn make_row(source: &String, token: &String, amount: u128, decimals: u8, status: &str) -> (r: Holding)
    ensures
        r@ == row(source@, token@, amount, decimals, status@),
{
    Holding::new(source.clone(), token.clone(), format_amount(amount, decimals), String::from_str(status))
}

/// One position that a router reports: both tokens of the pair and the
/// reward token, each with its decimals.
pub struct RouterPosition {
    pub token_a: String,
    pub decimals_a: u8,
    pub amount_a: u128,
    pub token_b: String,
    pub decimals_b: u8,
    pub amount_b: u128,
    pub reward_token: String,
    pub reward_decimals: u8,
    pub reward_amount: u128,
    pub auto_compound: bool,
}

/// The rows of one router position: both tokens in escrow, and the pending
/// reward unless it is compounded.
pub open spec fn router_rows_of(source: Seq<char>, p: RouterPosition) -> Seq<HoldingView> {
    let pair = seq![
        row(source, p.token_a@, p.amount_a, p.decimals_a, "lp_escrow"@),
        row(source, p.token_b@, p.amount_b, p.decimals_b, "lp_escrow"@),
    ];
    if p.auto_compound {
        pair
    } else {
        pair.push(row(source, p.reward_token@, p.reward_amount, p.reward_decimals, "lp_escrow"@))
    }
}

/// The rows of a list of router positions, position by position.
pub open spec fn router_rows(source: Seq<char>, ps: Seq<RouterPosition>) -> Seq<HoldingView>
    decreases ps.len(),
{
    if ps.len() == 0 {
        Seq::empty()
    } else {
        router_rows(source, ps.drop_last()) + router_rows_of(source, ps.last())
    }
}

pub fn router_holdings(source: &String, positions: &Vec<RouterPosition>) -> (r: Vec<Holding>)
    ensures
        holdings_view(r@) == router_rows(source@, positions@),
{
    proof {
        reveal_strlit("lp_escrow");
    }
    let mut out: Vec<Holding> = Vec::new();
    let mut i: usize = 0;
    assert(holdings_view(out@) =~= router_rows(source@, positions@.take(0)));
    while i < positions.len()
        invariant
            i <= positions@.len(),
            holdings_view(out@) == router_rows(source@, positions@.take(i as int)),
        decreases positions.len() - i,
    {
        let p = &positions[i];
        let ghost before = holdings_view(out@);
        out.push(make_row(source, &p.token_a, p.amount_a, p.decimals_a, "lp_escrow"));
        out.push(make_row(source, &p.token_b, p.amount_b, p.decimals_b, "lp_escrow"));
        if !p.auto_compound {
            out.push(make_row(source, &p.reward_token, p.reward_amount, p.reward_decimals, "lp_escrow"));
        }
        proof {
            assert(positions@.take(i + 1).drop_last() =~= positions@.take(i as int));
            assert(holdings_view(out@) =~= before + router_rows_of(source@, positions@[i as int]));
        }
        i = i + 1;
    }
    assert(positions@.take(positions@.len() as int) =~= positions@);
    out
}

/// The row of a balance that a vault holds for the user.
pub fn vault_holding(source: &String, symbol: &String, decimals: u8, balance: u128) -> (r: Holding)
    ensures
        r@ == row(source@, symbol@, balance, decimals, "lp_escrow"@),
{
    make_row(source, symbol, balance, decimals, "lp_escrow")
}

/// A reward that a distributor holds for the user.
pub struct Claimable {
    pub symbol: String,
    pub amount: u128,
    pub decimals: u8,
}

/// One `claimable` row per reward, in order.
pub fn claimable_holdings(source: &String, claims: &Vec<Claimable>) -> (r: Vec<Holding>)
    ensures
        r@.len() == claims@.len(),
        forall|i: int|
            0 <= i < claims@.len() ==> (#[trigger] r@[i])@ == row(
                source@,
                claims@[i].symbol@,
                claims@[i].amount,
                claims@[i].decimals,
                "claimable"@,
            ),
{
    let mut out: Vec<Holding> = Vec::new();
    let mut i: usize = 0;
    while i < claims.len()
        invariant
            i <= claims@.len(),
            out@.len() == i,
            forall|j: int|
                0 <= j < i ==> (#[trigger] out@[j])@ == row(
                    source@,
                    claims@[j].symbol@,
                    claims@[j].amount,
                    claims@[j].decimals,
                    "claimable"@,
                ),
        decreases claims.len() - i,
    {
        let c = &claims[i];
        out.push(make_row(source, &c.symbol, c.amount, c.decimals, "claimable"));
        i = i + 1;
    }
    out
}

/// The claimable rewards that rows describe: token and amount of each.
pub fn rewards_of(rows: &Vec<Holding>) -> (r: Vec<RewardInfo>)
    ensures
        r@.len() == rows@.len(),
        forall|i: int|
            0 <= i < rows@.len() ==> (#[trigger] r@[i]).token@ == rows@[i].token@ && r@[i].amount@
                == rows@[i].amount@,
{
    let mut out: Vec<RewardInfo> = Vec::new();
    let mut i: usize = 0;
    while i < rows.len()
        invariant
            i <= rows@.len(),
            out@.len() == i,
            forall|j: int|
                0 <= j < i ==> (#[trigger] out@[j]).token@ == rows@[j].token@ && out@[j].amount@
                    == rows@[j].amount@,
        decreases rows.len() - i,
    {
        out.push(RewardInfo { token: rows[i].token.clone(), amount: rows[i].amount.clone() });
        i = i + 1;
    }
    out
}

} // verus!
