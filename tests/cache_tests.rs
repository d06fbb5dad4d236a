use aggregator::positions::{claimable_holdings, neuron_holding, rewards_of, router_holdings, vault_holding, Claimable, RouterPosition};
use aggregator::aggregate::{filter_adapters, gather_dex, merge_holdings};
use aggregator::config::{AdapterEntry, AdapterKind};
use aggregator::error::FetchError;
use aggregator::holding::Holding;
use aggregator::holdings_cache::HoldingsCache;
use aggregator::lp_cache::{pool_holdings, LpCache, Position, STALE_NS};
use aggregator::time::MINUTE_NS;
use aggregator::aggregate::ledger_holding;

fn h(source: &str, token: &str, amount: &str, status: &str) -> Holding {
    Holding::new(source.to_string(), token.to_string(), amount.to_string(), status.to_string())
}

#[test]
fn cache_respects_height() {
    let mut cache = LpCache::new();
    let mut calls = 0usize;
    let user = "aaaaa-aa".to_string();
    let pool = "pool-a".to_string();
    let mut get_or_fetch = |cache: &mut LpCache, height: u64, data: Vec<Holding>, calls: &mut usize| {
        match cache.lookup(&user, &pool, height, 0) {
            Some(v) => v,
            None => {
                *calls += 1;
                let copy: Vec<Holding> = data.clone();
                cache.store(&user, &pool, height, data, 0);
                copy
            }
        }
    };
    let v1 = get_or_fetch(&mut cache, 1, vec![h("x", "t", "1", "lp_escrow")], &mut calls);
    assert_eq!(calls, 1);
    let v2 = get_or_fetch(&mut cache, 1, vec![], &mut calls);
    assert_eq!(calls, 1);
    assert_eq!(v2.len(), v1.len());
    assert_eq!(v2[0].amount, v1[0].amount);
    let v3 = get_or_fetch(&mut cache, 2, vec![h("x", "t", "2", "lp_escrow")], &mut calls);
    assert_eq!(calls, 2);
    assert_eq!(v3[0].amount, "2");
}

#[test]
fn lp_entries_go_stale() {
    let mut cache = LpCache::new();
    let user = "u".to_string();
    cache.store(&user, &"pool-a".to_string(), 5, vec![h("x", "t", "1", "lp_escrow")], 10);
    cache.store(&user, &"pool-b".to_string(), 5, vec![], 10 + STALE_NS);
    assert!(cache.lookup(&user, &"pool-a".to_string(), 5, 10 + STALE_NS - 1).is_some());
    assert!(cache.lookup(&user, &"pool-a".to_string(), 5, 10 + STALE_NS).is_none());
    assert_eq!(cache.len(), 2);
    cache.evict_stale(10 + STALE_NS);
    assert_eq!(cache.len(), 1);
    assert!(cache.lookup(&user, &"pool-a".to_string(), 5, 10).is_none());
    assert!(cache.lookup(&user, &"pool-b".to_string(), 5, 10 + STALE_NS).is_some());
}

#[test]
fn lp_stable_round_trip() {
    let mut cache = LpCache::new();
    cache.store(&"u1".to_string(), &"pool-a".to_string(), 3, vec![h("F", "t", "1.5", "lp_escrow")], 10);
    cache.store(&"u2".to_string(), &"pool-a".to_string(), 4, vec![], 11);
    let back = LpCache::stable_restore(cache.stable_save());
    assert_eq!(back.len(), 2);
    let rows = back.lookup(&"u1".to_string(), &"pool-a".to_string(), 3, 12).unwrap();
    assert_eq!(rows[0].amount, "1.5");
    assert!(back.lookup(&"u2".to_string(), &"pool-a".to_string(), 4, 12).unwrap().is_empty());
    assert!(back.lookup(&"u2".to_string(), &"pool-a".to_string(), 5, 12).is_none());
}

#[test]
fn pool_rows_per_position() {
    let rows = pool_holdings(
        &"D_FACTORY".to_string(),
        &"tokA".to_string(),
        &"tokB".to_string(),
        Some((8, 8)),
        &vec![Position { amount0: 500, amount1: 100 }],
    );
    assert_eq!(rows.len(), 2);
    assert_eq!(rows[0].amount, "0.00000500");
    assert_eq!(rows[1].amount, "0.00000100");
    assert_eq!(rows[0].status, "lp_escrow");
    assert_eq!(rows[1].token, "tokB");
    let none = pool_holdings(&"D".to_string(), &"a".to_string(), &"b".to_string(), None, &vec![Position { amount0: 1, amount1: 1 }]);
    assert!(none.is_empty());
}

#[test]
fn empty_filter_single_ledger_single_adapter() {
    let ledger = vec![ledger_holding(Some(("AAA".to_string(), 2)), Some(1234))];
    let dex_rows = pool_holdings(
        &"D_FACTORY".to_string(),
        &"tokA".to_string(),
        &"tokB".to_string(),
        Some((8, 8)),
        &vec![Position { amount0: 500, amount1: 100 }],
    );
    let dex = gather_dex(&vec![Ok(dex_rows)]);
    let out = merge_holdings(&ledger, &Vec::new(), &dex, 500).unwrap();
    assert_eq!(out.len(), 3);
    assert_eq!((out[0].source.as_str(), out[0].token.as_str(), out[0].amount.as_str(), out[0].status.as_str()), ("ledger", "AAA", "12.34", "liquid"));
    assert_eq!(out[1].amount, "0.00000500");
    assert_eq!(out[2].amount, "0.00000100");
    assert_eq!(out[1].status, "lp_escrow");
}

#[test]
fn merge_order_and_truncation() {
    let ledger = vec![h("ledger", "A", "1", "liquid"), h("ledger", "B", "2", "liquid")];
    let neuron = vec![h("neuron", "ICP", "3", "locked")];
    let dex = Ok(vec![h("X", "C", "4", "lp_escrow")]);
    let all = merge_holdings(&ledger, &neuron, &dex, 500).unwrap();
    let tokens: Vec<&str> = all.iter().map(|x| x.token.as_str()).collect();
    assert_eq!(tokens, vec!["A", "B", "ICP", "C"]);
    let cut = merge_holdings(&ledger, &neuron, &dex, 3).unwrap();
    assert_eq!(cut.len(), 3);
    assert_eq!(cut[2].token, "ICP");
}

#[test]
fn adapter_failure_fails_the_call() {
    let results = vec![Ok(vec![h("X", "C", "4", "lp_escrow")]), Err(FetchError::timeout())];
    let dex = gather_dex(&results);
    assert!(matches!(&dex, Err(FetchError::Network(d)) if d == "timeout"));
    assert!(merge_holdings(&Vec::new(), &Vec::new(), &dex, 500).is_err());
}

#[test]
fn filter_keeps_only_preferred_adapters() {
    let reg = vec![
        AdapterEntry { name: "A".to_string(), kind: AdapterKind::Factory, endpoint: "e1".to_string() },
        AdapterEntry { name: "B".to_string(), kind: AdapterKind::Router, endpoint: "e2".to_string() },
        AdapterEntry { name: "C".to_string(), kind: AdapterKind::Vault, endpoint: "e3".to_string() },
    ];
    let kept = filter_adapters(&reg, &Some(vec!["A".to_string(), "B".to_string()]));
    let names: Vec<&str> = kept.iter().map(|a| a.name.as_str()).collect();
    assert_eq!(names, vec!["A", "B"]);
    assert_eq!(filter_adapters(&reg, &None).len(), 3);
    assert_eq!(filter_adapters(&reg, &Some(Vec::new())).len(), 3);
}

#[test]
fn freshness_respected() {
    let mut cache = HoldingsCache::new();
    let user = "aaaaa-aa".to_string();
    let rows = vec![h("ledger", "AAA", "12.34", "liquid")];
    let stored = cache.complete(&user, Ok(rows), 1_000).unwrap();
    assert_eq!(stored.len(), 1);
    let a = cache.fresh(&user, 1_000 + MINUTE_NS - 1).unwrap();
    assert_eq!(a[0].amount, "12.34");
    assert!(cache.fresh(&user, 1_000 + MINUTE_NS).is_none());
    let s = cache.fresh_summary(&user, 1_001).unwrap();
    assert_eq!(s[0].token, "AAA");
    assert_eq!(s[0].total, 1234);
    cache.invalidate(&user);
    assert!(cache.fresh(&user, 1_001).is_none());
    assert!(cache.last_holdings(&user).is_empty());
}

#[test]
fn failed_summary_leaves_cache() {
    let mut cache = HoldingsCache::new();
    let user = "u".to_string();
    assert!(cache.complete(&user, Ok(vec![h("ledger", "A", "bad", "liquid")]), 5).is_err());
    assert_eq!(cache.len(), 0);
    assert!(cache.complete(&user, Err(FetchError::timeout()), 5).is_err());
    assert_eq!(cache.len(), 0);
}

#[test]
fn neuron_rows() {
    let locked = neuron_holding(250_000_000, 10);
    assert_eq!((locked.source.as_str(), locked.token.as_str(), locked.amount.as_str(), locked.status.as_str()), ("neuron", "ICP", "2", "locked"));
    assert_eq!(neuron_holding(99_999_999, 0).amount, "0");
    assert_eq!(neuron_holding(99_999_999, 0).status, "dissolved");
}

#[test]
fn router_and_distributor_rows() {
    let p = |auto: bool| RouterPosition {
        token_a: "A".to_string(), decimals_a: 2, amount_a: 150,
        token_b: "B".to_string(), decimals_b: 0, amount_b: 7,
        reward_token: "R".to_string(), reward_decimals: 1, reward_amount: 5,
        auto_compound: auto,
    };
    let rows = router_holdings(&"S_ROUTER".to_string(), &vec![p(false), p(true)]);
    let amounts: Vec<&str> = rows.iter().map(|h| h.amount.as_str()).collect();
    assert_eq!(amounts, vec!["1.50", "7", "0.5", "1.50", "7"]);
    assert!(rows.iter().all(|h| h.source == "S_ROUTER" && h.status == "lp_escrow"));
    let v = vault_holding(&"V_VAULT".to_string(), &"CKB".to_string(), 3, 1234);
    assert_eq!(v.amount, "1.234");
    let c = claimable_holdings(&"SNS_D".to_string(), &vec![Claimable { symbol: "CHAT".to_string(), amount: 42, decimals: 1 }]);
    assert_eq!(c[0].amount, "4.2");
    assert_eq!(c[0].status, "claimable");
    let r = rewards_of(&c);
    assert_eq!(r[0].token, "CHAT");
    assert_eq!(r[0].amount, "4.2");
}

#[test]
fn certification_encoding_and_witness() {
    use_cert();
}

fn use_cert() {
    let rows = vec![h("ledger", "AAA", "1", "liquid")];
    let bytes = aggregator::cert::encode_holdings(&rows);
    let mut expected = Vec::new();
    for f in ["ledger", "AAA", "1", "liquid"] {
        expected.extend_from_slice(&(f.len() as u64).to_be_bytes());
        expected.extend_from_slice(f.as_bytes());
    }
    assert_eq!(bytes, expected);
    let mut store = aggregator::cert::CertStore::new();
    let user = "aaaaa-aa".to_string();
    assert!(store.witness(&user).is_empty());
    store.update(&user, &rows);
    let w = store.witness(&user);
    assert_eq!(w.len(), 32);
    assert_eq!(w, aggregator::metadata::content_hash(&expected));
    store.update(&user, &vec![h("ledger", "AAA", "2", "liquid")]);
    assert_ne!(store.witness(&user), w);
}
