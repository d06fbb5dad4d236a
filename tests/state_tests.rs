use aggregator::cycles::{max_backoff_minutes, needs_refill, CyclesMaintainer, MIN_BALANCE};
use aggregator::metrics::{Caches, MetricsRecorder};
use aggregator::service::{health_check, pay_cycles, version, PoolMeta, PoolRegistry};
use aggregator::time::MINUTE_NS;
use aggregator::user_settings::{SettingsError, SettingsStore, UserSettings};
use aggregator::warm::{WarmQueue, MAX_QUEUE_SIZE};

#[test]
fn crud() {
    let p = "aaaaa-aa".to_string();
    let mut store = SettingsStore::new();
    assert!(store.get(&p).is_none());
    let s1 = UserSettings { ledgers: Some(vec![p.clone()]), dexes: None };
    store.update(&p, s1);
    let got = store.get(&p).unwrap();
    assert_eq!(got.ledgers, Some(vec![p.clone()]));
    assert!(got.dexes.is_none());
    let s2 = UserSettings { ledgers: None, dexes: Some(vec!["ICPSWAP_FACTORY".to_string()]) };
    store.update(&p, s2);
    let got = store.get(&p).unwrap();
    assert!(got.ledgers.is_none());
    assert_eq!(got.dexes, Some(vec!["ICPSWAP_FACTORY".to_string()]));
    store.remove(&p);
    assert!(store.get(&p).is_none());
}

#[test]
fn settings_only_by_owner() {
    let mut store = SettingsStore::new();
    let r = store.update_as(&"other".to_string(), &"aaaaa-aa".to_string(), UserSettings::none());
    assert_eq!(r, Err(SettingsError::Unauthorized));
    assert!(store.get(&"aaaaa-aa".to_string()).is_none());
    assert_eq!(store.update_as(&"aaaaa-aa".to_string(), &"aaaaa-aa".to_string(), UserSettings::none()), Ok(()));
}

#[test]
fn settings_filters() {
    let s = UserSettings {
        ledgers: Some(vec!["aaaaa-aa".to_string(), "junk".to_string()]),
        dexes: Some(vec![]),
    };
    assert_eq!(s.ledger_filter(), Some(vec!["aaaaa-aa".to_string()]));
    assert_eq!(s.dex_filter(), None);
    let t = UserSettings { ledgers: Some(vec!["junk".to_string()]), dexes: Some(vec!["A".to_string()]) };
    assert_eq!(t.ledger_filter(), None);
    assert_eq!(t.dex_filter(), Some(vec!["A".to_string()]));
}

#[test]
fn settings_stable_round_trip() {
    let mut store = SettingsStore::new();
    store.update(&"u1".to_string(), UserSettings { ledgers: Some(vec!["aaaaa-aa".to_string()]), dexes: None });
    store.update(&"u2".to_string(), UserSettings { ledgers: None, dexes: Some(vec!["D".to_string()]) });
    let back = SettingsStore::stable_restore(store.stable_save());
    assert_eq!(back.get(&"u1".to_string()).unwrap().ledgers, Some(vec!["aaaaa-aa".to_string()]));
    assert_eq!(back.get(&"u2".to_string()).unwrap().dexes, Some(vec!["D".to_string()]));
    assert!(back.get(&"u3".to_string()).is_none());
}

fn ids(prefix: &str, n: usize) -> Vec<String> {
    (0..n).map(|i| format!("{prefix}{i}")).collect()
}

#[test]
fn init_bounds_queue() {
    let q = WarmQueue::init(&ids("p", 150), &ids("p", 150), 0);
    assert_eq!(q.len(), MAX_QUEUE_SIZE);
}

#[test]
fn init_deduplicates_endpoints() {
    let a = vec!["aaaaa-aa".to_string(), "aaaaa-aa".to_string()];
    let b = vec!["aaaaa-aa".to_string(), "bbbbb-bb".to_string()];
    let q = WarmQueue::init(&a, &b, 0);
    assert_eq!(q.dump(), vec!["aaaaa-aa".to_string(), "bbbbb-bb".to_string()]);
}

#[test]
fn deterministic_after_reinit() {
    let ledgers = vec!["aaaaa-aa".to_string()];
    let dex = vec!["bbbbbb-baaaa-aaaaa-aaadq-cai".to_string()];
    let first = WarmQueue::init(&ledgers, &dex, 5).dump();
    let second = WarmQueue::init(&ledgers, &dex, 9).dump();
    assert_eq!(first, second);
}

#[test]
fn warm_tick_rotates() {
    let mut q = WarmQueue::init(&vec!["a".to_string(), "b".to_string()], &Vec::new(), 10);
    assert_eq!(q.next_item(5), None);
    assert_eq!(q.dump(), vec!["b".to_string(), "a".to_string()]);
    assert_eq!(q.next_item(10), Some("b".to_string()));
    assert_eq!(q.items[1].1, 10 + aggregator::time::DAY_NS);
    let mut empty = WarmQueue::init(&Vec::new(), &Vec::new(), 0);
    assert_eq!(empty.next_item(0), None);
}

#[test]
fn metrics_count_and_round_trip() {
    let mut m = MetricsRecorder::new();
    m.inc_query();
    m.inc_query();
    m.inc_claim_attempt();
    m.inc_claim_success();
    m.inc_cycle_refill_attempt();
    m.inc_cycle_refill_success();
    m.inc_heartbeat(77);
    m.add_cycles_collected(10);
    let snap = m.get(5, Caches { holdings: 1, lp: 2, metadata: 3 });
    assert_eq!(snap.counters.query_count, 2);
    assert_eq!(snap.counters.last_heartbeat, 77);
    assert_eq!(snap.cycles.collected, 10);
    assert_eq!(snap.caches.lp, 2);
    let saved = m.stable_save();
    assert_eq!(saved, (2, 1, 77, 1, 1, 1, 1, 10));
    assert_eq!(MetricsRecorder::stable_restore(saved), m);
}

#[test]
fn counters_wrap() {
    let mut m = MetricsRecorder::stable_restore((u64::MAX, 0, 0, 0, 0, 0, 0, 0));
    m.inc_query();
    assert_eq!(m.counters.query_count, 0);
}

#[test]
fn pay_cycles_charges() {
    let mut m = MetricsRecorder::new();
    assert!(pay_cycles(0, 0, &mut m).is_ok());
    assert_eq!(m.collected, 0);
    let err = pay_cycles(10, 4, &mut m).unwrap_err();
    assert_eq!(err.message(), "Insufficient cycles: sent 4, required 10");
    assert_eq!(m.collected, 4);
    assert!(pay_cycles(10, 10, &mut m).is_ok());
    assert_eq!(m.collected, 14);
}

#[test]
fn version_and_health() {
    let v = version(Some("abc".to_string()), None);
    assert_eq!(v.git_sha, "abc");
    assert_eq!(v.build_time, "unknown");
    assert_eq!(health_check(), "ok");
}

#[test]
fn cycles_backoff_grows_and_resets() {
    let mut c = CyclesMaintainer::new();
    assert!(needs_refill(MIN_BALANCE - 1));
    assert!(!needs_refill(MIN_BALANCE));
    assert!(c.begin_tick(MINUTE_NS));
    assert!(!c.begin_tick(MINUTE_NS + 1));
    c.record_refill(MINUTE_NS, false, 5, 5, max_backoff_minutes(None));
    assert_eq!(c.failures, 1);
    assert_eq!(c.backoff_until, MINUTE_NS + 2 * MINUTE_NS);
    c.record_refill(MINUTE_NS, true, 5, 3, 60);
    assert_eq!(c.failures, 2);
    assert_eq!(c.backoff_until, MINUTE_NS + 4 * MINUTE_NS);
    assert!(!c.begin_tick(2 * MINUTE_NS));
    c.record_refill(7, true, 5, 9, 60);
    assert_eq!(c.failures, 0);
    assert_eq!(c.backoff_until, 7);
    let log = c.take_log();
    assert_eq!(log.len(), 3);
    assert_eq!(log[0], format!("{}: refill failed, backoff 2m", MINUTE_NS));
    assert_eq!(log[2], "7: refilled to 9");
    assert!(c.log().is_empty());
    c.set_log(vec!["x".to_string()]);
    assert_eq!(c.log(), vec!["x".to_string()]);
}

#[test]
fn cycles_backoff_capped() {
    let mut c = CyclesMaintainer::new();
    for _ in 0..10 {
        c.record_refill(0, false, 0, 0, 20);
    }
    assert_eq!(c.backoff_until, 20 * MINUTE_NS);
    let mut d = CyclesMaintainer::new();
    for _ in 0..10 {
        d.record_refill(0, false, 0, 0, 0);
    }
    assert_eq!(d.backoff_until, MINUTE_NS);
}

#[test]
fn pool_registry_refresh() {
    let mut r = PoolRegistry::new();
    let p = |id: &str| PoolMeta {
        id: id.to_string(),
        token_a: "A".to_string(),
        token_b: "B".to_string(),
        decimals_a: 8,
        decimals_b: 6,
        image_a: None,
        image_b: None,
    };
    r.refresh(vec![p("x"), p("y"), p("x")]);
    let list = r.list();
    assert_eq!(list.len(), 2);
    assert_eq!(list[0].decimals_b, 6);
}
