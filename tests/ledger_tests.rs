use aggregator::aggregate::{ledger_holding, retry_after_failure};
use aggregator::metadata::{content_hash, parse_metadata, MetaCache, MetaValue, TokenMeta, META_TTL_NS};

fn items(symbol: &str, decimals: u128, fee: Option<u128>) -> Vec<(String, MetaValue)> {
    let mut v = vec![
        ("icrc1:symbol".to_string(), MetaValue::Text(symbol.to_string())),
        ("icrc1:decimals".to_string(), MetaValue::Nat(decimals)),
    ];
    if let Some(f) = fee {
        v.push(("icrc1:fee".to_string(), MetaValue::Nat(f)));
    }
    v
}

fn encoded(v: &[(String, MetaValue)]) -> Vec<u8> {
    let mut s = String::new();
    for (k, x) in v {
        match x {
            MetaValue::Text(t) => s.push_str(&format!("{k}:T{t};")),
            MetaValue::Nat(n) => s.push_str(&format!("{k}:N{n};")),
            MetaValue::Other => s.push_str(&format!("{k}:O;")),
        }
    }
    s.into_bytes()
}

fn fetch(cache: &mut MetaCache, cid: &String, reply: &Vec<(String, MetaValue)>, now: u64) -> (String, u8, u64) {
    if let Some(m) = cache.lookup(cid, now) {
        return (m.symbol, m.decimals, m.fee);
    }
    let meta = parse_metadata(reply);
    let m = cache.refresh(cid, &encoded(reply), meta, now);
    (m.symbol, m.decimals, m.fee)
}


#[test]
fn metadata_caching_and_expiry() {
    let cid = "aaaaa-aa".to_string();
    let mut cache = MetaCache::new();
    let first = items("AAA", 2, Some(10));
    let v1 = fetch(&mut cache, &cid, &first, 1);
    assert_eq!(v1, ("AAA".into(), 2, 10));

    let second = items("BBB", 3, Some(20));
    let v2 = fetch(&mut cache, &cid, &second, 2);
    assert_eq!(v2, ("AAA".into(), 2, 10));
    assert_eq!(cache.lookup(&cid, 2).unwrap().symbol, "AAA");

    let v3 = fetch(&mut cache, &cid, &second, META_TTL_NS + 3);
    assert_eq!(v3, ("BBB".into(), 3, 20));
    assert_eq!(cache.lookup(&cid, META_TTL_NS + 3).unwrap().symbol, "BBB");
}

#[test]
fn metadata_hash_match_only_moves_expiry() {
    let cid = "aaaaa-aa".to_string();
    let mut cache = MetaCache::new();
    let reply = items("AAA", 2, Some(10));
    fetch(&mut cache, &cid, &reply, 5);
    // same reply bytes, but the values handed in differ: a matching hash keeps the entry
    let other = TokenMeta { symbol: "ZZZ".to_string(), decimals: 9, fee: 99 };
    let m = cache.refresh(&cid, &encoded(&reply), other, META_TTL_NS + 10);
    assert_eq!((m.symbol.as_str(), m.decimals, m.fee), ("AAA", 2, 10));
    assert!(cache.lookup(&cid, META_TTL_NS + 11).is_some());
    assert!(cache.lookup(&cid, 2 * META_TTL_NS + 10).is_none());
}

#[test]
fn metadata_before_expiry_needs_no_fetch() {
    let cid = "aaaaa-aa".to_string();
    let mut cache = MetaCache::new();
    assert!(cache.lookup(&cid, 0).is_none());
    fetch(&mut cache, &cid, &items("AAA", 2, None), 0);
    assert!(cache.lookup(&cid, META_TTL_NS - 1).is_some());
    assert!(cache.lookup(&cid, META_TTL_NS).is_none());
}

#[test]
fn content_hash_is_sha256() {
    let h = content_hash(&b"abc".to_vec());
    assert_eq!(h.len(), 32);
    assert_eq!(h[0], 0xba);
    assert_eq!(h[1], 0x78);
    assert_eq!(h[31], 0xad);
    assert_ne!(h, b"abc".to_vec());
}

#[test]
fn parse_metadata_reads_last_values() {
    let mut v = items("AAA", 2, Some(10));
    v.push(("icrc1:decimals".to_string(), MetaValue::Nat(300)));
    v.push(("other".to_string(), MetaValue::Other));
    let m = parse_metadata(&v);
    assert_eq!(m.symbol, "AAA");
    assert_eq!(m.decimals, 44);
    assert_eq!(m.fee, 10);
    let empty = parse_metadata(&Vec::new());
    assert_eq!((empty.symbol.as_str(), empty.decimals, empty.fee), ("", 0, 0));
}

#[test]
fn metadata_stable_round_trip() {
    let mut cache = MetaCache::new();
    fetch(&mut cache, &"aaaaa-aa".to_string(), &items("AAA", 2, Some(10)), 1);
    fetch(&mut cache, &"bbbbb-bb".to_string(), &items("BBB", 8, None), 2);
    let saved = cache.stable_save();
    assert_eq!(saved.len(), 2);
    let back = MetaCache::stable_restore(saved);
    assert_eq!(back.len(), 2);
    let a = back.lookup(&"aaaaa-aa".to_string(), 3).unwrap();
    assert_eq!((a.symbol.as_str(), a.decimals, a.fee), ("AAA", 2, 10));
    let b = back.lookup(&"bbbbb-bb".to_string(), 3).unwrap();
    assert_eq!((b.symbol.as_str(), b.decimals, b.fee), ("BBB", 8, 0));
}

#[test]
fn restore_drops_malformed_hash() {
    let mut cache = MetaCache::new();
    fetch(&mut cache, &"aaaaa-aa".to_string(), &items("AAA", 2, Some(10)), 1);
    let mut saved = cache.stable_save();
    saved[0].hash = vec![1, 2, 3];
    let back = MetaCache::stable_restore(saved);
    assert_eq!(back.entries.entries[0].1.hash, vec![0u8; 32]);
}

#[test]
fn with_retry_succeeds_after_retries() {
    let mut attempts = 0u8;
    let mut attempt: u32 = 0;
    let result = loop {
        attempts += 1;
        let outcome: Result<u32, &str> = if attempts < 3 { Err("no") } else { Ok(5) };
        match outcome {
            Ok(v) => break Ok(v),
            Err(e) => match retry_after_failure(attempt) {
                Some(_) => attempt += 1,
                None => break Err(e),
            },
        }
    };
    assert_eq!(result.unwrap(), 5);
    assert_eq!(attempts, 3);
}

#[test]
fn retry_backoff_doubles_then_gives_up() {
    assert_eq!(retry_after_failure(0), Some(100));
    assert_eq!(retry_after_failure(1), Some(200));
    assert_eq!(retry_after_failure(2), None);
}

#[test]
fn fetch_happy_path() {
    let res = vec![ledger_holding(Some(("AAA".to_string(), 2)), Some(1234))];
    assert_eq!(res.len(), 1);
    assert_eq!(res[0].token, "AAA");
    assert_eq!(res[0].amount, "12.34");
    assert_eq!(res[0].status, "liquid");
    assert_eq!(res[0].source, "ledger");
}

#[test]
fn fetch_balance_error() {
    let res = vec![ledger_holding(Some(("AAA".to_string(), 2)), None)];
    assert_eq!(res[0].status, "error");
    assert_eq!(res[0].amount, "0");
    assert_eq!(res[0].token, "AAA");
}

#[test]
fn fetch_metadata_error() {
    let res = vec![ledger_holding(None, Some(10))];
    assert_eq!(res[0].token, "unknown");
    assert_eq!(res[0].status, "error");
    assert_eq!(res[0].amount, "0");
}
