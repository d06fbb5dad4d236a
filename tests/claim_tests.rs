use aggregator::claim::{claim_adapter_count, ClaimBook, ClaimConfig, ClaimError, ClaimRun};
use aggregator::time::SEC_NS;

fn user() -> String {
    "aaaaa-aa".to_string()
}

/// One claim call as the service runs it: enter, claim, release.
fn claim_call(book: &mut ClaimBook, cfg: &ClaimConfig, now: u64) -> Result<(), ClaimError> {
    book.try_enter(cfg, &user(), &user(), now)?;
    book.release(&user());
    Ok(())
}

#[test]
fn claim_sequence_rate_limited() {
    let mut cfg = ClaimConfig::defaults();
    cfg.daily_limit = 2;
    cfg.cooldown_ns = SEC_NS;
    let mut book = ClaimBook::new();
    let results: Vec<Result<(), ClaimError>> =
        [0u64, 2, 4, 6, 8].iter().map(|t| claim_call(&mut book, &cfg, t * SEC_NS)).collect();
    assert_eq!(
        results,
        vec![
            Ok(()),
            Ok(()),
            Err(ClaimError::RateLimit),
            Err(ClaimError::RateLimit),
            Err(ClaimError::RateLimit)
        ]
    );
    // once the window has run out, claims are admitted again
    let later = cfg.window_ns + 10 * SEC_NS;
    assert_eq!(claim_call(&mut book, &cfg, later), Ok(()));
}

#[test]
fn claim_mutual_exclusion() {
    let mut cfg = ClaimConfig::defaults();
    cfg.cooldown_ns = 0;
    let mut book = ClaimBook::new();
    let first = book.try_enter(&cfg, &user(), &user(), 100);
    let second = book.try_enter(&cfg, &user(), &user(), 100);
    assert_eq!(first, Ok(()));
    assert_eq!(second, Err(ClaimError::InProgress));
    let status = book.status(&cfg, &user(), 100);
    assert!(status.locked);
    assert_eq!(status.attempts, 1);
    book.release(&user());
    assert!(!book.status(&cfg, &user(), 100).locked);
    assert_eq!(book.try_enter(&cfg, &user(), &user(), 101), Ok(()));
}

#[test]
fn claim_lock_expires() {
    let mut cfg = ClaimConfig::defaults();
    cfg.cooldown_ns = 0;
    let mut book = ClaimBook::new();
    assert_eq!(book.try_enter(&cfg, &user(), &user(), 0), Ok(()));
    assert_eq!(book.try_enter(&cfg, &user(), &user(), cfg.lock_timeout_ns - 1), Err(ClaimError::InProgress));
    assert_eq!(book.try_enter(&cfg, &user(), &user(), cfg.lock_timeout_ns), Ok(()));
}

#[test]
fn claim_cooldown_first() {
    let cfg = ClaimConfig::defaults();
    let mut book = ClaimBook::new();
    assert_eq!(claim_call(&mut book, &cfg, 0), Ok(()));
    assert_eq!(claim_call(&mut book, &cfg, 59 * SEC_NS), Err(ClaimError::Cooldown));
    assert_eq!(claim_call(&mut book, &cfg, 60 * SEC_NS), Ok(()));
}

#[test]
fn claim_authorisation() {
    let mut cfg = ClaimConfig::defaults();
    cfg.wallets = vec!["wallet".to_string()];
    cfg.denylist = vec!["bad-user".to_string()];
    let mut book = ClaimBook::new();
    assert_eq!(
        book.try_enter(&cfg, &"other".to_string(), &user(), 0),
        Err(ClaimError::Unauthorized)
    );
    assert_eq!(book.try_enter(&cfg, &"wallet".to_string(), &user(), 0), Ok(()));
    assert_eq!(
        book.try_enter(&cfg, &"2vxsx-fae".to_string(), &"2vxsx-fae".to_string(), 0),
        Err(ClaimError::InvalidPrincipal)
    );
    assert_eq!(
        book.try_enter(&cfg, &"bad-user".to_string(), &"bad-user".to_string(), 0),
        Err(ClaimError::Denied)
    );
}

#[test]
fn claim_status_of_unknown_user() {
    let cfg = ClaimConfig::defaults();
    let book = ClaimBook::new();
    let s = book.status(&cfg, &user(), 7);
    assert_eq!(s.attempts, 0);
    assert_eq!(s.window_expires, 7 + cfg.window_ns);
    assert!(!s.locked);
}

#[test]
fn claim_run_accumulates_and_caps() {
    let mut run = ClaimRun::new();
    assert!(run.wants_more(10));
    assert_eq!(run.record(Some(4), 10), Ok(()));
    assert_eq!(run.record(None, 10), Ok(()));
    assert_eq!(run.record(Some(6), 10), Ok(()));
    assert_eq!(run.spent, vec![4, 6]);
    assert!(!run.wants_more(10));
    assert_eq!(run.record(Some(1), 10), Err(ClaimError::CapExceeded));
    assert_eq!(run.spent, vec![4, 6]);
}

#[test]
fn claim_adapter_count_caps() {
    assert_eq!(claim_adapter_count(5, 3), 3);
    assert_eq!(claim_adapter_count(2, 3), 2);
}
