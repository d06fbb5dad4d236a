use vstd::prelude::*;
use crate::store::KeyedStore;
use crate::text::{contains_text, texts};
use crate::time::{DAY_NS, SEC_NS};

verus! {

/// Text form of the anonymous identity, which may never claim.
pub const ANONYMOUS: &'static str = "2vxsx-fae";

/// Limits of the claim workflow.
pub struct ClaimConfig {
    /// Successful entries allowed per window.
    pub daily_limit: u32,
    /// Length of the attempt-counting window.
    pub window_ns: u64,
    /// Minimum distance between two entries of one user.
    pub cooldown_ns: u64,
    /// How long a lock lasts when it is never released.
    pub lock_timeout_ns: u64,
    /// Cap on the amount claimed in one call.
    pub max_total: u64,
    /// Cap on the adapters asked in one call.
    pub max_per_call: usize,
    /// Identities allowed to claim on behalf of any user.
    pub wallets: Vec<String>,
    /// Users who may never claim.
    pub denylist: Vec<String>,
}

impl ClaimConfig {
    /// Five entries a day, a minute of cooldown, five minutes of lock, no
    /// caps, no wallets and no denied users.
    pub fn defaults() -> (r: ClaimConfig)
        ensures
            r.daily_limit == 5,
            r.window_ns == DAY_NS,
            r.cooldown_ns == 60 * SEC_NS,
            r.lock_timeout_ns == 300 * SEC_NS,
            r.max_total == u64::MAX,
            r.max_per_call == usize::MAX,
            r.wallets@.len() == 0,
            r.denylist@.len() == 0,
    {
        ClaimConfig {
            daily_limit: 5,
            window_ns: DAY_NS,
            cooldown_ns: 60 * SEC_NS,
            lock_timeout_ns: 300 * SEC_NS,
            max_total: u64::MAX,
            max_per_call: usize::MAX,
            wallets: Vec::new(),
            denylist: Vec::new(),
        }
    }
}

/// Per-user claim state. A lock is held while `now < locked_until`.
#[derive(Clone, Copy, Debug, PartialEq, Eq)]
pub struct ClaimState {
    pub attempts: u32,
    pub window_expires: u64,
    pub locked_until: u64,
    pub cooldown_until: u64,
}

/// Why a claim was refused.
#[derive(Clone, Copy, Debug, PartialEq, Eq, Structural)]
pub enum ClaimError {
    /// The caller is neither the user nor an allowed wallet.
    Unauthorized,
    /// The user is the anonymous identity.
    InvalidPrincipal,
    /// The user is on the deny-list.
    Denied,
    /// The previous entry is too recent.
    Cooldown,
    /// The window's attempts are used up.
    RateLimit,
    /// Another claim of this user holds the lock.
    InProgress,
    /// One claim result would take the total past the cap.
    CapExceeded,
}

/// `a + b`, or `u64::MAX` where that overflows.
pub open spec fn sat_add(a: u64, b: u64) -> u64 {
    if a + b > u64::MAX {
        u64::MAX
    } else {
        (a + b) as u64
    }
}

/// Attempts and expiry of the window in force at `now`: a new window opens
/// for a user seen for the first time, or once the old one has run out.
pub open spec fn window_at(cfg_window: u64, prev: Option<ClaimState>, now: u64) -> (u32, u64) {
    match prev {
        None => (0, sat_add(now, cfg_window)),
        Some(s) => if now > s.window_expires {
            (0, sat_add(now, cfg_window))
        } else {
            (s.attempts, s.window_expires)
        },
    }
}

/// The admission decision for a user whose state is `prev`: the first failing
/// check among cooldown, window and lock, or the state after entry.
pub open spec fn admission(
    limit: u32,
    window: u64,
    cooldown: u64,
    lock_timeout: u64,
    prev: Option<ClaimState>,
    now: u64,
) -> Result<ClaimState, ClaimError> {
    let cooldown_until = match prev {
        Some(s) => s.cooldown_until,
        None => 0,
    };
    let locked_until = match prev {
        Some(s) => s.locked_until,
        None => 0,
    };
    let (attempts, expires) = window_at(window, prev, now);
    if now < cooldown_until {
        Err(ClaimError::Cooldown)
    } else if attempts >= limit {
        Err(ClaimError::RateLimit)
    } else if now < locked_until {
        Err(ClaimError::InProgress)
    } else {
        Ok(
            ClaimState {
                attempts: (attempts + 1) as u32,
                window_expires: expires,
                locked_until: sat_add(now, lock_timeout),
                cooldown_until: sat_add(now, cooldown),
            },
        )
    }
}

/// Authorisation of `caller` to claim for `user`.
pub open spec fn authorise(
    wallets: Seq<Seq<char>>,
    denylist: Seq<Seq<char>>,
    caller: Seq<char>,
    user: Seq<char>,
) -> Result<(), ClaimError> {
    if caller != user && !wallets.contains(caller) {
        Err(ClaimError::Unauthorized)
    } else if user == ANONYMOUS@ {
        Err(ClaimError::InvalidPrincipal)
    } else if denylist.contains(user) {
        Err(ClaimError::Denied)
    } else {
        Ok(())
    }
}

/// The state of `user` in `m`, if any.
pub open spec fn lookup(m: Map<Seq<char>, ClaimState>, user: Seq<char>) -> Option<ClaimState> {
    if m.contains_key(user) {
        Some(m[user])
    } else {
        None
    }
}

/// The outcome of a claim attempt on the book `m`.
pub open spec fn enter_outcome(
    cfg: &ClaimConfig,
    m: Map<Seq<char>, ClaimState>,
    caller: Seq<char>,
    user: Seq<char>,
    now: u64,
) -> Result<ClaimState, ClaimError> {
    match authorise(texts(cfg.wallets@), texts(cfg.denylist@), caller, user) {
        Err(e) => Err(e),
        Ok(_) => admission(
            cfg.daily_limit,
            cfg.window_ns,
            cfg.cooldown_ns,
            cfg.lock_timeout_ns,
            lookup(m, user),
            now,
        ),
    }
}

fn add_saturating(a: u64, b: u64) -> (r: u64)
    ensures
        r == sat_add(a, b),
{
    a.saturating_add(b)
}

/// Per-user claim states: attempts in the current window, cooldown and lock.
pub struct ClaimBook {
    pub states: KeyedStore<ClaimState>,
}

impl View for ClaimBook {
    type V = Map<Seq<char>, ClaimState>;

    open spec fn view(&self) -> Map<Seq<char>, ClaimState> {
        self.states@
    }
}

impl ClaimBook {
    pub open spec fn wf(&self) -> bool {
        self.states.wf()
    }

    pub fn new() -> (r: ClaimBook)
        ensures
            r.wf(),
            r@ == Map::<Seq<char>, ClaimState>::empty(),
    {
        ClaimBook { states: KeyedStore::new() }
    }

    fn state_of(&self, user: &String) -> (r: Option<ClaimState>)
        requires
            self.wf(),
        ensures
            r == lookup(self@, user@),
    {
        match self.states.get(user) {
            Some(s) => Some(*s),
            None => None,
        }
    }

    /// Checks authorisation and the guards for `user` at `now` and, when all
    /// pass, takes the lock, counts the attempt and starts the cooldown, all
    /// in one step. On refusal nothing changes.
    pub fn try_enter(&mut self, cfg: &ClaimConfig, caller: &String, user: &String, now: u64) -> (r:
        Result<(), ClaimError>)
        requires
            old(self).wf(),
        ensures
            final(self).wf(),
            match enter_outcome(cfg, old(self)@, caller@, user@, now) {
                Ok(s) => r is Ok && final(self)@ == old(self)@.insert(user@, s),
                Err(e) => r == Err::<(), ClaimError>(e) && final(self)@ == old(self)@,
            },
    {
        if *caller != *user && !contains_text(&cfg.wallets, caller) {
            return Err(ClaimError::Unauthorized);
        }
        let anonymous = String::from_str(ANONYMOUS);
        if *user == anonymous {
            return Err(ClaimError::InvalidPrincipal);
        }
        if contains_text(&cfg.denylist, user) {
            return Err(ClaimError::Denied);
        }
        let prev = self.state_of(user);
        let cooldown_until = match prev {
            Some(s) => s.cooldown_until,
            None => 0,
        };
        let locked_until = match prev {
            Some(s) => s.locked_until,
            None => 0,
        };
        let (attempts, expires) = match prev {
            Some(s) => if now > s.window_expires {
                (0u32, add_saturating(now, cfg.window_ns))
            } else {
                (s.attempts, s.window_expires)
            },
            None => (0u32, add_saturating(now, cfg.window_ns)),
        };
        if now < cooldown_until {
            return Err(ClaimError::Cooldown);
        }
        if attempts >= cfg.daily_limit {
            return Err(ClaimError::RateLimit);
        }
        if now < locked_until {
            return Err(ClaimError::InProgress);
        }
        let next = ClaimState {
            attempts: attempts + 1,
            window_expires: expires,
            locked_until: add_saturating(now, cfg.lock_timeout_ns),
            cooldown_until: add_saturating(now, cfg.cooldown_ns),
        };
        self.states.insert(user.clone(), next);
        Ok(())
    }

    /// Releases the lock of `user`; the rest of the state stays.
    pub fn release(&mut self, user: &String)
        requires
            old(self).wf(),
        ensures
            final(self).wf(),
            old(self)@.contains_key(user@) ==> final(self)@ == old(self)@.insert(
                user@,
                ClaimState { locked_until: 0, ..old(self)@[user@] },
            ),
            !old(self)@.contains_key(user@) ==> final(self)@ == old(self)@,
    {
        match self.state_of(user) {
            Some(s) => {
                self.states.insert(user.clone(), ClaimState { locked_until: 0, ..s });
            },
            None => {},
        }
    }

    /// What `get_claim_status` reports: the recorded attempts and window
    /// expiry (none and a window from `now` for an unknown user), and whether
    /// a lock is held at `now`.
    pub fn status(&self, cfg: &ClaimConfig, user: &String, now: u64) -> (r: ClaimStatus)
        requires
            self.wf(),
        ensures
            match lookup(self@, user@) {
                Some(s) => r.attempts == s.attempts && r.window_expires == s.window_expires
                    && r.locked == (now < s.locked_until),
                None => r.attempts == 0 && r.window_expires == sat_add(now, cfg.window_ns)
                    && !r.locked,
            },
    {
        match self.state_of(user) {
            Some(s) => ClaimStatus {
                attempts: s.attempts,
                window_expires: s.window_expires,
                locked: now < s.locked_until,
            },
            None => ClaimStatus {
                attempts: 0,
                window_expires: add_saturating(now, cfg.window_ns),
                locked: false,
            },
        }
    }
}

/// Claim state of one user as reported to callers.
pub struct ClaimStatus {
    pub attempts: u32,
    pub window_expires: u64,
    pub locked: bool,
}

/// Mutual exclusion: once a claim of `user` has entered at `t1`, no further
/// claim of that user enters before the lock times out, whoever calls. Where
/// the cooldown is zero and the window still has attempts, the refusal is
/// `InProgress`.
pub proof fn lemma_claim_exclusive(
    cfg: &ClaimConfig,
    m: Map<Seq<char>, ClaimState>,
    first_caller: Seq<char>,
    second_caller: Seq<char>,
    user: Seq<char>,
    t1: u64,
    t2: u64,
)
    requires
        enter_outcome(cfg, m, first_caller, user, t1) is Ok,
        t1 <= t2,
        t2 < sat_add(t1, cfg.lock_timeout_ns),
    ensures
        ({
            let s = enter_outcome(cfg, m, first_caller, user, t1)->Ok_0;
            let second = enter_outcome(cfg, m.insert(user, s), second_caller, user, t2);
            &&& second is Err
            &&& (cfg.cooldown_ns == 0 && s.attempts < cfg.daily_limit && authorise(
                texts(cfg.wallets@),
                texts(cfg.denylist@),
                second_caller,
                user,
            ) is Ok) ==> second == Err::<ClaimState, ClaimError>(ClaimError::InProgress)
        }),
{
    let s = enter_outcome(cfg, m, first_caller, user, t1)->Ok_0;
    assert(lookup(m.insert(user, s), user) == Some(s));
}

/// Rate limit: with the window's attempts used up, a call inside the window
/// that passes the cooldown is refused as `RateLimit`.
pub proof fn lemma_rate_limited(
    limit: u32,
    window: u64,
    cooldown: u64,
    lock_timeout: u64,
    s: ClaimState,
    now: u64,
)
    requires
        s.attempts >= limit,
        now <= s.window_expires,
        now >= s.cooldown_until,
    ensures
        admission(limit, window, cooldown, lock_timeout, Some(s), now) == Err::<ClaimState, ClaimError>(
            ClaimError::RateLimit,
        ),
{
}

/// Each entry inside a window counts one attempt, and a user's first entry
/// counts one: so the window's `limit + 1`-th call is refused.
pub proof fn lemma_entry_counts(
    limit: u32,
    window: u64,
    cooldown: u64,
    lock_timeout: u64,
    prev: Option<ClaimState>,
    now: u64,
)
    requires
        admission(limit, window, cooldown, lock_timeout, prev, now) is Ok,
    ensures
        ({
            let s = admission(limit, window, cooldown, lock_timeout, prev, now)->Ok_0;
            match prev {
                None => s.attempts == 1,
                Some(p) => if now <= p.window_expires {
                    s.attempts == p.attempts + 1 && s.window_expires == p.window_expires
                } else {
                    s.attempts == 1
                },
            }
        }),
{
}

/// Once the window has run out, a call past the cooldown and the lock passes
/// the guards again.
pub proof fn lemma_window_reopens(
    limit: u32,
    window: u64,
    cooldown: u64,
    lock_timeout: u64,
    s: ClaimState,
    now: u64,
)
    requires
        limit > 0,
        now > s.window_expires,
        now >= s.cooldown_until,
        now >= s.locked_until,
    ensures
        admission(limit, window, cooldown, lock_timeout, Some(s), now) is Ok,
{
}

/// How many of `n` registered adapters one claim call asks.
pub fn claim_adapter_count(n: usize, max_per_call: usize) -> (r: usize)
    ensures
        r == if n <= max_per_call { n } else { max_per_call },
{
    if n <= max_per_call {
        n
    } else {
        max_per_call
    }
}

/// The amounts claimed so far in one call and their total.
pub struct ClaimRun {
    pub total: u64,
    pub spent: Vec<u64>,
}

/// Sum of a list of amounts.
pub open spec fn sum_amounts(s: Seq<u64>) -> int
    decreases s.len(),
{
    if s.len() == 0 {
        0
    } else {
        sum_amounts(s.drop_last()) + s.last()
    }
}

impl ClaimRun {
    pub open spec fn wf(&self) -> bool {
        self.total == sum_amounts(self.spent@)
    }

    pub fn new() -> (r: ClaimRun)
        ensures
            r.wf(),
            r.total == 0,
            r.spent@.len() == 0,
    {
        ClaimRun { total: 0, spent: Vec::new() }
    }

    /// Whether another adapter is asked: only while the total is below the cap.
    pub fn wants_more(&self, max_total: u64) -> (r: bool)
        ensures
            r == (self.total < max_total),
    {
        self.total < max_total
    }

    /// Records the outcome of one adapter's claim. A failed or timed-out
    /// claim (`None`) is skipped; an amount that would take the total past
    /// `max_total` fails the whole call with `CapExceeded`.
    pub fn record(&mut self, outcome: Option<u64>, max_total: u64) -> (r: Result<(), ClaimError>)
        requires
            old(self).wf(),
        ensures
            final(self).wf(),
            match outcome {
                None => r is Ok && final(self).spent@ == old(self).spent@,
                Some(c) => if old(self).total + c > max_total {
                    r == Err::<(), ClaimError>(ClaimError::CapExceeded) && final(self).spent@
                        == old(self).spent@
                } else {
                    r is Ok && final(self).spent@ == old(self).spent@.push(c)
                },
            },
    {
        match outcome {
            None => Ok(()),
            Some(c) => {
                if c > max_total || self.total > max_total - c {
                    return Err(ClaimError::CapExceeded);
                }
                self.total = self.total + c;
                self.spent.push(c);
                proof {
                    assert(self.spent@.drop_last() =~= old(self).spent@);
                }
                Ok(())
            },
        }
    }
}

} // verus!
