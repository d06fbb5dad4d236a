use vstd::prelude::*;
use crate::amount::{dec_digits, format_amount};
use crate::lp_cache::age;
use crate::text::texts;
use crate::time::MINUTE_NS;
use crate::user_settings::copy_texts;

verus! {

/// Balance below which a top-up is asked for.
pub const MIN_BALANCE: u128 = 500_000_000_000;

/// Longest back-off, in minutes, unless configured otherwise.
pub const DEFAULT_MAX_BACKOFF_MINUTES: u64 = 60;

/// The back-off cap in force: the configured one, or the default.
pub fn max_backoff_minutes(configured: Option<u64>) -> (r: u64)
    ensures
        r == match configured {
            Some(m) => m,
            None => DEFAULT_MAX_BACKOFF_MINUTES,
        },
{
    match configured {
        Some(m) => m,
        None => DEFAULT_MAX_BACKOFF_MINUTES,
    }
}

/// Minutes of back-off after `failures` failures in a row:
/// `min(2^min(failures, 6), max(cap, 1))`.
pub open spec fn backoff_minutes(failures: u8, cap: u64) -> u64 {
    let exp = if failures < 6 { failures as nat } else { 6 };
    let grow = vstd::arithmetic::power2::pow2(exp) as u64;
    let limit = if cap >= 1 { cap } else { 1 };
    if grow <= limit { grow } else { limit }
}

fn backoff_for(failures: u8, cap: u64) -> (r: u64)
    ensures
        r == backoff_minutes(failures, cap),
        r >= 1,
        r <= 64,
{
    proof {
        vstd::arithmetic::power2::lemma2_to64();
    }
    let exp: u8 = if failures < 6 { failures } else { 6 };
    let grow: u64 = if exp == 0 {
        1
    } else if exp == 1 {
        2
    } else if exp == 2 {
        4
    } else if exp == 3 {
        8
    } else if exp == 4 {
        16
    } else if exp == 5 {
        32
    } else {
        64
    };
    let limit = if cap >= 1 { cap } else { 1 };
    if grow <= limit { grow } else { limit }
}

/// `a + b`, saturating.
pub open spec fn sat_add64(a: u64, b: u64) -> u64 {
    if a + b > u64::MAX { u64::MAX } else { (a + b) as u64 }
}

/// The log line of a successful top-up.
pub open spec fn refilled_line(now: u64, after: u128) -> Seq<char> {
    dec_digits(now as nat) + ": refilled to "@ + dec_digits(after as nat)
}

/// The log line of a failed top-up.
pub open spec fn failed_line(now: u64, minutes: u64) -> Seq<char> {
    dec_digits(now as nat) + ": refill failed, backoff "@ + dec_digits(minutes as nat) + "m"@
}

/// State of the loop that keeps the process's resource balance topped up.
pub struct CyclesMaintainer {
    pub last_check: u64,
    pub backoff_until: u64,
    pub failures: u8,
    pub log: Vec<String>,
}

impl CyclesMaintainer {
    pub fn new() -> (r: CyclesMaintainer)
        ensures
            r.last_check == 0 && r.backoff_until == 0 && r.failures == 0 && r.log@.len() == 0,
    {
        CyclesMaintainer { last_check: 0, backoff_until: 0, failures: 0, log: Vec::new() }
    }

    /// Whether this heartbeat checks the balance: not during a back-off, and
    /// at most once a minute. A check records `now` as its time.
    pub fn begin_tick(&mut self, now: u64) -> (r: bool)
        ensures
            r == (now >= old(self).backoff_until && age(now, old(self).last_check) >= MINUTE_NS),
            r ==> final(self).last_check == now,
            !r ==> final(self).last_check == old(self).last_check,
            final(self).backoff_until == old(self).backoff_until,
            final(self).failures == old(self).failures,
            final(self).log@ == old(self).log@,
    {
        if now < self.backoff_until {
            return false;
        }
        let a = if now >= self.last_check { now - self.last_check } else { 0 };
        if a >= MINUTE_NS {
            self.last_check = now;
            true
        } else {
            false
        }
    }

    /// Records the outcome of a top-up call made at `now`: it succeeded if
    /// the call returned and the balance grew. Success clears the failures
    /// and the back-off; failure counts one more and backs off for
    /// `backoff_minutes`. Either way a line is logged.
    pub fn record_refill(&mut self, now: u64, call_ok: bool, before: u128, after: u128, cap: u64)
        ensures
            (call_ok && after > before) ==> final(self).failures == 0 && final(self).backoff_until
                == now && texts(final(self).log@) == texts(old(self).log@).push(
                refilled_line(now, after),
            ),
            !(call_ok && after > before) ==> {
                let f = if old(self).failures < u8::MAX {
                    (old(self).failures + 1) as u8
                } else {
                    u8::MAX
                };
                let m = backoff_minutes(f, cap);
                &&& final(self).failures == f
                &&& final(self).backoff_until == sat_add64(now, (m * MINUTE_NS) as u64)
                &&& texts(final(self).log@) == texts(old(self).log@).push(failed_line(now, m))
            },
            final(self).last_check == old(self).last_check,
    {
        proof {
            reveal_strlit(": refilled to ");
            reveal_strlit(": refill failed, backoff ");
            reveal_strlit("m");
        }
        if call_ok && after > before {
            self.failures = 0;
            self.backoff_until = now;
            let line = format_amount(now as u128, 0).concat(": refilled to ").concat(
                format_amount(after, 0).as_str(),
            );
            self.log.push(line);
            proof {
                assert(texts(self.log@) =~= texts(old(self).log@).push(refilled_line(now, after)));
            }
        } else {
            let f: u8 = if self.failures < u8::MAX { self.failures + 1 } else { u8::MAX };
            self.failures = f;
            let m = backoff_for(f, cap);
            self.backoff_until = now.saturating_add(m * MINUTE_NS);
            let line = format_amount(now as u128, 0).concat(": refill failed, backoff ").concat(
                format_amount(m as u128, 0).as_str(),
            ).concat("m");
            self.log.push(line);
            proof {
                assert(texts(self.log@) =~= texts(old(self).log@).push(failed_line(now, m)));
            }
        }
    }

    /// A copy of the log.
    pub fn log(&self) -> (r: Vec<String>)
        ensures
            texts(r@) == texts(self.log@),
    {
        copy_texts(&self.log)
    }

    /// Hands out the log and empties it.
    pub fn take_log(&mut self) -> (r: Vec<String>)
        ensures
            texts(r@) == texts(old(self).log@),
            final(self).log@.len() == 0,
            final(self).last_check == old(self).last_check,
            final(self).backoff_until == old(self).backoff_until,
            final(self).failures == old(self).failures,
    {
        let r = copy_texts(&self.log);
        self.log = Vec::new();
        r
    }

    /// Replaces the log, as a restore after restart does.
    pub fn set_log(&mut self, log: Vec<String>)
        ensures
            final(self).log@ == log@,
            final(self).last_check == old(self).last_check,
            final(self).backoff_until == old(self).backoff_until,
            final(self).failures == old(self).failures,
    {
        self.log = log;
    }
}

/// Whether the balance calls for a top-up.
pub fn needs_refill(balance: u128) -> (r: bool)
    ensures
        r == (balance < MIN_BALANCE),
{
    balance < MIN_BALANCE
}

} // verus!
