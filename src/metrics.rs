use vstd::prelude::*;

verus! {

/// `x + y` modulo `2^64`, as an atomic counter adds.
pub open spec fn wrapped_add(x: u64, y: u64) -> u64 {
    if x + y > u64::MAX {
        (x + y - 0x1_0000_0000_0000_0000) as u64
    } else {
        (x + y) as u64
    }
}

fn add_wrapping(x: u64, y: u64) -> (r: u64)
    ensures
        r == wrapped_add(x, y),
{
    if x > u64::MAX - y {
        y - (u64::MAX - x) - 1
    } else {
        x + y
    }
}

/// Monotonic counters of the service.
#[derive(Clone, Copy, Debug, PartialEq, Eq)]
pub struct Counters {
    pub query_count: u64,
    pub heartbeat_count: u64,
    pub last_heartbeat: u64,
    pub claim_attempts: u64,
    pub claim_successes: u64,
    pub cycle_refill_attempts: u64,
    pub cycle_refill_successes: u64,
}

/// Resource balance now, and what callers have paid in.
#[derive(Clone, Copy, Debug, PartialEq, Eq)]
pub struct CycleUsage {
    pub current: u128,
    pub collected: u64,
}

/// Sizes of the caches.
#[derive(Clone, Copy, Debug, PartialEq, Eq)]
pub struct Caches {
    pub holdings: usize,
    pub lp: usize,
    pub metadata: usize,
}

/// A snapshot of counters and gauges.
#[derive(Clone, Copy, Debug, PartialEq, Eq)]
pub struct Metrics {
    pub counters: Counters,
    pub cycles: CycleUsage,
    pub caches: Caches,
}

/// The persisted form of the counters: queries, heartbeats, last heartbeat,
/// claim attempts, claim successes, refill attempts, refill successes and
/// resources collected.
pub type StableCounters = (u64, u64, u64, u64, u64, u64, u64, u64);

/// The persisted form of `m`.
pub open spec fn saved_counters(m: MetricsRecorder) -> StableCounters {
    (
        m.counters.query_count,
        m.counters.heartbeat_count,
        m.counters.last_heartbeat,
        m.counters.claim_attempts,
        m.counters.claim_successes,
        m.counters.cycle_refill_attempts,
        m.counters.cycle_refill_successes,
        m.collected,
    )
}

/// The counters that a persisted form gives back.
pub open spec fn restored_counters(d: StableCounters) -> MetricsRecorder {
    MetricsRecorder {
        counters: Counters {
            query_count: d.0,
            heartbeat_count: d.1,
            last_heartbeat: d.2,
            claim_attempts: d.3,
            claim_successes: d.4,
            cycle_refill_attempts: d.5,
            cycle_refill_successes: d.6,
        },
        collected: d.7,
    }
}

/// The counters that the service keeps.
#[derive(Clone, Copy, Debug, PartialEq, Eq)]
pub struct MetricsRecorder {
    pub counters: Counters,
    pub collected: u64,
}

impl MetricsRecorder {
    pub fn new() -> (r: MetricsRecorder)
        ensures
            r.counters == (Counters {
                query_count: 0,
                heartbeat_count: 0,
                last_heartbeat: 0,
                claim_attempts: 0,
                claim_successes: 0,
                cycle_refill_attempts: 0,
                cycle_refill_successes: 0,
            }),
            r.collected == 0,
    {
        MetricsRecorder {
            counters: Counters {
                query_count: 0,
                heartbeat_count: 0,
                last_heartbeat: 0,
                claim_attempts: 0,
                claim_successes: 0,
                cycle_refill_attempts: 0,
                cycle_refill_successes: 0,
            },
            collected: 0,
        }
    }

    pub fn inc_query(&mut self)
        ensures
            *final(self) == (MetricsRecorder {
                counters: Counters {
                    query_count: wrapped_add(old(self).counters.query_count, 1),
                    ..old(self).counters
                },
                ..*old(self)
            }),
    {
        self.counters.query_count = add_wrapping(self.counters.query_count, 1);
    }

    pub fn inc_claim_attempt(&mut self)
        ensures
            *final(self) == (MetricsRecorder {
                counters: Counters {
                    claim_attempts: wrapped_add(old(self).counters.claim_attempts, 1),
                    ..old(self).counters
                },
                ..*old(self)
            }),
    {
        self.counters.claim_attempts = add_wrapping(self.counters.claim_attempts, 1);
    }

    pub fn inc_claim_success(&mut self)
        ensures
            *final(self) == (MetricsRecorder {
                counters: Counters {
                    claim_successes: wrapped_add(old(self).counters.claim_successes, 1),
                    ..old(self).counters
                },
                ..*old(self)
            }),
    {
        self.counters.claim_successes = add_wrapping(self.counters.claim_successes, 1);
    }

    pub fn inc_cycle_refill_attempt(&mut self)
        ensures
            *final(self) == (MetricsRecorder {
                counters: Counters {
                    cycle_refill_attempts: wrapped_add(old(self).counters.cycle_refill_attempts, 1),
                    ..old(self).counters
                },
                ..*old(self)
            }),
    {
        self.counters.cycle_refill_attempts = add_wrapping(self.counters.cycle_refill_attempts, 1);
    }

    pub fn inc_cycle_refill_success(&mut self)
        ensures
            *final(self) == (MetricsRecorder {
                counters: Counters {
                    cycle_refill_successes: wrapped_add(old(self).counters.cycle_refill_successes, 1),
                    ..old(self).counters
                },
                ..*old(self)
            }),
    {
        self.counters.cycle_refill_successes = add_wrapping(
            self.counters.cycle_refill_successes,
            1,
        );
    }

    /// Adds what a caller paid, taken modulo `2^64` as the counter is 64 bits.
    pub fn add_cycles_collected(&mut self, amount: u128)
        ensures
            *final(self) == (MetricsRecorder {
                collected: wrapped_add(old(self).collected, (amount % 0x1_0000_0000_0000_0000) as u64),
                ..*old(self)
            }),
    {
        let low = (amount % 0x1_0000_0000_0000_0000u128) as u64;
        self.collected = add_wrapping(self.collected, low);
    }

    /// Counts a heartbeat at `now`.
    pub fn inc_heartbeat(&mut self, now: u64)
        ensures
            *final(self) == (MetricsRecorder {
                counters: Counters {
                    heartbeat_count: wrapped_add(old(self).counters.heartbeat_count, 1),
                    last_heartbeat: now,
                    ..old(self).counters
                },
                ..*old(self)
            }),
    {
        self.counters.heartbeat_count = add_wrapping(self.counters.heartbeat_count, 1);
        self.counters.last_heartbeat = now;
    }

    /// A snapshot, with the gauges read at the time.
    pub fn get(&self, current: u128, caches: Caches) -> (r: Metrics)
        ensures
            r == (Metrics {
                counters: self.counters,
                cycles: CycleUsage { current, collected: self.collected },
                caches,
            }),
    {
        Metrics {
            counters: self.counters,
            cycles: CycleUsage { current, collected: self.collected },
            caches,
        }
    }

    /// The counters in persisted form.
    pub fn stable_save(&self) -> (r: StableCounters)
        ensures
            r == saved_counters(*self),
    {
        (
            self.counters.query_count,
            self.counters.heartbeat_count,
            self.counters.last_heartbeat,
            self.counters.claim_attempts,
            self.counters.claim_successes,
            self.counters.cycle_refill_attempts,
            self.counters.cycle_refill_successes,
            self.collected,
        )
    }

    /// Counters from their persisted form.
    pub fn stable_restore(data: StableCounters) -> (r: MetricsRecorder)
        ensures
            r == restored_counters(data),
    {
        MetricsRecorder {
            counters: Counters {
                query_count: data.0,
                heartbeat_count: data.1,
                last_heartbeat: data.2,
                claim_attempts: data.3,
                claim_successes: data.4,
                cycle_refill_attempts: data.5,
                cycle_refill_successes: data.6,
            },
            collected: data.7,
        }
    }
}

/// Stable round trip of the counters: what `stable_save` writes,
/// `stable_restore` reads back unchanged.
pub proof fn lemma_metrics_round_trip(m: MetricsRecorder)
    ensures
        restored_counters(saved_counters(m)) == m,
{
}

} // verus!
