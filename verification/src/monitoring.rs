//! When the monitoring loop persists what it collects: the metrics every sixth tick
//! (thirty seconds at the five-second tick) and old records pruned once a day.

use vstd::prelude::*;

verus! {

/// Ticks between two saves of the metrics.
pub const SAVE_INTERVAL_TICKS: u32 = 6;

/// Ticks between two prunings of old records (a day of five-second ticks).
pub const CLEANUP_INTERVAL_TICKS: u32 = 17280;

/// What the loop persists at one tick.
pub struct TickWork {
    pub save_metrics: bool,
    pub cleanup: bool,
}

/// Counts the ticks since the last save and the last pruning.
pub struct PersistSchedule {
    save_counter: u32,
    cleanup_counter: u32,
}

impl PersistSchedule {
    /// Ticks since the last save and since the last pruning.
    pub closed spec fn counters(&self) -> (u32, u32) {
        (self.save_counter, self.cleanup_counter)
    }

    pub closed spec fn wf(&self) -> bool {
        self.save_counter < SAVE_INTERVAL_TICKS && self.cleanup_counter < CLEANUP_INTERVAL_TICKS
    }

    pub fn new() -> (r: Self)
        ensures
            r.wf(),
            r.counters() == (0u32, 0u32),
    {
        PersistSchedule { save_counter: 0, cleanup_counter: 0 }
    }

    /// One tick with a store to persist to: counts it, and says whether the metrics are
    /// saved and old records pruned now (each restarts its count).
    pub fn tick(&mut self) -> (r: TickWork)
        requires
            old(self).wf(),
        ensures
            final(self).wf(),
            r.save_metrics == (old(self).counters().0 + 1 == SAVE_INTERVAL_TICKS),
            r.cleanup == (old(self).counters().1 + 1 == CLEANUP_INTERVAL_TICKS),
            final(self).counters().0 == (if r.save_metrics { 0 } else { old(self).counters().0 + 1 }),
            final(self).counters().1 == (if r.cleanup { 0 } else { old(self).counters().1 + 1 }),
    {
        self.save_counter = self.save_counter + 1;
        let save_metrics = self.save_counter >= SAVE_INTERVAL_TICKS;
        if save_metrics {
            self.save_counter = 0;
        }
        self.cleanup_counter = self.cleanup_counter + 1;
        let cleanup = self.cleanup_counter >= CLEANUP_INTERVAL_TICKS;
        if cleanup {
            self.cleanup_counter = 0;
        }
        TickWork { save_metrics, cleanup }
    }
}

/// Counted from a fresh schedule, the `n`-th tick (from 1) saves exactly when `n` is a
/// multiple of `SAVE_INTERVAL_TICKS` and prunes exactly when it is a multiple of
/// `CLEANUP_INTERVAL_TICKS`: a schedule that has seen `n - 1` ticks holds their
/// remainders, and the tick keeps that so.
pub proof fn law_saves_and_prunes_on_multiples(save_counter: u32, cleanup_counter: u32, n: int)
    requires
        n >= 1,
        save_counter == (n - 1) % (SAVE_INTERVAL_TICKS as int),
        cleanup_counter == (n - 1) % (CLEANUP_INTERVAL_TICKS as int),
    ensures
        (save_counter + 1 == SAVE_INTERVAL_TICKS) == (n % (SAVE_INTERVAL_TICKS as int) == 0),
        (if save_counter + 1 == SAVE_INTERVAL_TICKS { 0 } else { save_counter + 1 }) == n % (
        SAVE_INTERVAL_TICKS as int),
        (cleanup_counter + 1 == CLEANUP_INTERVAL_TICKS) == (n % (CLEANUP_INTERVAL_TICKS as int) == 0),
        (if cleanup_counter + 1 == CLEANUP_INTERVAL_TICKS { 0 } else { cleanup_counter + 1 }) == n % (
        CLEANUP_INTERVAL_TICKS as int),
{
    lemma_next_remainder((n - 1) as int, 6);
    lemma_next_remainder((n - 1) as int, 17280);
}

proof fn lemma_next_remainder(a: int, m: int)
    requires
        a >= 0,
        m > 1,
    ensures
        (a + 1) % m == (if a % m + 1 == m { 0 } else { a % m + 1 }),
{
    vstd::arithmetic::div_mod::lemma_add_mod_noop(a, 1, m);
    vstd::arithmetic::div_mod::lemma_small_mod(1, m as nat);
    vstd::arithmetic::div_mod::lemma_mod_pos_bound(a, m);
    let r = a % m;
    if r + 1 == m {
        vstd::arithmetic::div_mod::lemma_mod_self_0(m);
    } else {
        vstd::arithmetic::div_mod::lemma_small_mod((r + 1) as nat, m as nat);
    }
}

} // verus!
