//! The pace of the drain loop: when to sync, when to flush, how long to spin.
//!
//! The loop that drains runs one pass after the other until shutdown. A pass
//! starts with [`Pacing::begin_pass`], polls the rings, and ends with
//! [`Pacing::end_pass`], which says what to do before the next one.

use vstd::prelude::*;

verus! {

/// Spin batch used when the drain is freshly idle or has just done work.
pub const SPIN_MIN: u32 = 8;

/// Upper bound on the spin batch. Caps worst-case wakeup latency.
pub const SPIN_CAP: u32 = 256;

/// Re-scan the ring registry once every this many passes. Divides the range of
/// the free-running counter, which so stays aligned across its wrap.
pub const SYNC_EVERY: u32 = 1024;

/// The pace of the drain loop.
#[derive(Debug, Clone, Copy, PartialEq, Eq, Structural)]
pub struct Pacing {
    /// The next spin batch.
    pub spin: u32,
    /// Free-running count of the passes.
    pub since_sync: u32,
    /// Set when a pass handed over records and cleared by the flush that
    /// follows the drain going idle, so that a buffered sink is flushed exactly
    /// once per busy-then-idle transition.
    pub dirty: bool,
}

/// What to do between two passes.
#[derive(Debug, Clone, Copy, PartialEq, Eq, Structural)]
pub struct Pause {
    /// Flush the sink.
    pub flush: bool,
    /// Spin this many times.
    pub spins: u32,
}

impl Pacing {
    /// Whether the spin batch is within its bounds.
    pub open spec fn wf(self) -> bool {
        SPIN_MIN <= self.spin <= SPIN_CAP
    }

    /// Whether the next pass syncs the rings with the registry.
    pub open spec fn sync_due(self) -> bool {
        self.since_sync % SYNC_EVERY == 0
    }

    /// The pace at the start of a pass.
    pub open spec fn begun(self) -> Pacing {
        Pacing {
            since_sync: if self.since_sync == u32::MAX {
                0
            } else {
                (self.since_sync + 1) as u32
            },
            ..self
        }
    }

    /// The pace after a pass.
    pub open spec fn ended(self, had_work: bool) -> Pacing {
        if had_work {
            Pacing { spin: SPIN_MIN, dirty: true, ..self }
        } else {
            Pacing {
                spin: if 2 * self.spin > SPIN_CAP {
                    SPIN_CAP
                } else {
                    (2 * self.spin) as u32
                },
                dirty: false,
                ..self
            }
        }
    }

    /// What to do after a pass: nothing where there was work, otherwise flush
    /// if something was handed over since the last flush, and spin.
    pub open spec fn pause(self, had_work: bool) -> Pause {
        if had_work {
            Pause { flush: false, spins: 0 }
        } else {
            Pause { flush: self.dirty, spins: self.spin }
        }
    }

    /// The pace of a drain that has just started.
    pub fn new() -> (p: Pacing)
        ensures
            p == (Pacing { spin: SPIN_MIN, since_sync: 0, dirty: false }),
            p.wf(),
    {
        Pacing { spin: SPIN_MIN, since_sync: 0, dirty: false }
    }

    /// Starts a pass. Returns whether to sync the rings with the registry.
    pub fn begin_pass(&mut self) -> (sync: bool)
        ensures
            sync == old(self).sync_due(),
            *final(self) == old(self).begun(),
    {
        let sync: bool = self.since_sync % SYNC_EVERY == 0;
        self.since_sync = self.since_sync.wrapping_add(1);
        sync
    }

    /// Ends a pass that found work or did not. Returns what to do before the
    /// next one.
    pub fn end_pass(&mut self, had_work: bool) -> (pause: Pause)
        requires
            old(self).wf(),
        ensures
            final(self).wf(),
            *final(self) == old(self).ended(had_work),
            pause == old(self).pause(had_work),
    {
        if had_work {
            self.spin = SPIN_MIN;
            self.dirty = true;
            return Pause { flush: false, spins: 0 };
        }
        let pause = Pause { flush: self.dirty, spins: self.spin };
        self.dirty = false;
        self.spin = if 2 * self.spin > SPIN_CAP {
            SPIN_CAP
        } else {
            2 * self.spin
        };
        pause
    }
}

/// The pace after `n` passes have begun.
pub open spec fn begun_times(p: Pacing, n: nat) -> Pacing
    decreases n,
{
    if n == 0 {
        p
    } else {
        begun_times(p, (n - 1) as nat).begun()
    }
}

/// The syncs are evenly spaced: the pass `n` after one that syncs does so again
/// exactly where `n` is a multiple of [`SYNC_EVERY`], also when the counter
/// wraps.
pub proof fn syncs_are_evenly_spaced(p: Pacing, n: nat)
    requires
        p.sync_due(),
    ensures
        begun_times(p, n).sync_due() <==> n % (SYNC_EVERY as nat) == 0,
        begun_times(p, n).since_sync % SYNC_EVERY == n % (SYNC_EVERY as nat),
    decreases n,
{
    if n > 0 {
        syncs_are_evenly_spaced(p, (n - 1) as nat);
    }
}

/// A sink is flushed once when the drain goes idle, and not again before more
/// records were handed over.
pub proof fn flushed_once_per_burst(p: Pacing)
    ensures
        p.ended(true).pause(false).flush,
        !p.ended(false).pause(false).flush,
        !p.pause(true).flush,
{
}

} // verus!
