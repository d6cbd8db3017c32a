//! Path MTU probing with heartbeats of growing size, after RFC 8899.
use vstd::prelude::*;

use crate::assoc::srtt::{time_add, MILLIS};

verus! {

/// The probe state: the size tested last, the largest size that got through, whether the
/// last probe got through and whether one is under way.
pub struct PmtuProbe {
    pub last_tested_size: usize,
    pub highest_successful: usize,
    pub last_success: bool,
    pub probe_in_flight: bool,
}

/// How much each probe grows: 2 KiB.
pub const PROBE_STEP_SIZE: usize = 2048;

/// A call that changes the probe state.
pub enum PmtuEvent {
    /// `next_probe_size`
    NextProbe,
    /// `probe_success` with the size of the probe.
    Success(usize),
    /// `probe_timed_out`
    TimedOut,
}

/// The largest of `start` and the sizes of the successful probes in `es`.
pub open spec fn largest_success(es: Seq<PmtuEvent>, start: usize) -> usize
    decreases es.len(),
{
    if es.len() == 0 {
        start
    } else {
        let m = largest_success(es.drop_last(), start);
        match es.last() {
            PmtuEvent::Success(size) => if m > size {
                m
            } else {
                size
            },
            _ => m,
        }
    }
}

impl PmtuProbe {
    /// The state after one call.
    pub open spec fn after_event(self, e: PmtuEvent) -> PmtuProbe {
        match e {
            PmtuEvent::NextProbe => self.after_next_probe_size(),
            PmtuEvent::Success(size) => self.after_success(size),
            PmtuEvent::TimedOut => self.after_timed_out(),
        }
    }

    /// The state after the calls `es`, in order.
    pub open spec fn after_events(self, es: Seq<PmtuEvent>) -> PmtuProbe
        decreases es.len(),
    {
        if es.len() == 0 {
            self
        } else {
            self.after_events(es.drop_last()).after_event(es.last())
        }
    }

    /// The size of the next probe: one step above the last size tested, at most
    /// `usize::MAX`.
    pub open spec fn spec_next_probe_size(self) -> usize {
        if self.last_tested_size + PROBE_STEP_SIZE > usize::MAX {
            usize::MAX
        } else {
            (self.last_tested_size + PROBE_STEP_SIZE) as usize
        }
    }

    /// The state once the next probe is under way.
    pub open spec fn after_next_probe_size(self) -> PmtuProbe {
        PmtuProbe {
            last_tested_size: self.spec_next_probe_size(),
            probe_in_flight: true,
            ..self
        }
    }

    /// The state after a probe of `size` bytes got through.
    pub open spec fn after_success(self, size: usize) -> PmtuProbe {
        PmtuProbe {
            highest_successful: if self.highest_successful > size {
                self.highest_successful
            } else {
                size
            },
            last_success: true,
            probe_in_flight: false,
            ..self
        }
    }

    /// The state after a probe was lost: the next one is a little smaller than the last
    /// (the size stops at zero).
    pub open spec fn after_timed_out(self) -> PmtuProbe {
        PmtuProbe {
            last_tested_size: if self.last_tested_size >= PROBE_STEP_SIZE + 128 {
                (self.last_tested_size - (PROBE_STEP_SIZE + 128)) as usize
            } else {
                0
            },
            last_success: false,
            probe_in_flight: false,
            ..self
        }
    }

    /// When to probe next after `now`: 100 ms after a success, 2 s after a loss.
    pub open spec fn spec_next_probe(self, now: u64) -> u64 {
        time_add(
            now,
            if self.last_success {
                (100 * MILLIS) as u64
            } else {
                (2000 * MILLIS) as u64
            },
        )
    }

    /// Starts from 1200 bytes, which are known to get through.
    pub fn new() -> (r: Self)
        ensures
            r == (PmtuProbe {
                last_tested_size: 1200,
                highest_successful: 1200,
                last_success: true,
                probe_in_flight: false,
            }),
    {
        Self {
            last_tested_size: 1200,
            highest_successful: 1200,
            last_success: true,
            probe_in_flight: false,
        }
    }

    /// The largest size known to get through.
    pub fn get_pmtu(&self) -> (r: usize)
        ensures
            r == self.highest_successful,
    {
        self.highest_successful
    }

    pub fn probe_in_flight(&self) -> (r: bool)
        ensures
            r == self.probe_in_flight,
    {
        self.probe_in_flight
    }

    /// The size of the next probe; a probe is under way afterwards.
    pub fn next_probe_size(&mut self) -> (r: usize)
        ensures
            r == old(self).spec_next_probe_size(),
            *final(self) == old(self).after_next_probe_size(),
    {
        let probe_size = self.last_tested_size.saturating_add(PROBE_STEP_SIZE);
        self.last_tested_size = probe_size;
        self.probe_in_flight = true;
        probe_size
    }

    /// A probe of `size` bytes got through.
    pub fn probe_success(&mut self, size: usize)
        ensures
            *final(self) == old(self).after_success(size),
    {
        self.highest_successful = if self.highest_successful > size {
            self.highest_successful
        } else {
            size
        };
        self.last_success = true;
        self.probe_in_flight = false;
    }

    /// The probe was lost.
    pub fn probe_timed_out(&mut self)
        ensures
            *final(self) == old(self).after_timed_out(),
    {
        self.last_tested_size = self.last_tested_size.saturating_sub(PROBE_STEP_SIZE + 128);
        self.last_success = false;
        self.probe_in_flight = false;
    }

    /// When to probe next after `now`.
    pub fn next_probe(&self, now: u64) -> (r: u64)
        ensures
            r == self.spec_next_probe(now),
    {
        if self.last_success {
            now.saturating_add(100 * MILLIS)
        } else {
            now.saturating_add(2000 * MILLIS)
        }
    }
}

/// The size known to get through is, after any calls, the largest of what it was and the
/// sizes of the probes that got through since: from `new` at least 1200 bytes, and it never
/// decreases from one call to the next.
pub proof fn lemma_pmtu_largest_success(p: PmtuProbe, es: Seq<PmtuEvent>, k: int)
    requires
        0 <= k <= es.len(),
    ensures
        p.after_events(es).highest_successful == largest_success(es, p.highest_successful),
        p.after_events(es).highest_successful >= p.highest_successful,
        p.after_events(es.take(k)).highest_successful <= p.after_events(es).highest_successful,
    decreases es.len(),
{
    if es.len() > 0 {
        let init = es.drop_last();
        if k < es.len() {
            assert(es.take(k) =~= init.take(k));
            lemma_pmtu_largest_success(p, init, k);
        } else {
            assert(es.take(k) =~= es);
            lemma_pmtu_largest_success(p, init, 0);
        }
    }
}

} // verus!
