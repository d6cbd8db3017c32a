//! Congestion control for one destination, after RFC 4960 section 7.
use vstd::prelude::*;

verus! {

#[derive(Debug, PartialEq, Eq, Clone, Copy, Structural)]
pub enum CongestionState {
    SlowStart,
    FastRecovery,
    CongestionAvoidance,
    LossRecovery,
}

/// The congestion state of one destination: the maximum data chunk size, the congestion
/// window, the slow start threshold and the bytes acknowledged towards the next window
/// increase.
pub struct PerDestinationInfo {
    pub state: CongestionState,
    pub pmcds: usize,
    pub cwnd: usize,
    pub ssthresh: usize,
    pub partial_bytes_acked: usize,
}

/// `a + b`, or `usize::MAX` if that is more.
pub open spec fn sat_add(a: int, b: int) -> usize {
    if a + b > usize::MAX {
        usize::MAX
    } else {
        (a + b) as usize
    }
}

/// The initial congestion window: `min(4 * pmcds, max(2 * pmcds, 4404))`.
pub open spec fn initial_cwnd(pmcds: usize) -> usize {
    let two = 2 * pmcds;
    let four = 4 * pmcds;
    let m = if two > 4404 {
        two
    } else {
        4404
    };
    (if four < m {
        four
    } else {
        m
    }) as usize
}

impl PerDestinationInfo {
    pub open spec fn wf(&self) -> bool {
        self.pmcds <= usize::MAX / 4
    }

    /// The state after a SACK that acknowledged `bytes_acked` bytes cumulatively and
    /// `partial_bytes_acked` in gap blocks, with `in_flight` bytes outstanding before it.
    pub open spec fn after_bytes_acked(
        self,
        partial_bytes_acked: usize,
        bytes_acked: usize,
        in_flight: usize,
    ) -> PerDestinationInfo {
        match self.state {
            CongestionState::FastRecovery | CongestionState::LossRecovery => {
                if bytes_acked > 0 {
                    PerDestinationInfo { state: CongestionState::SlowStart, ..self }
                } else {
                    self
                }
            },
            CongestionState::CongestionAvoidance => {
                let pba = sat_add(
                    self.partial_bytes_acked as int,
                    sat_add(bytes_acked as int, partial_bytes_acked as int) as int,
                );
                if pba >= self.cwnd {
                    if in_flight < self.cwnd {
                        PerDestinationInfo { partial_bytes_acked: self.cwnd, ..self }
                    } else {
                        PerDestinationInfo {
                            partial_bytes_acked: (pba - self.cwnd) as usize,
                            cwnd: sat_add(
                                self.cwnd as int,
                                if self.pmcds < 1000 {
                                    self.pmcds as int
                                } else {
                                    1000
                                },
                            ),
                            ..self
                        }
                    }
                } else {
                    PerDestinationInfo { partial_bytes_acked: pba, ..self }
                }
            },
            CongestionState::SlowStart => {
                let grown = if in_flight >= self.cwnd {
                    sat_add(
                        self.cwnd as int,
                        if 2 * self.pmcds > bytes_acked {
                            2 * self.pmcds
                        } else {
                            bytes_acked as int
                        },
                    )
                } else {
                    self.cwnd
                };
                if grown >= self.ssthresh {
                    PerDestinationInfo {
                        cwnd: self.ssthresh,
                        state: CongestionState::CongestionAvoidance,
                        ..self
                    }
                } else {
                    PerDestinationInfo { cwnd: grown, ..self }
                }
            },
        }
    }

    /// The state after fast recovery is entered.
    pub open spec fn after_fast_recovery(self) -> PerDestinationInfo {
        let ssthresh = self.cwnd / 2;
        PerDestinationInfo {
            ssthresh,
            cwnd: if ssthresh > initial_cwnd(self.pmcds) {
                ssthresh
            } else {
                initial_cwnd(self.pmcds)
            },
            state: CongestionState::FastRecovery,
            ..self
        }
    }

    /// The state after the retransmission timer expired.
    pub open spec fn after_rto_expired(self) -> PerDestinationInfo {
        PerDestinationInfo {
            ssthresh: self.cwnd / 2,
            cwnd: initial_cwnd(self.pmcds),
            state: CongestionState::LossRecovery,
            ..self
        }
    }

    /// Starts in slow start with the initial window, for a path MTU of `pmtu` bytes (12 of
    /// which are the packet header).
    pub fn new(pmtu: usize) -> (r: Self)
        requires
            12 <= pmtu <= usize::MAX / 4,
        ensures
            r.wf(),
            r.state == CongestionState::SlowStart,
            r.pmcds == pmtu - 12,
            r.cwnd == initial_cwnd((pmtu - 12) as usize),
            r.ssthresh == usize::MAX,
            r.partial_bytes_acked == 0,
    {
        let pmcds = pmtu - 12;
        Self {
            state: CongestionState::SlowStart,
            pmcds,
            cwnd: init_cwnd(pmcds),
            ssthresh: usize::MAX,
            partial_bytes_acked: 0,
        }
    }

    /// Adjusts the window to a SACK; counters that would overflow stop at `usize::MAX`.
    pub fn bytes_acked(
        &mut self,
        partial_bytes_acked: usize,
        bytes_acked: usize,
        in_flight_before_sack: usize,
    )
        requires
            old(self).wf(),
        ensures
            final(self).wf(),
            *final(self) == old(self).after_bytes_acked(
                partial_bytes_acked,
                bytes_acked,
                in_flight_before_sack,
            ),
    {
        match self.state {
            CongestionState::FastRecovery | CongestionState::LossRecovery => {
                if bytes_acked > 0 {
                    self.change_state(CongestionState::SlowStart);
                }
            },
            CongestionState::CongestionAvoidance => {
                self.partial_bytes_acked = self.partial_bytes_acked.saturating_add(
                    bytes_acked.saturating_add(partial_bytes_acked),
                );
                if self.partial_bytes_acked >= self.cwnd {
                    if in_flight_before_sack < self.cwnd {
                        self.partial_bytes_acked = self.cwnd;
                    } else {
                        self.partial_bytes_acked = self.partial_bytes_acked - self.cwnd;
                        let step = if self.pmcds < 1000 {
                            self.pmcds
                        } else {
                            1000
                        };
                        self.cwnd = self.cwnd.saturating_add(step);
                    }
                }
            },
            CongestionState::SlowStart => {
                if in_flight_before_sack >= self.cwnd {
                    let two = 2 * self.pmcds;
                    let step = if two > bytes_acked {
                        two
                    } else {
                        bytes_acked
                    };
                    self.cwnd = self.cwnd.saturating_add(step);
                }
                if self.cwnd >= self.ssthresh {
                    self.cwnd = self.ssthresh;
                    self.change_state(CongestionState::CongestionAvoidance);
                }
            },
        }
    }

    /// Halves the threshold and enters fast recovery.
    pub fn enter_fast_recovery(&mut self)
        requires
            old(self).wf(),
        ensures
            final(self).wf(),
            *final(self) == old(self).after_fast_recovery(),
    {
        self.ssthresh = self.cwnd / 2;
        let init = init_cwnd(self.pmcds);
        self.cwnd = if self.ssthresh > init {
            self.ssthresh
        } else {
            init
        };
        self.change_state(CongestionState::FastRecovery);
    }

    /// Halves the threshold, falls back to the initial window and enters loss recovery.
    pub fn rto_expired(&mut self)
        requires
            old(self).wf(),
        ensures
            final(self).wf(),
            *final(self) == old(self).after_rto_expired(),
    {
        self.ssthresh = self.cwnd / 2;
        self.cwnd = init_cwnd(self.pmcds);
        self.change_state(CongestionState::LossRecovery);
    }

    fn change_state(&mut self, state: CongestionState)
        ensures
            *final(self) == (PerDestinationInfo { state, ..*old(self) }),
    {
        self.state = state;
    }

    pub fn state(&self) -> (r: CongestionState)
        ensures
            r == self.state,
    {
        self.state
    }
}

fn init_cwnd(pmcds: usize) -> (r: usize)
    requires
        pmcds <= usize::MAX / 4,
    ensures
        r == initial_cwnd(pmcds),
{
    let two = 2 * pmcds;
    let four = 4 * pmcds;
    let m = if two > 4404 {
        two
    } else {
        4404
    };
    if four < m {
        four
    } else {
        m
    }
}

/// Congestion avoidance on acknowledgements: the acknowledged bytes (cumulative and in gap
/// blocks) add up towards the window. Once they reach a full window while the window was in
/// use, the window grows by one maximum chunk, but by at most 1000 bytes, so by exactly
/// `min(pmcds, 1000)` and strictly whenever chunks can carry data, and the count starts
/// again from what was over a window. Before that the window stays as it is; a window not in
/// use does not grow. The state and the slow start threshold stay.
pub proof fn lemma_congestion_avoidance_growth(
    c: PerDestinationInfo,
    gap_acked: usize,
    cum_acked: usize,
    in_flight: usize,
)
    requires
        c.state == CongestionState::CongestionAvoidance,
        c.partial_bytes_acked + cum_acked + gap_acked <= usize::MAX,
        c.cwnd + 1000 <= usize::MAX,
    ensures
        ({
            let r = c.after_bytes_acked(gap_acked, cum_acked, in_flight);
            let total = c.partial_bytes_acked + cum_acked + gap_acked;
            &&& r.state == CongestionState::CongestionAvoidance
            &&& r.ssthresh == c.ssthresh
            &&& r.pmcds == c.pmcds
            &&& total >= c.cwnd && in_flight >= c.cwnd ==> {
                &&& c.pmcds < 1000 ==> r.cwnd == c.cwnd + c.pmcds
                &&& c.pmcds >= 1000 ==> r.cwnd == c.cwnd + 1000
                &&& c.pmcds > 0 ==> r.cwnd > c.cwnd
                &&& r.partial_bytes_acked == total - c.cwnd
            }
            &&& total >= c.cwnd && in_flight < c.cwnd ==> r.cwnd == c.cwnd
            &&& total < c.cwnd ==> r.cwnd == c.cwnd && r.partial_bytes_acked == total
        }),
{
}

} // verus!
