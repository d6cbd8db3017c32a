//! Smoothed round-trip time and retransmission timeout, after RFC 2988.
//! Times are nanoseconds.
use vstd::prelude::*;

use crate::packet::serial::tsn_order;
use crate::packet::Tsn;

verus! {

/// The largest time this library works with: about 146 years of nanoseconds.
pub const TIME_LIMIT: u64 = 0x4000_0000_0000_0000;

/// One millisecond in nanoseconds.
pub const MILLIS: u64 = 1_000_000;

/// The upper bound of the retransmission timeout: 200 ms.
pub const RTO_MAX: u64 = 200_000_000;

/// The retransmission timeout before the first measurement: 3 s.
pub const RTO_INITIAL: u64 = 3_000_000_000;

/// `a + b` for times, at most `u64::MAX`.
pub open spec fn time_add(a: u64, b: u64) -> u64 {
    if a + b > u64::MAX {
        u64::MAX
    } else {
        (a + b) as u64
    }
}

/// The distance between two times.
pub open spec fn abs_diff(a: int, b: int) -> int {
    if a >= b {
        a - b
    } else {
        b - a
    }
}

/// The timeout from the smoothed round-trip time and its variation: `srtt + 4 * rttvar`,
/// kept between 1 ms and 200 ms.
pub open spec fn rto_of(srtt: int, rttvar: int) -> int {
    let v = srtt + 4 * rttvar;
    if v < MILLIS {
        MILLIS as int
    } else if v > RTO_MAX {
        RTO_MAX as int
    } else {
        v
    }
}

/// Smoothed round-trip time measurement: one TSN at a time is timed from its sending to its
/// acknowledgement.
#[derive(Debug, Clone, Copy)]
pub struct Srtt {
    pub uninited: bool,
    pub measure_for_tsn: Option<(Tsn, u64)>,
    pub srtt: u64,
    pub rttvar: i64,
    pub rto: u64,
}

impl Srtt {
    /// The values stay within the ranges the arithmetic is proved for.
    pub open spec fn wf(&self) -> bool {
        &&& self.srtt <= TIME_LIMIT
        &&& 0 <= self.rttvar <= TIME_LIMIT
        &&& self.rto <= RTO_MAX
        &&& !self.uninited ==> MILLIS <= self.rto
    }

    /// The state after a measurement of `m` nanoseconds. The first one sets the smoothed
    /// round-trip time to `m` and the variation to `m / 2`; a later one sets the variation to
    /// `3/4 rttvar + 1/4 |srtt - m|` (with the smoothed time before this measurement) and the
    /// smoothed time to `7/8 srtt + 1/8 m`, each term rounded down.
    pub open spec fn after_measurement(self, m: u64) -> Srtt {
        if self.uninited {
            Srtt {
                uninited: false,
                srtt: m,
                rttvar: (m / 2) as i64,
                rto: rto_of(m as int, (m / 2) as int) as u64,
                ..self
            }
        } else {
            let rttvar = self.rttvar * 3 / 4 + abs_diff(self.srtt as int, m as int) / 4;
            let srtt = self.srtt * 7 / 8 + m / 8;
            Srtt {
                srtt: srtt as u64,
                rttvar: rttvar as i64,
                rto: rto_of(srtt, rttvar) as u64,
                ..self
            }
        }
    }

    /// The state after `tsn` is sent at `now`: it is timed unless another TSN is.
    pub open spec fn after_send(self, tsn: Tsn, now: u64) -> Srtt {
        if self.measure_for_tsn is None {
            Srtt { measure_for_tsn: Some((tsn, now)), ..self }
        } else {
            self
        }
    }

    /// The state after `tsn` is acknowledged at `now`: if it covers the TSN being timed,
    /// the time since its sending (zero if `now` is earlier) is a new measurement.
    pub open spec fn after_ack(self, tsn: Tsn, now: u64) -> Srtt {
        match self.measure_for_tsn {
            Some((t, start)) => if tsn_order(t.0, tsn.0) != 1 {
                Srtt { measure_for_tsn: None, ..self }.after_measurement(
                    (if now >= start {
                        now - start
                    } else {
                        0
                    }) as u64,
                )
            } else {
                self
            },
            None => self,
        }
    }

    /// The state after the timeout expired: the timeout doubled, at most 200 ms.
    pub open spec fn after_expiry(self) -> Srtt {
        Srtt {
            rto: if self.rto * 2 < RTO_MAX {
                (self.rto * 2) as u64
            } else {
                RTO_MAX
            },
            ..self
        }
    }

    /// The timeout in use: 3 s before the first measurement.
    pub open spec fn spec_rto_duration(self) -> u64 {
        if self.uninited {
            RTO_INITIAL
        } else {
            self.rto
        }
    }

    pub fn new() -> (r: Self)
        ensures
            r.wf(),
            r.uninited,
            r.measure_for_tsn is None,
            r.srtt == 0,
            r.rttvar == 0,
            r.rto == 0,
    {
        Self { uninited: true, measure_for_tsn: None, srtt: 0, rttvar: 0, rto: 0 }
    }

    /// Starts timing `tsn`, sent at `now`, unless a TSN is being timed already.
    pub fn tsn_sent(&mut self, tsn: Tsn, now: u64)
        ensures
            old(self).wf() ==> final(self).wf(),
            *final(self) == old(self).after_send(tsn, now),
    {
        if self.measure_for_tsn.is_none() {
            self.measure_for_tsn = Some((tsn, now));
        }
    }

    /// Takes a measurement when `tsn` acknowledges the TSN being timed: the time from its
    /// sending to `now` (zero if `now` is earlier).
    pub fn tsn_acked(&mut self, tsn: Tsn, now: u64)
        requires
            old(self).wf(),
            now <= TIME_LIMIT,
        ensures
            final(self).wf(),
            *final(self) == old(self).after_ack(tsn, now),
    {
        let (measure_for, start) = match self.measure_for_tsn {
            Some(m) => m,
            None => {
                return ;
            },
        };
        if measure_for.le(&tsn) {
            self.measure_for_tsn = None;
            self.measured(now.saturating_sub(start));
        }
    }

    fn measured(&mut self, measurement: u64)
        requires
            old(self).wf(),
            measurement <= TIME_LIMIT,
        ensures
            final(self).wf(),
            *final(self) == old(self).after_measurement(measurement),
    {
        let srtt: u64;
        let rttvar: i64;
        if self.uninited {
            srtt = measurement;
            rttvar = (measurement / 2) as i64;
            self.uninited = false;
        } else {
            let diff: u64 = if self.srtt >= measurement {
                self.srtt - measurement
            } else {
                measurement - self.srtt
            };
            let var3: i128 = (self.rttvar as i128) * 3;
            rttvar = (var3 / 4 + (diff / 4) as i128) as i64;
            let s7: u128 = (self.srtt as u128) * 7;
            srtt = (s7 / 8 + (measurement as u128) / 8) as u64;
        }
        let v: i128 = (srtt as i128) + 4 * (rttvar as i128);
        let rto: u64 = if v < MILLIS as i128 {
            MILLIS
        } else if v > RTO_MAX as i128 {
            RTO_MAX
        } else {
            v as u64
        };
        self.srtt = srtt;
        self.rttvar = rttvar;
        self.rto = rto;
    }

    /// The retransmission timeout: 3 s before the first measurement, else the computed one.
    pub fn rto_duration(&self) -> (r: u64)
        ensures
            r == self.spec_rto_duration(),
    {
        if self.uninited {
            RTO_INITIAL
        } else {
            self.rto
        }
    }

    /// Backs the timeout off after it expired: doubled, at most 200 ms.
    pub fn rto_expired(&mut self)
        requires
            old(self).wf(),
        ensures
            final(self).wf(),
            *final(self) == old(self).after_expiry(),
    {
        let doubled = self.rto * 2;
        self.rto = if doubled < RTO_MAX {
            doubled
        } else {
            RTO_MAX
        };
    }
}

/// The timeout in use is 3 s until the first measurement and between 1 ms and 200 ms from
/// then on, whatever sequence of sends, acknowledgements and expiries led to the state: every
/// operation keeps `wf`, which `new` sets up, and a measurement always leaves a measured state.
pub proof fn lemma_rto_bounds(s: Srtt, m: u64)
    requires
        s.wf(),
        m <= TIME_LIMIT,
    ensures
        s.uninited ==> s.spec_rto_duration() == RTO_INITIAL,
        !s.uninited ==> MILLIS <= s.spec_rto_duration() <= RTO_MAX,
        s.after_measurement(m).wf(),
        !s.after_measurement(m).uninited,
{
}

/// Back-off after an expiry is exponential with a cap: the timeout is doubled, unless that
/// is more than 200 ms, when it becomes 200 ms. It never shrinks, never more than doubles,
/// and two expiries in a row multiply it by four, up to the cap. Nothing else changes, and a
/// measured state reports the new timeout.
pub proof fn lemma_expiry_doubles(s: Srtt)
    requires
        s.wf(),
    ensures
        ({
            let r = s.after_expiry();
            &&& r.rto <= 2 * s.rto
            &&& r.rto <= RTO_MAX
            &&& r.rto >= s.rto
            &&& 2 * s.rto <= RTO_MAX ==> r.rto == 2 * s.rto
            &&& 2 * s.rto > RTO_MAX ==> r.rto == RTO_MAX
            &&& r.after_expiry().rto == (if 4 * s.rto <= RTO_MAX {
                4 * s.rto
            } else {
                RTO_MAX as int
            })
            &&& r.srtt == s.srtt && r.rttvar == s.rttvar && r.uninited == s.uninited
                && r.measure_for_tsn == s.measure_for_tsn
            &&& !s.uninited ==> r.spec_rto_duration() == r.rto
        }),
{
}

} // verus!
