//! Timers of the sending half: retransmission, shutdown retransmission and heartbeat.
use vstd::prelude::*;

use crate::addr::FakeAddr;
use crate::assoc::srtt::{time_add, TIME_LIMIT};
use crate::assoc::ShutdownState;
use crate::packet::{Chunk, ChunkView};
use crate::wire::{put_zeros, zeros};

use super::{
    entry_view, max_probe, AssocTxView, AssociationTx, ResendEntryView,
};

verus! {

/// A timer: when it fires (nanoseconds) and a marker that tells a timer apart from the
/// ones it replaced.
#[derive(Debug, Clone, Copy, PartialEq, Eq, Structural)]
pub struct Timer {
    pub marker: u64,
    pub at: u64,
}

impl Timer {
    /// When the timer fires.
    pub fn at(&self) -> (r: u64)
        ensures
            r == self.at,
    {
        self.at
    }

    pub fn new(at: u64, marker: u64) -> (r: Self)
        ensures
            r == (Timer { at, marker }),
    {
        Self { at, marker }
    }
}

/// The earliest of the timers that are set; of timers that fire at the same time, the first
/// in the list.
pub open spec fn earliest(timers: Seq<Option<Timer>>) -> Option<Timer>
    decreases timers.len(),
{
    if timers.len() == 0 {
        None
    } else {
        let rest = earliest(timers.drop_last());
        match (rest, timers.last()) {
            (Some(r), Some(t)) => if t.at < r.at {
                Some(t)
            } else {
                Some(r)
            },
            (None, t) => t,
            (r, None) => r,
        }
    }
}

/// The earliest of the timers, as `earliest` says.
pub fn find_next_timer(timers: &[Option<Timer>]) -> (r: Option<Timer>)
    ensures
        r == earliest(timers@),
{
    let mut minimum: Option<Timer> = None;
    let mut i: usize = 0;
    assert(timers@.take(0) =~= seq![]);
    while i < timers.len()
        invariant
            i <= timers@.len(),
            minimum == earliest(timers@.take(i as int)),
        decreases timers@.len() - i,
    {
        let timer = timers[i];
        assert(timers@.take(i + 1).drop_last() =~= timers@.take(i as int));
        match minimum {
            Some(current) => {
                if let Some(t) = timer {
                    if t.at < current.at {
                        minimum = Some(t);
                    }
                }
            },
            None => {
                minimum = timer;
            },
        }
        i = i + 1;
    }
    assert(timers@.take(i as int) =~= timers@);
    minimum
}

/// A chunk in flight when the retransmission timer fires at `at` with timeout `rto`: if it
/// is not marked yet and its timeout has passed, it is marked for retransmission and counts
/// as queued at `at`.
pub open spec fn expire_entry(e: ResendEntryView, rto: u64, at: u64) -> ResendEntryView {
    if !e.marked_for_retransmit && time_add(e.queued_at, rto) <= at {
        ResendEntryView { marked_for_retransmit: true, queued_at: at, ..e }
    } else {
        e
    }
}

/// The chunks in flight after the retransmission timer fired at `at`.
pub open spec fn mark_expired(q: Seq<ResendEntryView>, rto: u64, at: u64) -> Seq<ResendEntryView> {
    Seq::new(q.len(), |i: int| expire_entry(q[i], rto, at))
}

impl<FakeContent: FakeAddr> AssocTxView<FakeContent> {
    /// The state after the retransmission timer fired at `at`. With nothing in flight the
    /// timer just stops. Else congestion control enters loss recovery, the timeout backs
    /// off, the chunks whose timeout passed are marked for retransmission, and the timer
    /// starts again.
    pub open spec fn after_rto_timeout(self, at: u64) -> Self {
        if self.resend_queue.len() == 0 {
            AssocTxView { rto_timer: None, ..self }
        } else {
            let srtt = self.srtt.after_expiry();
            AssocTxView {
                primary_congestion: self.primary_congestion.after_rto_expired(),
                srtt,
                resend_queue: mark_expired(self.resend_queue, srtt.spec_rto_duration(), at),
                ..self
            }.set_rto_timeout(at)
        }
    }

    /// The state after the shutdown retransmission timer fired at `at`: the SHUTDOWN or
    /// SHUTDOWN ACK that waits for its answer goes again and the timer starts again.
    pub open spec fn after_shutdown_rto_timeout(self, at: u64) -> Self {
        match self.shutdown_state {
            Some(ShutdownState::ShutdownSent) => AssocTxView {
                send_next: self.send_next.push(ChunkView::ShutDown(self.peer_last_acked_tsn)),
                ..self
            }.set_shutdown_rto_timeout(at),
            Some(ShutdownState::ShutdownAckSent) => AssocTxView {
                send_next: self.send_next.push(ChunkView::ShutDownAck),
                ..self
            }.set_shutdown_rto_timeout(at),
            _ => self,
        }
    }

    /// The state after the heartbeat timer fired at `at`. A probe still under way counts
    /// as lost; otherwise the next, larger probe is queued as a HEARTBEAT of zeros (at most
    /// 70 KiB). Either way the timer starts again.
    pub open spec fn after_heartbeat_timeout(self, at: u64) -> Self {
        if self.pmtu_probe.probe_in_flight {
            AssocTxView {
                pmtu_probe: self.pmtu_probe.after_timed_out(),
                heartbeats_unacked: if self.heartbeats_unacked == usize::MAX {
                    usize::MAX
                } else {
                    (self.heartbeats_unacked + 1) as usize
                },
                ..self
            }.set_heartbeat_timeout(at)
        } else {
            let size = self.pmtu_probe.spec_next_probe_size();
            let probe = if size < max_probe() {
                size as nat
            } else {
                max_probe()
            };
            AssocTxView {
                pmtu_probe: self.pmtu_probe.after_next_probe_size(),
                send_next: self.send_next.push(ChunkView::HeartBeat(zeros(probe))),
                ..self
            }.set_heartbeat_timeout(at)
        }
    }

    /// The state after a HEARTBEAT ACK with `len` bytes of data came back at `now`: the
    /// probe of that size got through.
    pub open spec fn after_heartbeat_ack(self, len: usize, now: u64) -> Self {
        AssocTxView {
            heartbeats_unacked: 0,
            pmtu_probe: self.pmtu_probe.after_success(len),
            ..self
        }.set_heartbeat_timeout(now)
    }

    /// The state after `timeout` fired: each of the retransmission, shutdown
    /// retransmission and heartbeat timers, in this order, is handled if it is still the
    /// timer with that marker.
    pub open spec fn after_timeout(self, timeout: Timer) -> Self {
        let s1 = if self.rto_timer matches Some(t) && t.marker == timeout.marker {
            self.after_rto_timeout(timeout.at)
        } else {
            self
        };
        let s2 = if s1.shutdown_rto_timer matches Some(t) && t.marker == timeout.marker {
            s1.after_shutdown_rto_timeout(timeout.at)
        } else {
            s1
        };
        if s2.heartbeat_timer matches Some(t) && t.marker == timeout.marker {
            s2.after_heartbeat_timeout(timeout.at)
        } else {
            s2
        }
    }
}

impl<T: FakeAddr> AssociationTx<T> {
    /// Handles a timer that fired, as `after_timeout` says; a timer that was replaced in
    /// the meantime is ignored.
    pub fn handle_timeout(&mut self, timeout: Timer)
        requires
            old(self).wf(),
        ensures
            final(self).wf(),
            final(self)@ == old(self)@.after_timeout(timeout),
    {
        if let Some(current_timer) = self.rto_timer {
            if current_timer.marker == timeout.marker {
                self.handle_rto_timeout(timeout);
            }
        }
        if let Some(current_timer) = self.shutdown_rto_timer {
            if current_timer.marker == timeout.marker {
                self.handle_shutdown_rto_timeout(timeout);
            }
        }
        if let Some(current_timer) = self.heartbeat_timer {
            if current_timer.marker == timeout.marker {
                self.handle_heartbeat_timeout(timeout);
            }
        }
    }

    fn handle_heartbeat_timeout(&mut self, timeout: Timer)
        requires
            old(self).wf(),
        ensures
            final(self).wf(),
            final(self)@ == old(self)@.after_heartbeat_timeout(timeout.at),
    {
        let ghost s0 = self@;
        if self.pmtu_probe.probe_in_flight() {
            self.pmtu_probe.probe_timed_out();
            self.heartbeats_unacked = self.heartbeats_unacked.saturating_add(1);
        } else {
            let size = self.pmtu_probe.next_probe_size();
            let probe_size = if size < 71680 {
                size
            } else {
                71680
            };
            let mut data: Vec<u8> = Vec::new();
            put_zeros(&mut data, probe_size);
            assert(data@ =~= zeros(probe_size as nat));
            self.send_next.push_back(Chunk::HeartBeat(data));
            proof {
                let c = ChunkView::<T>::HeartBeat(zeros(probe_size as nat));
                assert(self@.send_next =~= s0.send_next.push(c));
                assert forall|i: int| 0 <= i < self@.send_next.len() implies #[trigger] self@.send_next[i].wf() by {
                    if i < s0.send_next.len() {
                        assert(self@.send_next[i] == s0.send_next[i]);
                    }
                }
            }
        }
        assert(self@.resend_queue =~= s0.resend_queue);
        assert(self@.out_queue =~= s0.out_queue);
        self.set_heartbeat_timeout(timeout.at);
    }

    /// Processes a HEARTBEAT ACK with `data` received at `now`.
    pub(super) fn process_heartbeat_ack(&mut self, data: Vec<u8>, now: u64)
        requires
            old(self).wf(),
        ensures
            final(self).wf(),
            final(self)@ == old(self)@.after_heartbeat_ack(data@.len() as usize, now),
    {
        let ghost s0 = self@;
        self.heartbeats_unacked = 0;
        self.pmtu_probe.probe_success(data.len());
        assert(self@.send_next =~= s0.send_next);
        self.set_heartbeat_timeout(now);
    }

    fn handle_shutdown_rto_timeout(&mut self, timeout: Timer)
        requires
            old(self).wf(),
        ensures
            final(self).wf(),
            final(self)@ == old(self)@.after_shutdown_rto_timeout(timeout.at),
    {
        let ghost s0 = self@;
        match self.shutdown_state {
            Some(ShutdownState::ShutdownSent) => {
                self.send_next.push_back(Chunk::ShutDown(self.peer_last_acked_tsn));
                proof {
                    assert(self@.send_next =~= s0.send_next.push(ChunkView::ShutDown(s0.peer_last_acked_tsn)));
                    assert forall|i: int| 0 <= i < self@.send_next.len() implies #[trigger] self@.send_next[i].wf() by {
                        if i < s0.send_next.len() {
                            assert(self@.send_next[i] == s0.send_next[i]);
                        }
                    }
                }
                self.set_shutdown_rto_timeout(timeout.at);
            },
            Some(ShutdownState::ShutdownAckSent) => {
                self.send_next.push_back(Chunk::ShutDownAck);
                proof {
                    assert(self@.send_next =~= s0.send_next.push(ChunkView::ShutDownAck));
                    assert forall|i: int| 0 <= i < self@.send_next.len() implies #[trigger] self@.send_next[i].wf() by {
                        if i < s0.send_next.len() {
                            assert(self@.send_next[i] == s0.send_next[i]);
                        }
                    }
                }
                self.set_shutdown_rto_timeout(timeout.at);
            },
            _ => {},
        }
    }

    fn handle_rto_timeout(&mut self, timeout: Timer)
        requires
            old(self).wf(),
        ensures
            final(self).wf(),
            final(self)@ == old(self)@.after_rto_timeout(timeout.at),
    {
        if self.resend_queue.len() == 0 {
            self.rto_timer = None;
            return;
        }
        self.primary_congestion.rto_expired();
        self.srtt.rto_expired();
        let ghost s1 = self@;
        let rto = self.srtt.rto_duration();
        let at = timeout.at;
        let mut i: usize = 0;
        while i < self.resend_queue.len()
            invariant
                s1.inv(),
                rto == s1.srtt.spec_rto_duration(),
                i <= s1.resend_queue.len(),
                self@ == (AssocTxView { resend_queue: self@.resend_queue, ..s1 }),
                self@.resend_queue.len() == s1.resend_queue.len(),
                forall|k: int| 0 <= k < i ==> #[trigger] self@.resend_queue[k] == expire_entry(s1.resend_queue[k], rto, at),
                forall|k: int| i <= k < s1.resend_queue.len() ==> #[trigger] self@.resend_queue[k] == s1.resend_queue[k],
                forall|k: int| 0 <= k < s1.resend_queue.len() ==> #[trigger] self@.resend_queue[k].data == s1.resend_queue[k].data,
            decreases s1.resend_queue.len() - i,
        {
            let ghost cur = self@.resend_queue;
            assert(cur[i as int] == entry_view(self.resend_queue@[i as int]));
            if !self.resend_queue[i].marked_for_retransmit
                && self.resend_queue[i].queued_at.saturating_add(rto) <= at {
                self.resend_queue[i].marked_for_retransmit = true;
                self.resend_queue[i].queued_at = at;
                assert(self@.resend_queue =~= cur.update(i as int, expire_entry(cur[i as int], rto, at)));
                assert(self@ =~= (AssocTxView { resend_queue: self@.resend_queue, ..s1 }));
            }
            i = i + 1;
        }
        proof {
            let q = mark_expired(s1.resend_queue, rto, at);
            assert(self@.resend_queue =~= q);
            lemma_resend_bytes_same_data(s1.resend_queue, q);
        }
        self.set_rto_timeout(at);
    }
}

/// Sequences of chunks in flight with the same data hold the same bytes.
proof fn lemma_resend_bytes_same_data(a: Seq<ResendEntryView>, b: Seq<ResendEntryView>)
    requires
        a.len() == b.len(),
        forall|k: int| 0 <= k < a.len() ==> #[trigger] a[k].data == b[k].data,
    ensures
        super::resend_bytes(a) == super::resend_bytes(b),
    decreases a.len(),
{
    if a.len() > 0 {
        lemma_resend_bytes_same_data(a.drop_last(), b.drop_last());
    }
}

} // verus!
