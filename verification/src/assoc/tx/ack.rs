//! Processing of SACKs: what the peer got, up to the cumulative TSN and in gap blocks.
use vstd::prelude::*;

use crate::addr::FakeAddr;
use crate::assoc::srtt::{MILLIS, RTO_MAX, TIME_LIMIT};
use crate::packet::sack::{SelectiveAck, SelectiveAckView};
use crate::packet::serial::tsn_order;
use crate::packet::Tsn;

use super::{
    entry_view, lemma_resend_bytes_drop_first, lemma_resend_bytes_update, resend_bytes,
    AssocTxView, AssociationTx, ResendEntryView,
};

verus! {

/// The TSN `offset` after `cum`, wrapping.
pub open spec fn tsn_at(cum: u32, offset: u16) -> u32 {
    ((cum as int + offset as int) % 4294967296) as u32
}

/// Walks the chunks in flight from index `i` along the gap blocks from index `j`. A chunk
/// already acknowledged in a gap block is passed over; one before the block is missing
/// and gets marked for fast retransmission; one inside the block is acknowledged now; a
/// chunk behind the block moves on to the next block. Gives the marked chunks and the bytes
/// newly acknowledged.
pub open spec fn gap_walk(
    q: Seq<ResendEntryView>,
    blocks: Seq<(u16, u16)>,
    cum: u32,
    i: int,
    j: int,
) -> (Seq<ResendEntryView>, nat)
    decreases q.len() - i + blocks.len() - j,
{
    if i < 0 || j < 0 || i >= q.len() || j >= blocks.len() {
        (q, 0)
    } else {
        let p = q[i];
        let start = tsn_at(cum, blocks[j].0);
        let end = tsn_at(cum, blocks[j].1);
        if p.partially_acked {
            gap_walk(q, blocks, cum, i + 1, j)
        } else if tsn_order(p.data.tsn.0, start) == -1 {
            gap_walk(
                q.update(i, ResendEntryView { marked_for_fast_retransmit: true, ..p }),
                blocks,
                cum,
                i + 1,
                j,
            )
        } else if tsn_order(p.data.tsn.0, end) == -1 {
            let r = gap_walk(
                q.update(i, ResendEntryView { partially_acked: true, ..p }),
                blocks,
                cum,
                i + 1,
                j,
            );
            (r.0, r.1 + p.data.buf.len())
        } else {
            gap_walk(q, blocks, cum, i, j + 1)
        }
    }
}

/// How many chunks at the front of the queue the cumulative TSN covers.
pub open spec fn acked_prefix(q: Seq<ResendEntryView>, cum: Tsn) -> nat
    decreases q.len(),
{
    if q.len() > 0 && tsn_order(q[0].data.tsn.0, cum.0) != 1 {
        1 + acked_prefix(q.drop_first(), cum)
    } else {
        0
    }
}

/// The peer's receive window less the bytes in flight (taken modulo 2^32), at least zero.
pub open spec fn window_left(a_rwnd: u32, in_flight: usize) -> u32 {
    let f = in_flight as u32;
    if a_rwnd > f {
        (a_rwnd - f) as u32
    } else {
        0
    }
}

impl<FakeContent: FakeAddr> AssocTxView<FakeContent> {
    /// The state after the gap blocks of `sack` are walked, with `fully_acked` bytes
    /// acknowledged cumulatively and `in_flight` bytes outstanding before the SACK.
    pub open spec fn after_gap_blocks(
        self,
        sack: SelectiveAckView,
        fully_acked: usize,
        in_flight: usize,
    ) -> Self {
        let w = gap_walk(self.resend_queue, sack.blocks, sack.cum_tsn.0, 0, 0);
        AssocTxView {
            resend_queue: w.0,
            primary_congestion: self.primary_congestion.after_bytes_acked(
                w.1 as usize,
                fully_acked,
                in_flight,
            ),
            ..self
        }
    }

    /// The state after a SACK received at `now`. One older than the last is ignored. One
    /// that repeats the last cumulative TSN counts as a duplicate (the second one enters
    /// fast recovery) and only its gap blocks are walked. A new one drops the chunks it
    /// covers from flight and from the send buffer, walks its gap blocks, takes the round
    /// trip measurement, and restarts the retransmission timer while data is in flight, or
    /// stops it when none is left.
    pub open spec fn after_sack(self, sack: SelectiveAckView, now: u64) -> Self {
        if tsn_order(self.last_acked_tsn.0, sack.cum_tsn.0) == 1 {
            self
        } else if sack.cum_tsn == self.last_acked_tsn {
            let dup = if self.duplicated_acks == usize::MAX {
                usize::MAX
            } else {
                (self.duplicated_acks + 1) as usize
            };
            AssocTxView {
                peer_rcv_window: window_left(sack.a_rwnd, self.current_in_flight),
                duplicated_acks: dup,
                primary_congestion: if dup >= 2 {
                    self.primary_congestion.after_fast_recovery()
                } else {
                    self.primary_congestion
                },
                ..self
            }.after_gap_blocks(sack, 0, self.current_in_flight)
        } else {
            let rest = self.resend_queue.skip(acked_prefix(self.resend_queue, sack.cum_tsn) as int);
            let in_flight = resend_bytes(rest) as usize;
            let acked = (self.current_in_flight - in_flight) as usize;
            let s = AssocTxView {
                last_acked_tsn: sack.cum_tsn,
                duplicated_acks: 0,
                resend_queue: rest,
                current_out_buffered: (self.current_out_buffered - acked) as usize,
                current_in_flight: in_flight,
                ..self
            }.after_gap_blocks(sack, acked, self.current_in_flight);
            let s2 = AssocTxView {
                peer_rcv_window: window_left(sack.a_rwnd, in_flight),
                srtt: s.srtt.after_ack(sack.cum_tsn, now),
                ..s
            };
            if acked > 0 {
                if in_flight > 0 {
                    s2.set_rto_timeout(now)
                } else {
                    AssocTxView { rto_timer: None, ..s2 }
                }
            } else {
                s2
            }
        }
    }
}

proof fn lemma_resend_bytes_take_step(s: Seq<ResendEntryView>, i: int)
    requires
        0 <= i < s.len(),
    ensures
        resend_bytes(s.take(i + 1)) == resend_bytes(s.take(i)) + s[i].data.buf.len(),
{
    assert(s.take(i + 1).drop_last() =~= s.take(i));
}

proof fn lemma_resend_bytes_prefix(s: Seq<ResendEntryView>, i: int)
    requires
        0 <= i <= s.len(),
    ensures
        resend_bytes(s.take(i)) <= resend_bytes(s),
    decreases s.len(),
{
    if i < s.len() {
        assert(s.drop_last().take(i) =~= s.take(i));
        lemma_resend_bytes_prefix(s.drop_last(), i);
    } else {
        assert(s.take(i) =~= s);
    }
}

impl<FakeContent: FakeAddr> AssociationTx<FakeContent> {
    /// Walks the gap blocks of `sack` over the chunks in flight, then adjusts the
    /// congestion window to the bytes acknowledged.
    fn process_sack_gap_blocks(
        &mut self,
        sack: &SelectiveAck,
        fully_acked: usize,
        in_flight_before_sack: usize,
    )
        requires
            old(self).wf(),
        ensures
            final(self).wf(),
            final(self)@ == old(self)@.after_gap_blocks(
                sack@,
                fully_acked,
                in_flight_before_sack,
            ),
    {
        let ghost s0 = self@;
        let ghost q0 = s0.resend_queue;
        let ghost blocks = sack@.blocks;
        let ghost cum = sack.cum_tsn.0;
        let ghost w = gap_walk(q0, blocks, cum, 0, 0);
        let mut partial: usize = 0;
        let mut i: usize = 0;
        let mut j: usize = 0;
        assert(q0.take(0) =~= seq![]);
        while i < self.resend_queue.len() && j < sack.blocks.len()
            invariant
                s0.inv(),
                q0 == s0.resend_queue,
                w == gap_walk(q0, blocks, cum, 0, 0),
                sack@.blocks == blocks,
                sack.cum_tsn.0 == cum,
                i <= q0.len(),
                j <= blocks.len(),
                self@ == (AssocTxView { resend_queue: self@.resend_queue, ..s0 }),
                self@.resend_queue.len() == q0.len(),
                resend_bytes(self@.resend_queue) == resend_bytes(q0),
                gap_walk(self@.resend_queue, blocks, cum, i as int, j as int).0 == w.0,
                gap_walk(self@.resend_queue, blocks, cum, i as int, j as int).1 + partial == w.1,
                partial <= resend_bytes(self@.resend_queue.take(i as int)),
            decreases q0.len() - i + blocks.len() - j,
        {
            let ghost cur = self@.resend_queue;
            let (block_start, block_end) = sack.blocks[j];
            let start = Tsn(sack.cum_tsn.0.wrapping_add(block_start as u32));
            let end = Tsn(sack.cum_tsn.0.wrapping_add(block_end as u32));
            assert(start.0 == tsn_at(cum, blocks[j as int].0));
            assert(end.0 == tsn_at(cum, blocks[j as int].1));
            assert(cur[i as int] == entry_view(self.resend_queue@[i as int]));
            proof {
                lemma_resend_bytes_take_step(cur, i as int);
                lemma_resend_bytes_prefix(cur, i as int + 1);
            }
            if self.resend_queue[i].partially_acked {
                i = i + 1;
            } else if self.resend_queue[i].data.tsn.lt(&start) {
                self.resend_queue[i].marked_for_fast_retransmit = true;
                proof {
                    let p = cur[i as int];
                    let np = ResendEntryView { marked_for_fast_retransmit: true, ..p };
                    assert(self@.resend_queue =~= cur.update(i as int, np));
                    lemma_resend_bytes_update(cur, i as int, np);
                    assert(cur.update(i as int, np).take(i as int) =~= cur.take(i as int));
                    lemma_resend_bytes_take_step(cur.update(i as int, np), i as int);
                    assert(self@ =~= (AssocTxView { resend_queue: self@.resend_queue, ..s0 }));
                }
                i = i + 1;
            } else if self.resend_queue[i].data.tsn.lt(&end) {
                assert(self.resend_queue@[i as int].data.buf@.len() == cur[i as int].data.buf.len());
                assert(partial + cur[i as int].data.buf.len() <= s0.current_in_flight);
                partial = partial + self.resend_queue[i].data.buf.len();
                self.resend_queue[i].partially_acked = true;
                proof {
                    let p = cur[i as int];
                    let np = ResendEntryView { partially_acked: true, ..p };
                    assert(self@.resend_queue =~= cur.update(i as int, np));
                    lemma_resend_bytes_update(cur, i as int, np);
                    assert(cur.update(i as int, np).take(i as int) =~= cur.take(i as int));
                    lemma_resend_bytes_take_step(cur.update(i as int, np), i as int);
                    assert(self@ =~= (AssocTxView { resend_queue: self@.resend_queue, ..s0 }));
                }
                i = i + 1;
            } else {
                j = j + 1;
            }
        }
        assert(self@.resend_queue == w.0);
        assert(partial == w.1);
        self.primary_congestion.bytes_acked(partial, fully_acked, in_flight_before_sack);
        assert(self@ =~= s0.after_gap_blocks(sack@, fully_acked, in_flight_before_sack));
    }

    /// Processes a SACK received at `now`, as `after_sack` says.
    pub(super) fn handle_sack(&mut self, sack: SelectiveAck, now: u64)
        requires
            old(self).wf(),
            now <= TIME_LIMIT,
        ensures
            final(self).wf(),
            final(self)@ == old(self)@.after_sack(sack@, now),
    {
        let ghost s0 = self@;
        let in_flight_before_sack = self.current_in_flight;
        if sack.cum_tsn.lt(&self.last_acked_tsn) {
            return;
        }
        if sack.cum_tsn == self.last_acked_tsn {
            self.peer_rcv_window = sack.a_rwnd.saturating_sub(#[verifier::truncate] (self.current_in_flight as u32));
            self.duplicated_acks = self.duplicated_acks.saturating_add(1);
            if self.duplicated_acks >= 2 {
                self.primary_congestion.enter_fast_recovery();
            }
            self.process_sack_gap_blocks(&sack, 0, in_flight_before_sack);
            return;
        }
        self.last_acked_tsn = sack.cum_tsn;
        self.duplicated_acks = 0;
        let ghost s1 = self@;
        let ghost q0 = s1.resend_queue;
        let ghost mut k: int = 0;
        let mut bytes_acked: usize = 0;
        assert(q0.skip(0) =~= q0);
        while self.resend_queue.len() > 0 && self.resend_queue[0].data.tsn.le(&sack.cum_tsn)
            invariant
                s1.inv(),
                q0 == s1.resend_queue,
                0 <= k <= q0.len(),
                self@ == (AssocTxView {
                    resend_queue: q0.skip(k),
                    current_out_buffered: (s1.current_out_buffered - bytes_acked) as usize,
                    current_in_flight: (s1.current_in_flight - bytes_acked) as usize,
                    ..s1
                }),
                bytes_acked + resend_bytes(q0.skip(k)) == resend_bytes(q0),
                acked_prefix(q0, sack.cum_tsn) == k + acked_prefix(q0.skip(k), sack.cum_tsn),
            decreases q0.len() - k,
        {
            let ghost cur = q0.skip(k);
            assert(cur[0] == entry_view(self.resend_queue@[0]));
            let acked = self.resend_queue.remove(0);
            let len = acked.data.buf.len();
            proof {
                lemma_resend_bytes_drop_first(cur);
                assert(q0.skip(k + 1) =~= cur.drop_first());
                k = k + 1;
            }
            self.current_out_buffered = self.current_out_buffered - len;
            self.current_in_flight = self.current_in_flight - len;
            bytes_acked = bytes_acked + len;
            assert(self@.resend_queue =~= q0.skip(k));
            assert(self@ =~= (AssocTxView {
                resend_queue: q0.skip(k),
                current_out_buffered: (s1.current_out_buffered - bytes_acked) as usize,
                current_in_flight: (s1.current_in_flight - bytes_acked) as usize,
                ..s1
            }));
        }
        proof {
            if q0.skip(k).len() > 0 {
                assert(q0.skip(k)[0] == entry_view(self.resend_queue@[0]));
            }
            assert(acked_prefix(q0.skip(k), sack.cum_tsn) == 0);
        }
        self.process_sack_gap_blocks(&sack, bytes_acked, in_flight_before_sack);
        self.peer_rcv_window = sack.a_rwnd.saturating_sub(#[verifier::truncate] (self.current_in_flight as u32));
        self.srtt.tsn_acked(sack.cum_tsn, now);
        if bytes_acked > 0 {
            if self.current_in_flight > 0 {
                self.set_rto_timeout(now);
            } else {
                self.rto_timer = None;
            }
        }
    }
}

/// A SACK that newly acknowledges, cumulatively, the TSN whose round trip is being timed
/// takes exactly one sample, the time since that TSN was sent (zero if `now` is earlier),
/// into the smoothed round-trip time: the first sample sets it and half of it as the
/// variation; a later one gives `7/8` of the old time plus `1/8` of the sample, and `3/4` of
/// the old variation plus `1/4` of the distance between old time and sample. The timeout
/// becomes time plus four variations, between 1 ms and 200 ms, and no TSN is timed
/// afterwards. A SACK that does not cover the timed TSN leaves the measurement alone, and
/// when a SACK restarts the retransmission timer it runs for the new timeout.
pub proof fn lemma_sack_takes_rtt_sample<F: FakeAddr>(
    s: AssocTxView<F>,
    sack: SelectiveAckView,
    now: u64,
)
    requires
        s.srtt.wf(),
        tsn_order(s.last_acked_tsn.0, sack.cum_tsn.0) == -1,
    ensures
        ({
            let r = s.after_sack(sack, now).srtt;
            match s.srtt.measure_for_tsn {
                Some((t, sent)) => if tsn_order(t.0, sack.cum_tsn.0) != 1 {
                    let m: int = if now >= sent {
                        now - sent
                    } else {
                        0
                    };
                    let old = s.srtt;
                    let dist: int = if old.srtt >= m {
                        old.srtt - m
                    } else {
                        m - old.srtt
                    };
                    let v = r.srtt + 4 * r.rttvar;
                    &&& r.measure_for_tsn is None
                    &&& !r.uninited
                    &&& old.uninited ==> r.srtt == m && r.rttvar == m / 2
                    &&& !old.uninited ==> r.srtt == old.srtt * 7 / 8 + m / 8 && r.rttvar
                        == old.rttvar * 3 / 4 + dist / 4
                    &&& v < MILLIS ==> r.rto == MILLIS
                    &&& v > RTO_MAX ==> r.rto == RTO_MAX
                    &&& MILLIS <= v <= RTO_MAX ==> r.rto == v
                } else {
                    r == s.srtt
                },
                None => r == s.srtt,
            }
        }),
        ({
            let t = s.after_sack(sack, now);
            t.rto_timer != s.rto_timer && t.rto_timer is Some ==> t.rto_timer.unwrap().at
                == crate::assoc::srtt::time_add(now, t.srtt.spec_rto_duration())
        }),
{
}

} // verus!
