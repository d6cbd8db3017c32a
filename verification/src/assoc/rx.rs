//! The receiving half of an association: data chunks put back into TSN order, messages
//! reassembled from their fragments and handed out, SACKs queued, and the control chunks
//! that the sending half acts on passed to it as notifications.
use std::collections::VecDeque;
use vstd::prelude::*;

use crate::addr::FakeAddr;
use crate::assoc::tx::{
    data_bytes, lemma_data_bytes_drop_first, lemma_data_bytes_push, TxNotification,
    TxNotificationView,
};
use crate::assoc::ShutdownState;
use crate::packet::data::{DataChunk, DataChunkView};
use crate::packet::sack::{SelectiveAck, SelectiveAckView};
use crate::packet::serial::tsn_order;
use crate::packet::{Chunk, ChunkView, Tsn};
use crate::AssocId;

verus! {

/// What the receiving half is told: a chunk that arrived for the association.
pub enum RxNotification<FakeContent: FakeAddr> {
    Chunk(Chunk<FakeContent>),
}

impl<FakeContent: FakeAddr> View for RxNotification<FakeContent> {
    type V = ChunkView<FakeContent>;

    open spec fn view(&self) -> ChunkView<FakeContent> {
        match self {
            RxNotification::Chunk(c) => c@,
        }
    }
}

impl<FakeContent: FakeAddr> RxNotification<FakeContent> {
    /// The stream of a DATA chunk; `None` for other chunks.
    pub fn get_stream_id(&self) -> (r: Option<u16>)
        ensures
            r == (match self {
                RxNotification::Chunk(Chunk::Data(d)) => Some(d.stream_id),
                _ => None,
            }),
    {
        match self {
            RxNotification::Chunk(Chunk::Data(data)) => Some(data.stream_id),
            _ => None,
        }
    }
}

/// A message received on a stream: its fragments in order.
#[derive(Debug)]
pub struct StreamReceiveEvent {
    pub stream: u16,
    pub ppid: u32,
    pub unordered: bool,
    pub data: Vec<DataChunk>,
}

/// The value of a [`StreamReceiveEvent`].
pub struct StreamReceiveEventView {
    pub stream: u16,
    pub ppid: u32,
    pub unordered: bool,
    pub data: Seq<DataChunkView>,
}

impl View for StreamReceiveEvent {
    type V = StreamReceiveEventView;

    open spec fn view(&self) -> StreamReceiveEventView {
        StreamReceiveEventView {
            stream: self.stream,
            ppid: self.ppid,
            unordered: self.unordered,
            data: self.data@.map_values(|c: DataChunk| c@),
        }
    }
}

#[derive(Debug, Clone, Copy, PartialEq, Eq, Structural)]
pub enum PollDataError {
    Closed,
}

/// The result of polling for a received message.
#[derive(Debug)]
pub enum PollDataResult {
    Error(PollDataError),
    NoneAvailable,
    Data(StreamReceiveEvent),
}

impl PollDataResult {
    /// The message; there must be one.
    pub fn unwrap(self) -> (r: StreamReceiveEvent)
        requires
            self is Data,
        ensures
            self == PollDataResult::Data(r),
    {
        match self {
            PollDataResult::Data(data) => data,
            _ => vstd::pervasive::unreached(),
        }
    }
}

/// The receiving half of an association.
pub struct AssociationRx<FakeContent: FakeAddr> {
    id: AssocId,
    tx_notifications: VecDeque<TxNotification<FakeContent>>,
    tsn_counter: Tsn,
    last_sent_arwnd: u32,
    ordered_receive_events: VecDeque<StreamReceiveEvent>,
    unordered_receive_events: VecDeque<StreamReceiveEvent>,
    in_streams: u16,
    reassemble_queue: Vec<DataChunk>,
    tsn_reorder_buffer: Vec<DataChunk>,
    in_buffer_limit: usize,
    current_in_buffer: usize,
    shutdown_state: Option<ShutdownState>,
}

/// The value of an [`AssociationRx`].
#[verifier::ext_equal]
pub struct AssocRxView<FakeContent: FakeAddr> {
    pub id: AssocId,
    /// Notifications for the sending half, oldest first.
    pub tx_notifications: Seq<TxNotificationView<FakeContent>>,
    /// The cumulative TSN: every TSN up to it was received.
    pub tsn_counter: Tsn,
    pub last_sent_arwnd: u32,
    /// Complete ordered messages waiting to be polled.
    pub ordered_receive_events: Seq<StreamReceiveEventView>,
    /// Complete unordered messages waiting to be polled; they go first.
    pub unordered_receive_events: Seq<StreamReceiveEventView>,
    /// The number of incoming streams.
    pub in_streams: u16,
    /// Fragments received in order whose message is not complete yet, in arrival order.
    pub reassemble_queue: Seq<DataChunkView>,
    /// Chunks received ahead of a gap, ordered by their distance from the cumulative TSN.
    pub tsn_reorder_buffer: Seq<DataChunkView>,
    pub in_buffer_limit: usize,
    pub current_in_buffer: usize,
    pub shutdown_state: Option<ShutdownState>,
}

/// The TSN after `t`, wrapping.
pub open spec fn next_tsn(t: Tsn) -> Tsn {
    Tsn(((t.0 as int + 1) % 4294967296) as u32)
}

/// How far TSN `t` is ahead of `c`, wrapping: `0..2^32`.
pub open spec fn offset(t: u32, c: Tsn) -> int {
    (t as int - c.0 as int) % 4294967296
}

/// Chunks ordered by strictly growing distance from `c`, each at least `min` ahead.
pub open spec fn reorder_ok(r: Seq<DataChunkView>, c: Tsn, min: int) -> bool {
    &&& forall|i: int, j: int|
        #![trigger r[i], r[j]]
        0 <= i < j < r.len() ==> offset(r[i].tsn.0, c) < offset(r[j].tsn.0, c)
    &&& forall|i: int| #![trigger r[i]] 0 <= i < r.len() ==> offset(r[i].tsn.0, c) >= min
}

/// The first index from `i` on whose chunk is at least `o` ahead of `c`; the length if none.
pub open spec fn first_at_least(r: Seq<DataChunkView>, c: Tsn, o: int, i: int) -> int
    decreases r.len() - i,
{
    if i < 0 || i >= r.len() {
        r.len() as int
    } else if offset(r[i].tsn.0, c) >= o {
        i
    } else {
        first_at_least(r, c, o, i + 1)
    }
}

/// Whether a chunk with TSN `t` is among `r`.
pub open spec fn holds_tsn(r: Seq<DataChunkView>, t: u32) -> bool {
    exists|i: int| 0 <= i < r.len() && r[i].tsn.0 == t
}

/// The fragments of message `seq` on `stream`, in arrival order.
pub open spec fn message_of(l: Seq<DataChunkView>, stream: u16, seq: u16) -> Seq<DataChunkView>
    decreases l.len(),
{
    if l.len() == 0 {
        seq![]
    } else if l.last().stream_id == stream && l.last().stream_seq_num.0 == seq {
        message_of(l.drop_last(), stream, seq).push(l.last())
    } else {
        message_of(l.drop_last(), stream, seq)
    }
}

/// The fragments of other messages, in arrival order.
pub open spec fn others_of(l: Seq<DataChunkView>, stream: u16, seq: u16) -> Seq<DataChunkView>
    decreases l.len(),
{
    if l.len() == 0 {
        seq![]
    } else if l.last().stream_id == stream && l.last().stream_seq_num.0 == seq {
        others_of(l.drop_last(), stream, seq)
    } else {
        others_of(l.drop_last(), stream, seq).push(l.last())
    }
}

/// The bytes of user data in a list of messages.
pub open spec fn event_bytes(s: Seq<StreamReceiveEventView>) -> nat
    decreases s.len(),
{
    if s.len() == 0 {
        0
    } else {
        event_bytes(s.drop_last()) + data_bytes(s.last().data)
    }
}

/// A gap block from TSN `start` to TSN `end`, as offsets from the cumulative TSN `cum`
/// (modulo 2^16).
pub open spec fn block_of(cum: u32, start: u32, end: u32) -> (u16, u16) {
    (
        (((start as int - cum as int) % 4294967296) as u32) as u16,
        (((end as int - cum as int) % 4294967296) as u32) as u16,
    )
}

/// The gap blocks for the TSNs `tsns`, the current block running from `start` to `end`:
/// a TSN right after the block extends it, any other closes it and starts the next.
pub open spec fn blocks_walk(tsns: Seq<u32>, cum: u32, start: u32, end: u32) -> Seq<(u16, u16)>
    decreases tsns.len(),
{
    if tsns.len() == 0 {
        seq![block_of(cum, start, end)]
    } else if tsns[0] as int == (end as int + 1) % 4294967296 {
        blocks_walk(tsns.drop_first(), cum, start, tsns[0])
    } else {
        seq![block_of(cum, start, end)] + blocks_walk(tsns.drop_first(), cum, tsns[0], tsns[0])
    }
}

/// The gap blocks of a SACK for the TSNs received ahead of the cumulative TSN `cum`, in
/// the order given: runs of consecutive TSNs.
pub open spec fn gap_blocks(tsns: Seq<u32>, cum: u32) -> Seq<(u16, u16)> {
    if tsns.len() == 0 {
        seq![]
    } else {
        blocks_walk(tsns, cum, tsns[0], ((tsns[0] as int + 4294967295) % 4294967296) as u32)
    }
}

/// The chunks the receiving half acts on; others are not handled.
pub open spec fn rx_handles<F: FakeAddr>(c: ChunkView<F>) -> bool {
    match c {
        ChunkView::Data(_) | ChunkView::SAck(_) | ChunkView::Abort | ChunkView::ShutDown(_)
        | ChunkView::ShutDownAck | ChunkView::ShutDownComplete { .. } | ChunkView::HeartBeat(_)
        | ChunkView::HeartBeatAck(_) => true,
        _ => false,
    }
}

/// Whether the receiving half acts on `c`: `rx_handles` of its value.
pub fn handles<F: FakeAddr>(c: &Chunk<F>) -> (r: bool)
    ensures
        r == rx_handles(c@),
{
    match c {
        Chunk::Data(_) | Chunk::SAck(_) | Chunk::Abort | Chunk::ShutDown(_) | Chunk::ShutDownAck
        | Chunk::ShutDownComplete { .. } | Chunk::HeartBeat(_) | Chunk::HeartBeatAck(_) => true,
        _ => false,
    }
}

impl<FakeContent: FakeAddr> AssocRxView<FakeContent> {
    /// The bytes buffered are those of the chunks held, and stay within the limit.
    pub open spec fn bytes_ok(self) -> bool {
        &&& self.current_in_buffer == data_bytes(self.tsn_reorder_buffer) + data_bytes(
            self.reassemble_queue,
        ) + event_bytes(self.ordered_receive_events) + event_bytes(
            self.unordered_receive_events,
        )
        &&& self.current_in_buffer <= self.in_buffer_limit
    }

    /// What every operation keeps: the byte count is right, and the chunks ahead of a gap
    /// are ordered, at least two TSNs ahead of the cumulative TSN, each TSN once.
    pub open spec fn inv(self) -> bool {
        &&& self.bytes_ok()
        &&& reorder_ok(self.tsn_reorder_buffer, self.tsn_counter, 2)
    }

    /// The state after `n` is queued for the sending half.
    pub open spec fn notify(self, n: TxNotificationView<FakeContent>) -> Self {
        AssocRxView { tx_notifications: self.tx_notifications.push(n), ..self }
    }

    /// The state after a SACK is queued: cumulative TSN, the room left in the receive
    /// buffer as window, and gap blocks for the chunks held ahead of a gap.
    pub open spec fn queue_ack(self) -> Self {
        let a_rwnd = (self.in_buffer_limit - self.current_in_buffer) as u32;
        AssocRxView {
            last_sent_arwnd: a_rwnd,
            ..self.notify(
                TxNotificationView::Send(
                    ChunkView::SAck(
                        SelectiveAckView {
                            cum_tsn: self.tsn_counter,
                            a_rwnd,
                            blocks: gap_blocks(
                                self.tsn_reorder_buffer.map_values(|c: DataChunkView| c.tsn.0),
                                self.tsn_counter.0,
                            ),
                            duplicated_tsn: seq![],
                        },
                    ),
                ),
            )
        }
    }

    /// The state after the next chunk in TSN order, `d`, is taken: the cumulative TSN moves
    /// on, and the chunk joins its message; if it ends the message, the message leaves the
    /// reassembly queue and waits to be polled.
    pub open spec fn accept(self, d: DataChunkView) -> Self {
        let s1 = AssocRxView {
            tsn_counter: next_tsn(self.tsn_counter),
            current_in_buffer: (self.current_in_buffer + d.buf.len()) as usize,
            ..self
        };
        if d.end {
            let ev = StreamReceiveEventView {
                stream: d.stream_id,
                ppid: d.ppid,
                unordered: d.unordered,
                data: message_of(self.reassemble_queue, d.stream_id, d.stream_seq_num.0).push(d),
            };
            let s2 = AssocRxView {
                reassemble_queue: others_of(
                    self.reassemble_queue,
                    d.stream_id,
                    d.stream_seq_num.0,
                ),
                ..s1
            };
            if d.unordered {
                AssocRxView {
                    unordered_receive_events: s2.unordered_receive_events.push(ev),
                    ..s2
                }
            } else {
                AssocRxView { ordered_receive_events: s2.ordered_receive_events.push(ev), ..s2 }
            }
        } else {
            AssocRxView { reassemble_queue: self.reassemble_queue.push(d), ..s1 }
        }
    }

    /// The state after the chunks held ahead of the gap that the cumulative TSN now
    /// reaches are taken in order (one for an unknown stream is dropped).
    pub open spec fn drain(self) -> Self
        decreases self.tsn_reorder_buffer.len(),
    {
        if self.tsn_reorder_buffer.len() > 0 && self.tsn_reorder_buffer[0].tsn == next_tsn(
            self.tsn_counter,
        ) {
            let d = self.tsn_reorder_buffer[0];
            let s = AssocRxView {
                tsn_reorder_buffer: self.tsn_reorder_buffer.drop_first(),
                current_in_buffer: (self.current_in_buffer - d.buf.len()) as usize,
                ..self
            };
            if d.stream_id < s.in_streams && s.current_in_buffer + d.buf.len()
                <= s.in_buffer_limit {
                s.accept(d).drain()
            } else {
                s.drain()
            }
        } else {
            self
        }
    }

    /// What taking the next chunk in TSN order does: a chunk for an unknown stream is
    /// dropped (and counts as handled), one that does not fit the buffer is refused, and
    /// otherwise it is taken and the chunks it unblocks follow.
    pub open spec fn in_order(self, d: DataChunkView) -> (Self, bool) {
        if d.stream_id >= self.in_streams {
            (self, true)
        } else if self.current_in_buffer + d.buf.len() > self.in_buffer_limit {
            (self, false)
        } else {
            (self.accept(d).drain(), true)
        }
    }

    /// The state after a DATA chunk arrived. One ahead of the next TSN expected is held,
    /// unless it is held already or does not fit, and acknowledged; the next one expected
    /// is taken and acknowledged if handled; an old one is dropped.
    pub open spec fn after_data_chunk(self, d: DataChunkView) -> Self {
        let o = tsn_order(d.tsn.0, next_tsn(self.tsn_counter).0);
        if o == 1 {
            if holds_tsn(self.tsn_reorder_buffer, d.tsn.0) {
                self
            } else if self.current_in_buffer + d.buf.len() <= self.in_buffer_limit {
                AssocRxView {
                    current_in_buffer: (self.current_in_buffer + d.buf.len()) as usize,
                    tsn_reorder_buffer: self.tsn_reorder_buffer.insert(
                        first_at_least(
                            self.tsn_reorder_buffer,
                            self.tsn_counter,
                            offset(d.tsn.0, self.tsn_counter),
                            0,
                        ),
                        d,
                    ),
                    ..self
                }.queue_ack()
            } else {
                self
            }
        } else if o == 0 {
            let (s, handled) = self.in_order(d);
            if handled {
                s.queue_ack()
            } else {
                s
            }
        } else {
            self
        }
    }

    /// The state after a chunk arrived at `now`: data is received; SACKs, heartbeat
    /// acknowledgements and the shutdown chunks are passed on to the sending half (which
    /// also answers a HEARTBEAT), and an ABORT or the shutdown chunks close the receiving
    /// half.
    pub open spec fn after_chunk(self, c: ChunkView<FakeContent>, now: u64) -> Self {
        match c {
            ChunkView::Data(d) => self.after_data_chunk(d),
            ChunkView::SAck(s) => self.notify(TxNotificationView::SAck(s, now)),
            ChunkView::Abort => AssocRxView {
                shutdown_state: Some(ShutdownState::AbortReceived),
                ..self
            }.notify(TxNotificationView::Abort),
            ChunkView::ShutDown(_) => AssocRxView {
                shutdown_state: Some(ShutdownState::ShutdownReceived),
                ..self
            }.notify(TxNotificationView::PeerShutdown),
            ChunkView::ShutDownAck => AssocRxView {
                shutdown_state: Some(ShutdownState::Complete),
                ..self
            }.notify(TxNotificationView::PeerShutdownAck),
            ChunkView::ShutDownComplete { .. } => AssocRxView {
                shutdown_state: Some(ShutdownState::Complete),
                ..self
            }.notify(TxNotificationView::PeerShutdownComplete),
            ChunkView::HeartBeat(data) => self.notify(
                TxNotificationView::Send(ChunkView::HeartBeatAck(data)),
            ),
            ChunkView::HeartBeatAck(data) => self.notify(TxNotificationView::HeartBeatAck(data, now)),
            _ => self,
        }
    }
}

/// A new receiving half for a peer whose first TSN is `init_tsn`: nothing received yet.
pub open spec fn initial_rx_view<F: FakeAddr>(
    id: AssocId,
    init_tsn: Tsn,
    in_streams: u16,
    in_buffer_limit: usize,
) -> AssocRxView<F> {
    AssocRxView {
        id,
        tx_notifications: seq![],
        tsn_counter: Tsn(((init_tsn.0 as int + 4294967295) % 4294967296) as u32),
        last_sent_arwnd: in_buffer_limit as u32,
        ordered_receive_events: seq![],
        unordered_receive_events: seq![],
        in_streams,
        reassemble_queue: seq![],
        tsn_reorder_buffer: seq![],
        in_buffer_limit,
        current_in_buffer: 0,
        shutdown_state: None,
    }
}

impl<FakeContent: FakeAddr> AssociationRx<FakeContent> {
    /// The value of the receiving half.
    pub closed spec fn view(&self) -> AssocRxView<FakeContent> {
        AssocRxView {
            id: self.id,
            tx_notifications: self.tx_notifications@.map_values(
                |n: TxNotification<FakeContent>| n@,
            ),
            tsn_counter: self.tsn_counter,
            last_sent_arwnd: self.last_sent_arwnd,
            ordered_receive_events: self.ordered_receive_events@.map_values(
                |e: StreamReceiveEvent| e@,
            ),
            unordered_receive_events: self.unordered_receive_events@.map_values(
                |e: StreamReceiveEvent| e@,
            ),
            in_streams: self.in_streams,
            reassemble_queue: self.reassemble_queue@.map_values(|c: DataChunk| c@),
            tsn_reorder_buffer: self.tsn_reorder_buffer@.map_values(|c: DataChunk| c@),
            in_buffer_limit: self.in_buffer_limit,
            current_in_buffer: self.current_in_buffer,
            shutdown_state: self.shutdown_state,
        }
    }

    /// The receiving half is consistent.
    pub closed spec fn wf(&self) -> bool {
        self.view().inv()
    }

    /// A new receiving half for a peer whose first TSN is `init_tsn`, with `in_streams`
    /// incoming streams and room for `in_buffer_limit` bytes.
    pub fn new(id: AssocId, init_tsn: Tsn, in_streams: u16, in_buffer_limit: usize) -> (r: Self)
        ensures
            r.wf(),
            r@ == initial_rx_view::<FakeContent>(id, init_tsn, in_streams, in_buffer_limit),
    {
        let r = Self {
            id,
            tx_notifications: VecDeque::new(),
            tsn_counter: init_tsn.decrease(),
            last_sent_arwnd: #[verifier::truncate] (in_buffer_limit as u32),
            ordered_receive_events: VecDeque::new(),
            unordered_receive_events: VecDeque::new(),
            in_streams,
            reassemble_queue: Vec::new(),
            tsn_reorder_buffer: Vec::new(),
            in_buffer_limit,
            current_in_buffer: 0,
            shutdown_state: None,
        };
        assert(r@ =~= initial_rx_view::<FakeContent>(id, init_tsn, in_streams, in_buffer_limit));
        r
    }

    pub fn id(&self) -> (r: AssocId)
        ensures
            r == self@.id,
    {
        self.id
    }

    /// Hands out the notifications for the sending half, oldest first.
    pub fn tx_notifications(&mut self) -> (r: VecDeque<TxNotification<FakeContent>>)
        requires
            old(self).wf(),
        ensures
            final(self).wf(),
            r@.map_values(|n: TxNotification<FakeContent>| n@) == old(self)@.tx_notifications,
            final(self)@ == (AssocRxView { tx_notifications: seq![], ..old(self)@ }),
    {
        let mut out: VecDeque<TxNotification<FakeContent>> = VecDeque::new();
        std::mem::swap(&mut out, &mut self.tx_notifications);
        assert(self@ =~= (AssocRxView { tx_notifications: seq![], ..old(self)@ }));
        out
    }

    /// Queues a notification for the sending half.
    fn notify(&mut self, n: TxNotification<FakeContent>)
        ensures
            final(self)@ == old(self)@.notify(n@),
    {
        self.tx_notifications.push_back(n);
        assert(self@ =~= old(self)@.notify(n@));
    }
}

/// The distance of TSN `t` from `c`.
fn offset_of(t: Tsn, c: Tsn) -> (r: u32)
    ensures
        r == offset(t.0, c),
{
    t.0.wrapping_sub(c.0)
}

proof fn lemma_offset_next(t: u32, c: Tsn)
    requires
        offset(t, c) >= 1,
    ensures
        offset(t, next_tsn(c)) == offset(t, c) - 1,
{
}

proof fn lemma_offset_injective(a: u32, b: u32, c: Tsn)
    requires
        offset(a, c) == offset(b, c),
    ensures
        a == b,
{
}

/// A TSN after the next one expected is at least two ahead of the cumulative TSN.
proof fn lemma_ahead_offset(t: u32, c: Tsn)
    requires
        tsn_order(t, next_tsn(c).0) == 1,
    ensures
        offset(t, c) >= 2,
{
}

proof fn lemma_reorder_shift(r: Seq<DataChunkView>, c: Tsn)
    requires
        reorder_ok(r, c, 2),
    ensures
        reorder_ok(r, next_tsn(c), 1),
{
    assert forall|i: int| #![trigger r[i]] 0 <= i < r.len() implies offset(r[i].tsn.0, next_tsn(c))
        == offset(r[i].tsn.0, c) - 1 by {
        lemma_offset_next(r[i].tsn.0, c);
    }
}

proof fn lemma_reorder_weaken(r: Seq<DataChunkView>, c: Tsn)
    requires
        reorder_ok(r, c, 2),
    ensures
        reorder_ok(r, c, 1),
{
}

/// Dropping the first of ordered chunks at least one ahead, when that one is exactly one
/// ahead, leaves chunks at least two ahead.
proof fn lemma_reorder_pop(r: Seq<DataChunkView>, c: Tsn)
    requires
        reorder_ok(r, c, 1),
        r.len() > 0,
        offset(r[0].tsn.0, c) == 1,
    ensures
        reorder_ok(r.drop_first(), c, 2),
{
    let q = r.drop_first();
    assert forall|i: int| #![trigger q[i]] 0 <= i < q.len() implies offset(q[i].tsn.0, c) >= 2 by {
        assert(q[i] == r[i + 1]);
        assert(offset(r[0].tsn.0, c) < offset(r[i + 1].tsn.0, c));
    }
    assert forall|i: int, j: int| #![trigger q[i], q[j]] 0 <= i < j < q.len() implies offset(
        q[i].tsn.0,
        c,
    ) < offset(q[j].tsn.0, c) by {
        assert(q[i] == r[i + 1]);
        assert(q[j] == r[j + 1]);
    }
}

/// Ordered chunks whose first one is not exactly one ahead are all at least two ahead.
proof fn lemma_reorder_settled(r: Seq<DataChunkView>, c: Tsn)
    requires
        reorder_ok(r, c, 1),
        r.len() > 0 ==> offset(r[0].tsn.0, c) != 1,
    ensures
        reorder_ok(r, c, 2),
{
    assert forall|i: int| #![trigger r[i]] 0 <= i < r.len() implies offset(r[i].tsn.0, c) >= 2 by {
        if i > 0 {
            assert(offset(r[0].tsn.0, c) < offset(r[i].tsn.0, c));
        }
    }
}

proof fn lemma_reorder_insert(r: Seq<DataChunkView>, c: Tsn, p: int, d: DataChunkView)
    requires
        reorder_ok(r, c, 2),
        0 <= p <= r.len(),
        offset(d.tsn.0, c) >= 2,
        forall|k: int| 0 <= k < p ==> #[trigger] offset(r[k].tsn.0, c) < offset(d.tsn.0, c),
        forall|k: int| p <= k < r.len() ==> #[trigger] offset(r[k].tsn.0, c) > offset(d.tsn.0, c),
    ensures
        reorder_ok(r.insert(p, d), c, 2),
{
    let q = r.insert(p, d);
    assert forall|i: int, j: int| #![trigger q[i], q[j]] 0 <= i < j < q.len() implies offset(
        q[i].tsn.0,
        c,
    ) < offset(q[j].tsn.0, c) by {
        if i < p && j < p {
            assert(q[i] == r[i] && q[j] == r[j]);
        } else if i < p && j == p {
            assert(q[i] == r[i]);
        } else if i < p {
            assert(q[i] == r[i] && q[j] == r[j - 1]);
            assert(offset(r[i].tsn.0, c) < offset(d.tsn.0, c));
        } else if i == p {
            assert(q[j] == r[j - 1]);
        } else {
            assert(q[i] == r[i - 1] && q[j] == r[j - 1]);
        }
    }
    assert forall|i: int| #![trigger q[i]] 0 <= i < q.len() implies offset(q[i].tsn.0, c) >= 2 by {
        if i < p {
            assert(q[i] == r[i]);
        } else if i > p {
            assert(q[i] == r[i - 1]);
        }
    }
}

proof fn lemma_data_bytes_insert(s: Seq<DataChunkView>, p: int, d: DataChunkView)
    requires
        0 <= p <= s.len(),
    ensures
        data_bytes(s.insert(p, d)) == data_bytes(s) + d.buf.len(),
    decreases s.len(),
{
    if p == s.len() {
        assert(s.insert(p, d) =~= s.push(d));
        lemma_data_bytes_push(s, d);
    } else {
        lemma_data_bytes_insert(s.drop_last(), p, d);
        assert(s.insert(p, d).drop_last() =~= s.drop_last().insert(p, d));
        assert(s.insert(p, d).last() == s.last());
    }
}

/// The fragments of one message and those of the others hold all the bytes.
proof fn lemma_message_split(l: Seq<DataChunkView>, stream: u16, seq: u16)
    ensures
        data_bytes(l) == data_bytes(message_of(l, stream, seq)) + data_bytes(
            others_of(l, stream, seq),
        ),
    decreases l.len(),
{
    if l.len() > 0 {
        lemma_message_split(l.drop_last(), stream, seq);
        lemma_data_bytes_push(message_of(l.drop_last(), stream, seq), l.last());
        lemma_data_bytes_push(others_of(l.drop_last(), stream, seq), l.last());
    }
}

proof fn lemma_event_bytes_push(s: Seq<StreamReceiveEventView>, e: StreamReceiveEventView)
    ensures
        event_bytes(s.push(e)) == event_bytes(s) + data_bytes(e.data),
{
    assert(s.push(e).drop_last() =~= s);
}

proof fn lemma_event_bytes_drop_first(s: Seq<StreamReceiveEventView>)
    requires
        s.len() > 0,
    ensures
        event_bytes(s.drop_first()) == event_bytes(s) - data_bytes(s[0].data),
    decreases s.len(),
{
    if s.len() > 1 {
        lemma_event_bytes_drop_first(s.drop_last());
        assert(s.drop_first().drop_last() =~= s.drop_last().drop_first());
        assert(s.drop_first().last() == s.last());
        assert(s.drop_last()[0] == s[0]);
    } else {
        assert(s.drop_first() =~= seq![]);
        assert(s.drop_last() =~= seq![]);
    }
}

proof fn lemma_event_bytes_bound(s: Seq<StreamReceiveEventView>, i: int)
    requires
        0 <= i < s.len(),
    ensures
        data_bytes(s[i].data) <= event_bytes(s),
    decreases s.len(),
{
    if i < s.len() - 1 {
        lemma_event_bytes_bound(s.drop_last(), i);
    }
}

/// Splits `queue` into the fragments of message `seq` on `stream` and the others, each in
/// arrival order.
fn take_message(queue: Vec<DataChunk>, stream: u16, seq: u16) -> (r: (Vec<DataChunk>, Vec<DataChunk>))
    ensures
        r.0@.map_values(|c: DataChunk| c@) == message_of(
            queue@.map_values(|c: DataChunk| c@),
            stream,
            seq,
        ),
        r.1@.map_values(|c: DataChunk| c@) == others_of(
            queue@.map_values(|c: DataChunk| c@),
            stream,
            seq,
        ),
{
    let ghost ov = queue@.map_values(|c: DataChunk| c@);
    let mut queue = queue;
    let mut msg: Vec<DataChunk> = Vec::new();
    let mut rest: Vec<DataChunk> = Vec::new();
    let ghost mut i: int = 0;
    assert(ov.take(0) =~= seq![]);
    assert(ov.skip(0) =~= ov);
    while queue.len() > 0
        invariant
            0 <= i <= ov.len(),
            queue@.map_values(|c: DataChunk| c@) == ov.skip(i),
            msg@.map_values(|c: DataChunk| c@) == message_of(ov.take(i), stream, seq),
            rest@.map_values(|c: DataChunk| c@) == others_of(ov.take(i), stream, seq),
        decreases ov.len() - i,
    {
        proof {
            assert(queue@.map_values(|c: DataChunk| c@).len() == queue@.len());
            assert(i < ov.len());
            assert(ov.skip(i)[0] == ov[i]);
            assert(queue@.map_values(|c: DataChunk| c@)[0] == queue@[0]@);
        }
        let ghost qv = queue@.map_values(|c: DataChunk| c@);
        let c = queue.remove(0);
        proof {
            assert(queue@.map_values(|c: DataChunk| c@) =~= qv.drop_first());
            assert(qv.drop_first() =~= ov.skip(i + 1));
            assert(c@ == ov[i]);
            assert(ov.take(i + 1).drop_last() =~= ov.take(i));
            assert(ov.take(i + 1).last() == ov[i]);
        }
        if c.stream_id == stream && c.stream_seq_num.0 == seq {
            msg.push(c);
        } else {
            rest.push(c);
        }
        proof {
            i = i + 1;
            assert(queue@.map_values(|c: DataChunk| c@) =~= ov.skip(i));
            assert(msg@.map_values(|c: DataChunk| c@) =~= message_of(ov.take(i), stream, seq));
            assert(rest@.map_values(|c: DataChunk| c@) =~= others_of(ov.take(i), stream, seq));
        }
    }
    assert(ov.take(i) =~= ov);
    (msg, rest)
}

impl<FakeContent: FakeAddr> AssociationRx<FakeContent> {
    /// Takes the next chunk in TSN order, as `accept` says.
    fn accept(&mut self, data: DataChunk)
        requires
            old(self)@.bytes_ok(),
            old(self)@.current_in_buffer + data@.buf.len() <= old(self)@.in_buffer_limit,
        ensures
            final(self)@.bytes_ok(),
            final(self)@ == old(self)@.accept(data@),
    {
        let ghost s0 = self@;
        let ghost d = data@;
        self.tsn_counter = self.tsn_counter.increase();
        self.current_in_buffer = self.current_in_buffer + data.buf.len();
        if data.end {
            let stream = data.stream_id;
            let seq = data.stream_seq_num.0;
            let ppid = data.ppid;
            let unordered = data.unordered;
            let mut queue: Vec<DataChunk> = Vec::new();
            std::mem::swap(&mut queue, &mut self.reassemble_queue);
            let (mut msg, rest) = take_message(queue, stream, seq);
            let ghost m0 = msg@.map_values(|c: DataChunk| c@);
            msg.push(data);
            self.reassemble_queue = rest;
            let event = StreamReceiveEvent { stream, ppid, unordered, data: msg };
            proof {
                assert(event@.data =~= m0.push(d));
                lemma_message_split(s0.reassemble_queue, stream, seq);
                lemma_data_bytes_push(m0, d);
            }
            let ghost ev = event@;
            if unordered {
                self.unordered_receive_events.push_back(event);
                proof {
                    lemma_event_bytes_push(s0.unordered_receive_events, ev);
                }
            } else {
                self.ordered_receive_events.push_back(event);
                proof {
                    lemma_event_bytes_push(s0.ordered_receive_events, ev);
                }
            }
            assert(self@ =~= s0.accept(d));
        } else {
            self.reassemble_queue.push(data);
            proof {
                lemma_data_bytes_push(s0.reassemble_queue, d);
            }
            assert(self@ =~= s0.accept(d));
        }
    }

    /// Takes the chunks held ahead of the gap that the cumulative TSN now reaches.
    fn drain(&mut self)
        requires
            old(self)@.bytes_ok(),
            reorder_ok(old(self)@.tsn_reorder_buffer, old(self)@.tsn_counter, 1),
        ensures
            final(self)@.inv(),
            final(self)@ == old(self)@.drain(),
    {
        let ghost target = self@.drain();
        while self.tsn_reorder_buffer.len() > 0 && self.tsn_reorder_buffer[0].tsn.0
            == self.tsn_counter.increase().0
            invariant
                self@.bytes_ok(),
                reorder_ok(self@.tsn_reorder_buffer, self@.tsn_counter, 1),
                self@.drain() == target,
            decreases self@.tsn_reorder_buffer.len(),
        {
            let ghost s0 = self@;
            let d = self.tsn_reorder_buffer.remove(0);
            let ghost dv = d@;
            proof {
                assert(dv == s0.tsn_reorder_buffer[0]);
                assert(self@.tsn_reorder_buffer =~= s0.tsn_reorder_buffer.drop_first());
                lemma_data_bytes_drop_first(s0.tsn_reorder_buffer);
                lemma_reorder_pop(s0.tsn_reorder_buffer, s0.tsn_counter);
            }
            self.current_in_buffer = self.current_in_buffer - d.buf.len();
            let ghost s1 = self@;
            assert(s1 =~= (AssocRxView {
                tsn_reorder_buffer: s0.tsn_reorder_buffer.drop_first(),
                current_in_buffer: (s0.current_in_buffer - dv.buf.len()) as usize,
                ..s0
            }));
            if d.stream_id < self.in_streams && d.buf.len() <= self.in_buffer_limit
                - self.current_in_buffer {
                self.accept(d);
                proof {
                    lemma_reorder_shift(s1.tsn_reorder_buffer, s1.tsn_counter);
                }
            } else {
                proof {
                    lemma_reorder_weaken(s1.tsn_reorder_buffer, s1.tsn_counter);
                }
            }
        }
        proof {
            let r = self@.tsn_reorder_buffer;
            if r.len() > 0 {
                assert(r[0] == self.tsn_reorder_buffer@[0]@);
                if offset(r[0].tsn.0, self@.tsn_counter) == 1 {
                    lemma_offset_injective(r[0].tsn.0, next_tsn(self@.tsn_counter).0, self@.tsn_counter);
                }
            }
            lemma_reorder_settled(r, self@.tsn_counter);
        }
    }

    /// Takes the next chunk in TSN order, as `in_order` says.
    fn handle_in_order_packet(&mut self, data: DataChunk) -> (r: bool)
        requires
            old(self)@.inv(),
        ensures
            final(self)@.inv(),
            (final(self)@, r) == old(self)@.in_order(data@),
    {
        if data.stream_id >= self.in_streams {
            return true;
        }
        if data.buf.len() > self.in_buffer_limit - self.current_in_buffer {
            return false;
        }
        let ghost s0 = self@;
        self.accept(data);
        proof {
            lemma_reorder_shift(s0.tsn_reorder_buffer, s0.tsn_counter);
        }
        self.drain();
        true
    }

    /// Where a chunk `tsn` ahead goes among the chunks held: after those nearer to the
    /// cumulative TSN.
    fn find_slot(&self, tsn: Tsn) -> (r: usize)
        ensures
            r == first_at_least(
                self@.tsn_reorder_buffer,
                self@.tsn_counter,
                offset(tsn.0, self@.tsn_counter),
                0,
            ),
            r <= self@.tsn_reorder_buffer.len(),
            forall|k: int|
                0 <= k < r ==> #[trigger] offset(self@.tsn_reorder_buffer[k].tsn.0, self@.tsn_counter)
                    < offset(tsn.0, self@.tsn_counter),
            r < self@.tsn_reorder_buffer.len() ==> offset(
                self@.tsn_reorder_buffer[r as int].tsn.0,
                self@.tsn_counter,
            ) >= offset(tsn.0, self@.tsn_counter),
    {
        let ghost r = self@.tsn_reorder_buffer;
        let ghost c = self@.tsn_counter;
        let o = offset_of(tsn, self.tsn_counter);
        let mut i: usize = 0;
        while i < self.tsn_reorder_buffer.len() && offset_of(
            self.tsn_reorder_buffer[i].tsn,
            self.tsn_counter,
        ) < o
            invariant
                r == self@.tsn_reorder_buffer,
                c == self@.tsn_counter,
                o == offset(tsn.0, c),
                i <= r.len(),
                forall|k: int| 0 <= k < i ==> #[trigger] offset(r[k].tsn.0, c) < o,
                first_at_least(r, c, o as int, 0) == first_at_least(r, c, o as int, i as int),
            decreases r.len() - i,
        {
            assert(r[i as int] == self.tsn_reorder_buffer@[i as int]@);
            i = i + 1;
        }
        if i < self.tsn_reorder_buffer.len() {
            assert(r[i as int] == self.tsn_reorder_buffer@[i as int]@);
        }
        i
    }

    /// The gap blocks for the chunks held ahead of a gap.
    fn gap_blocks(&self) -> (r: Vec<(u16, u16)>)
        ensures
            r@ == gap_blocks(
                self@.tsn_reorder_buffer.map_values(|c: DataChunkView| c.tsn.0),
                self@.tsn_counter.0,
            ),
    {
        let ghost tsns = self@.tsn_reorder_buffer.map_values(|c: DataChunkView| c.tsn.0);
        let mut blocks: Vec<(u16, u16)> = Vec::new();
        let n = self.tsn_reorder_buffer.len();
        if n == 0 {
            return blocks;
        }
        let cum = self.tsn_counter.0;
        let mut start = self.tsn_reorder_buffer[0].tsn.0;
        let mut end = start.wrapping_sub(1);
        assert(tsns.skip(0) =~= tsns);
        let mut i: usize = 0;
        while i < n
            invariant
                n == tsns.len(),
                tsns == self@.tsn_reorder_buffer.map_values(|c: DataChunkView| c.tsn.0),
                cum == self@.tsn_counter.0,
                i <= n,
                blocks@ + blocks_walk(tsns.skip(i as int), cum, start, end) == gap_blocks(
                    tsns,
                    cum,
                ),
            decreases n - i,
        {
            let t = self.tsn_reorder_buffer[i].tsn.0;
            assert(t == tsns.skip(i as int)[0]);
            assert(tsns.skip(i as int).drop_first() =~= tsns.skip(i + 1));
            if t == end.wrapping_add(1) {
                end = t;
            } else {
                let block = (
                    #[verifier::truncate] (start.wrapping_sub(cum) as u16),
                    #[verifier::truncate] (end.wrapping_sub(cum) as u16),
                );
                assert(block == block_of(cum, start, end));
                blocks.push(block);
                assert(blocks@ =~= blocks@.drop_last() + seq![block_of(cum, start, end)]);
                start = t;
                end = t;
            }
            i = i + 1;
        }
        let block = (
            #[verifier::truncate] (start.wrapping_sub(cum) as u16),
            #[verifier::truncate] (end.wrapping_sub(cum) as u16),
        );
        blocks.push(block);
        assert(tsns.skip(n as int) =~= seq![]);
        assert(blocks@ =~= gap_blocks(tsns, cum));
        blocks
    }

    /// Queues a SACK for the sending half, as `queue_ack` says.
    fn queue_ack(&mut self)
        requires
            old(self)@.bytes_ok(),
        ensures
            final(self)@ == old(self)@.queue_ack(),
    {
        let a_rwnd = #[verifier::truncate] ((self.in_buffer_limit - self.current_in_buffer) as u32);
        self.last_sent_arwnd = a_rwnd;
        let blocks = self.gap_blocks();
        let sack = SelectiveAck {
            cum_tsn: self.tsn_counter,
            a_rwnd,
            blocks,
            duplicated_tsn: Vec::new(),
        };
        assert(sack@.duplicated_tsn =~= seq![]);
        self.notify(TxNotification::Send(Chunk::SAck(sack)));
    }

    /// Receives a DATA chunk, as `after_data_chunk` says.
    pub fn handle_data_chunk(&mut self, data: DataChunk)
        requires
            old(self).wf(),
        ensures
            final(self).wf(),
            final(self)@ == old(self)@.after_data_chunk(data@),
    {
        let ghost s0 = self@;
        let next = self.tsn_counter.increase();
        if next.lt(&data.tsn) {
            assert(tsn_order(data.tsn.0, next.0) == 1) by {
                crate::packet::serial::lemma_tsn_order_antisymmetric(next, data.tsn);
            }
            proof {
                lemma_ahead_offset(data.tsn.0, s0.tsn_counter);
            }
            let slot = self.find_slot(data.tsn);
            let ghost r = s0.tsn_reorder_buffer;
            let ghost c = s0.tsn_counter;
            let ghost o = offset(data.tsn.0, c);
            if slot < self.tsn_reorder_buffer.len() && self.tsn_reorder_buffer[slot].tsn.0
                == data.tsn.0 {
                assert(r[slot as int] == self.tsn_reorder_buffer@[slot as int]@);
                assert(holds_tsn(r, data.tsn.0));
                return;
            }
            proof {
                if slot < r.len() {
                    assert(r[slot as int] == self.tsn_reorder_buffer@[slot as int]@);
                }
                assert forall|k: int| slot <= k < r.len() implies #[trigger] offset(r[k].tsn.0, c)
                    > o by {
                    if offset(r[slot as int].tsn.0, c) == o {
                        lemma_offset_injective(r[slot as int].tsn.0, data.tsn.0, c);
                    }
                    if k > slot {
                        assert(offset(r[slot as int].tsn.0, c) < offset(r[k].tsn.0, c));
                    }
                }
                assert(!holds_tsn(r, data.tsn.0)) by {
                    if holds_tsn(r, data.tsn.0) {
                        let k = choose|k: int| 0 <= k < r.len() && r[k].tsn.0 == data.tsn.0;
                        if k < slot {
                            assert(offset(r[k].tsn.0, c) < o);
                        } else {
                            assert(offset(r[k].tsn.0, c) > o);
                        }
                    }
                }
            }
            if data.buf.len() <= self.in_buffer_limit - self.current_in_buffer {
                self.current_in_buffer = self.current_in_buffer + data.buf.len();
                let ghost dv = data@;
                self.tsn_reorder_buffer.insert(slot, data);
                proof {
                    assert(self@.tsn_reorder_buffer =~= r.insert(slot as int, dv));
                    lemma_data_bytes_insert(r, slot as int, dv);
                    lemma_reorder_insert(r, c, slot as int, dv);
                }
                self.queue_ack();
                assert(self@ =~= s0.after_data_chunk(dv));
            }
        } else if data.tsn.0 == next.0 {
            if self.handle_in_order_packet(data) {
                self.queue_ack();
            }
        } else {
            proof {
                crate::packet::serial::lemma_tsn_order_antisymmetric(next, data.tsn);
            }
        }
    }
}

impl<FakeContent: FakeAddr> AssociationRx<FakeContent> {
    /// Takes a chunk that arrived at `now`, as `after_chunk` says. Only the chunks of
    /// `rx_handles` are accepted here.
    pub fn notification(&mut self, notification: RxNotification<FakeContent>, now: u64)
        requires
            old(self).wf(),
            notification matches RxNotification::Chunk(c) && rx_handles(c@),
        ensures
            final(self).wf(),
            notification matches RxNotification::Chunk(c) && final(self)@ == old(self)@.after_chunk(
                c@,
                now,
            ),
    {
        match notification {
            RxNotification::Chunk(chunk) => self.handle_chunk(chunk, now),
        }
    }

    /// Takes a notification as `notification` does if the receiving half acts on its
    /// chunk; otherwise hands it back unchanged and changes nothing.
    pub fn try_notification(
        &mut self,
        notification: RxNotification<FakeContent>,
        now: u64,
    ) -> (r: Result<(), RxNotification<FakeContent>>)
        requires
            old(self).wf(),
        ensures
            final(self).wf(),
            notification matches RxNotification::Chunk(c) && (r is Ok <==> rx_handles(c@)),
            r is Ok ==> (notification matches RxNotification::Chunk(c) && final(self)@
                == old(self)@.after_chunk(c@, now)),
            r matches Err(n) ==> n == notification && final(self)@ == old(self)@,
    {
        let RxNotification::Chunk(chunk) = &notification;
        if !handles(chunk) {
            return Err(notification);
        }
        self.notification(notification, now);
        Ok(())
    }

    fn handle_chunk(&mut self, chunk: Chunk<FakeContent>, now: u64)
        requires
            old(self).wf(),
            rx_handles(chunk@),
        ensures
            final(self).wf(),
            final(self)@ == old(self)@.after_chunk(chunk@, now),
    {
        let ghost s0 = self@;
        let ghost cv = chunk@;
        match chunk {
            Chunk::Data(data) => {
                self.handle_data_chunk(data);
            },
            Chunk::SAck(sack) => {
                self.notify(TxNotification::SAck(sack, now));
            },
            Chunk::Abort => {
                self.shutdown_state = Some(ShutdownState::AbortReceived);
                self.notify(TxNotification::Abort);
            },
            Chunk::ShutDown(_) => {
                self.shutdown_state = Some(ShutdownState::ShutdownReceived);
                self.notify(TxNotification::PeerShutdown);
            },
            Chunk::ShutDownAck => {
                self.shutdown_state = Some(ShutdownState::Complete);
                self.notify(TxNotification::PeerShutdownAck);
            },
            Chunk::ShutDownComplete { .. } => {
                self.shutdown_state = Some(ShutdownState::Complete);
                self.notify(TxNotification::PeerShutdownComplete);
            },
            Chunk::HeartBeat(data) => {
                self.notify(TxNotification::Send(Chunk::HeartBeatAck(data)));
            },
            Chunk::HeartBeatAck(ack) => {
                self.notify(TxNotification::HeartBeatAck(ack, now));
            },
            _ => {
                assert(!rx_handles(cv));
            },
        }
    }

    /// Hands out the next complete message: unordered ones first, then ordered ones in
    /// their order. Once the association is shutting down or aborted nothing more is
    /// handed out.
    pub fn poll_data(&mut self) -> (r: PollDataResult)
        requires
            old(self).wf(),
        ensures
            final(self).wf(),
            match r {
                PollDataResult::Error(e) => old(self)@.shutdown_state is Some && e == PollDataError::Closed
                    && final(self)@ == old(self)@,
                PollDataResult::NoneAvailable => old(self)@.shutdown_state is None
                    && old(self)@.unordered_receive_events.len() == 0
                    && old(self)@.ordered_receive_events.len() == 0 && final(self)@ == old(self)@,
                PollDataResult::Data(ev) => old(self)@.shutdown_state is None && if old(
                    self,
                )@.unordered_receive_events.len() > 0 {
                    ev@ == old(self)@.unordered_receive_events[0] && final(self)@ == (AssocRxView {
                        unordered_receive_events: old(self)@.unordered_receive_events.drop_first(),
                        current_in_buffer: (old(self)@.current_in_buffer - data_bytes(ev@.data)) as usize,
                        ..old(self)@
                    })
                } else {
                    old(self)@.ordered_receive_events.len() > 0 && ev@
                        == old(self)@.ordered_receive_events[0] && final(self)@ == (AssocRxView {
                        ordered_receive_events: old(self)@.ordered_receive_events.drop_first(),
                        current_in_buffer: (old(self)@.current_in_buffer - data_bytes(ev@.data)) as usize,
                        ..old(self)@
                    })
                },
            },
    {
        if self.shutdown_state.is_some() {
            return PollDataResult::Error(PollDataError::Closed);
        }
        let ghost s0 = self@;
        match self.pop_next_receive_event() {
            Some(data) => {
                let n = bytes_of(&data.data, self.current_in_buffer);
                self.current_in_buffer = self.current_in_buffer - n;
                assert(self@ =~= (AssocRxView { current_in_buffer: (s0.current_in_buffer - n) as usize, ..self@ }));
                PollDataResult::Data(data)
            },
            None => PollDataResult::NoneAvailable,
        }
    }

    /// Takes the next complete message out: unordered ones first.
    fn pop_next_receive_event(&mut self) -> (r: Option<StreamReceiveEvent>)
        requires
            old(self).wf(),
        ensures
            final(self)@.reorder_and_counter_same(old(self)@),
            match r {
                None => old(self)@.unordered_receive_events.len() == 0
                    && old(self)@.ordered_receive_events.len() == 0 && final(self)@ == old(self)@,
                Some(ev) => if old(self)@.unordered_receive_events.len() > 0 {
                    ev@ == old(self)@.unordered_receive_events[0] && final(self)@ == (AssocRxView {
                        unordered_receive_events: old(self)@.unordered_receive_events.drop_first(),
                        ..old(self)@
                    })
                } else {
                    old(self)@.ordered_receive_events.len() > 0 && ev@
                        == old(self)@.ordered_receive_events[0] && final(self)@ == (AssocRxView {
                        ordered_receive_events: old(self)@.ordered_receive_events.drop_first(),
                        ..old(self)@
                    })
                },
            },
            r matches Some(ev) ==> data_bytes(ev@.data) <= old(self)@.current_in_buffer
                && final(self)@.inv_after_taking(data_bytes(ev@.data)),
    {
        let ghost s0 = self@;
        if self.unordered_receive_events.len() > 0 {
            let ev = self.unordered_receive_events.pop_front().unwrap();
            proof {
                assert(self@.unordered_receive_events =~= s0.unordered_receive_events.drop_first());
                lemma_event_bytes_drop_first(s0.unordered_receive_events);
            }
            Some(ev)
        } else if self.ordered_receive_events.len() > 0 {
            let ev = self.ordered_receive_events.pop_front().unwrap();
            proof {
                assert(self@.ordered_receive_events =~= s0.ordered_receive_events.drop_first());
                lemma_event_bytes_drop_first(s0.ordered_receive_events);
            }
            Some(ev)
        } else {
            None
        }
    }
}

impl<FakeContent: FakeAddr> AssocRxView<FakeContent> {
    /// The chunks held ahead of a gap and the cumulative TSN are those of `other`.
    pub open spec fn reorder_and_counter_same(self, other: Self) -> bool {
        self.tsn_reorder_buffer == other.tsn_reorder_buffer && self.tsn_counter == other.tsn_counter
    }

    /// The invariant holds once `n` bytes less are counted.
    pub open spec fn inv_after_taking(self, n: nat) -> bool {
        AssocRxView { current_in_buffer: (self.current_in_buffer - n) as usize, ..self }.inv()
    }
}

/// The bytes of user data in `chunks`, which are known to be at most `bound`.
fn bytes_of(chunks: &Vec<DataChunk>, bound: usize) -> (r: usize)
    requires
        data_bytes(chunks@.map_values(|c: DataChunk| c@)) <= bound,
    ensures
        r == data_bytes(chunks@.map_values(|c: DataChunk| c@)),
{
    let ghost v = chunks@.map_values(|c: DataChunk| c@);
    let mut total: usize = 0;
    let mut i: usize = 0;
    assert(v.take(0) =~= seq![]);
    while i < chunks.len()
        invariant
            v == chunks@.map_values(|c: DataChunk| c@),
            data_bytes(v) <= bound,
            i <= v.len(),
            total == data_bytes(v.take(i as int)),
        decreases v.len() - i,
    {
        proof {
            assert(v.take(i + 1).drop_last() =~= v.take(i as int));
            lemma_data_bytes_prefix(v, i + 1);
        }
        total = total + chunks[i].buf.len();
        i = i + 1;
    }
    assert(v.take(i as int) =~= v);
    total
}

proof fn lemma_data_bytes_prefix(s: Seq<DataChunkView>, i: int)
    requires
        0 <= i <= s.len(),
    ensures
        data_bytes(s.take(i)) <= data_bytes(s),
    decreases s.len(),
{
    if i < s.len() {
        assert(s.drop_last().take(i) =~= s.take(i));
        lemma_data_bytes_prefix(s.drop_last(), i);
    } else {
        assert(s.take(i) =~= s);
    }
}

impl<FakeContent: FakeAddr> AssocRxView<FakeContent> {
    /// The state after the DATA chunks `ds` arrived, in order.
    pub open spec fn after_data_chunks(self, ds: Seq<DataChunkView>) -> Self
        decreases ds.len(),
    {
        if ds.len() == 0 {
            self
        } else {
            self.after_data_chunks(ds.drop_last()).after_data_chunk(ds.last())
        }
    }
}

/// `ds` are the fragments of one message, numbered `seq` on `stream`, with payload protocol
/// `ppid` and unordered flag `unordered`, carried by the TSNs that follow `c` one after the
/// other; only the last one ends the message.
pub open spec fn fragment_run(
    ds: Seq<DataChunkView>,
    c: Tsn,
    stream: u16,
    seq: u16,
    ppid: u32,
    unordered: bool,
) -> bool {
    &&& ds.len() > 0
    &&& forall|i: int|
        0 <= i < ds.len() ==> {
            &&& (#[trigger] ds[i]).tsn == Tsn(((c.0 + 1 + i) % 4294967296) as u32)
            &&& ds[i].stream_id == stream
            &&& ds[i].stream_seq_num.0 == seq
            &&& ds[i].ppid == ppid
            &&& ds[i].unordered == unordered
            &&& ds[i].end == (i == ds.len() - 1)
        }
}

proof fn lemma_message_of_append(a: Seq<DataChunkView>, b: Seq<DataChunkView>, stream: u16, seq: u16)
    requires
        forall|i: int|
            0 <= i < b.len() ==> (#[trigger] b[i]).stream_id == stream && b[i].stream_seq_num.0
                == seq,
    ensures
        message_of(a + b, stream, seq) == message_of(a, stream, seq) + b,
        others_of(a + b, stream, seq) == others_of(a, stream, seq),
    decreases b.len(),
{
    if b.len() == 0 {
        assert(a + b =~= a);
        assert(message_of(a, stream, seq) + b =~= message_of(a, stream, seq));
    } else {
        let b0 = b.drop_last();
        assert forall|i: int| 0 <= i < b0.len() implies (#[trigger] b0[i]).stream_id == stream
            && b0[i].stream_seq_num.0 == seq by {
            assert(b0[i] == b[i]);
        }
        lemma_message_of_append(a, b0, stream, seq);
        assert((a + b).drop_last() =~= a + b0);
        assert((a + b).last() == b[b.len() - 1]);
        assert(message_of(a, stream, seq) + b =~= (message_of(a, stream, seq) + b0).push(b.last()));
    }
}

/// Fragments that arrive in TSN order build up in the reassembly queue: before the last one
/// no message is complete, nothing is held ahead of a gap, and the cumulative TSN has moved
/// on by one per fragment.
#[verifier::spinoff_prover]
#[verifier::rlimit(60)]
proof fn lemma_fragments_pending<F: FakeAddr>(
    s: AssocRxView<F>,
    ds: Seq<DataChunkView>,
    stream: u16,
    seq: u16,
    ppid: u32,
    unordered: bool,
    j: int,
)
    requires
        s.tsn_reorder_buffer.len() == 0,
        stream < s.in_streams,
        s.current_in_buffer + data_bytes(ds) <= s.in_buffer_limit,
        fragment_run(ds, s.tsn_counter, stream, seq, ppid, unordered),
        0 <= j < ds.len(),
    ensures
        ({
            let t = s.after_data_chunks(ds.take(j));
            &&& t.tsn_reorder_buffer.len() == 0
            &&& t.reassemble_queue == s.reassemble_queue + ds.take(j)
            &&& t.ordered_receive_events == s.ordered_receive_events
            &&& t.unordered_receive_events == s.unordered_receive_events
            &&& t.tsn_counter == Tsn(((s.tsn_counter.0 + j) % 4294967296) as u32)
            &&& t.current_in_buffer == s.current_in_buffer + data_bytes(ds.take(j))
            &&& t.in_streams == s.in_streams
            &&& t.in_buffer_limit == s.in_buffer_limit
        }),
    decreases j,
{
    if j == 0 {
        assert(ds.take(0) =~= seq![]);
        assert(s.reassemble_queue + ds.take(0) =~= s.reassemble_queue);
    } else {
        lemma_fragments_pending(s, ds, stream, seq, ppid, unordered, j - 1);
        let p = ds.take(j - 1);
        assert(ds.take(j).drop_last() =~= p);
        let t = s.after_data_chunks(p);
        let d = ds[j - 1];
        assert(ds.take(j).last() == d);
        let c = s.tsn_counter.0 as int;
        vstd::arithmetic::div_mod::lemma_add_mod_noop(c + (j - 1), 1, 4294967296);
        assert(next_tsn(t.tsn_counter) == d.tsn);
        assert(tsn_order(d.tsn.0, next_tsn(t.tsn_counter).0) == 0);
        lemma_data_bytes_push(p, d);
        assert(p.push(d) =~= ds.take(j));
        lemma_data_bytes_prefix(ds, j);
        assert(!d.end);
        let u = t.accept(d);
        assert(u.drain() == u);
        assert(s.reassemble_queue + ds.take(j) =~= (s.reassemble_queue + p).push(d));
        vstd::arithmetic::div_mod::lemma_add_mod_noop(c + j, 0, 4294967296);
    }
}

/// A message split into fragments that arrive in TSN order is handed out whole once its last
/// fragment arrives: exactly one event, with all the fragments in order, joins the ordered or
/// unordered events as the message is; no event comes before; and the cumulative TSN has
/// moved on by the number of fragments.
pub proof fn lemma_fragments_reassembled<F: FakeAddr>(
    s: AssocRxView<F>,
    ds: Seq<DataChunkView>,
    stream: u16,
    seq: u16,
    ppid: u32,
    unordered: bool,
)
    requires
        s.tsn_reorder_buffer.len() == 0,
        message_of(s.reassemble_queue, stream, seq).len() == 0,
        stream < s.in_streams,
        s.current_in_buffer + data_bytes(ds) <= s.in_buffer_limit,
        fragment_run(ds, s.tsn_counter, stream, seq, ppid, unordered),
    ensures
        forall|j: int|
            0 <= j < ds.len() ==> (#[trigger] s.after_data_chunks(ds.take(j))).ordered_receive_events
                == s.ordered_receive_events && s.after_data_chunks(
                ds.take(j),
            ).unordered_receive_events == s.unordered_receive_events,
        ({
            let t = s.after_data_chunks(ds);
            let ev = StreamReceiveEventView { stream, ppid, unordered, data: ds };
            &&& unordered ==> t.unordered_receive_events == s.unordered_receive_events.push(ev)
                && t.ordered_receive_events == s.ordered_receive_events
            &&& !unordered ==> t.ordered_receive_events == s.ordered_receive_events.push(ev)
                && t.unordered_receive_events == s.unordered_receive_events
            &&& t.tsn_counter == Tsn(((s.tsn_counter.0 + ds.len()) % 4294967296) as u32)
            &&& t.reassemble_queue == others_of(s.reassemble_queue, stream, seq)
        }),
{
    assert forall|j: int| 0 <= j < ds.len() implies (#[trigger] s.after_data_chunks(
        ds.take(j),
    )).ordered_receive_events == s.ordered_receive_events && s.after_data_chunks(
        ds.take(j),
    ).unordered_receive_events == s.unordered_receive_events by {
        lemma_fragments_pending(s, ds, stream, seq, ppid, unordered, j);
    }
    let k = ds.len() as int;
    lemma_fragments_pending(s, ds, stream, seq, ppid, unordered, k - 1);
    let p = ds.take(k - 1);
    assert(ds.drop_last() =~= p);
    let t = s.after_data_chunks(p);
    let d = ds[k - 1];
    let c = s.tsn_counter.0 as int;
    vstd::arithmetic::div_mod::lemma_add_mod_noop(c + (k - 1), 1, 4294967296);
    assert(next_tsn(t.tsn_counter) == d.tsn);
    assert(tsn_order(d.tsn.0, next_tsn(t.tsn_counter).0) == 0);
    lemma_data_bytes_push(p, d);
    assert(p.push(d) =~= ds);
    assert forall|i: int| 0 <= i < p.len() implies (#[trigger] p[i]).stream_id == stream
        && p[i].stream_seq_num.0 == seq by {
        assert(p[i] == ds[i]);
    }
    lemma_message_of_append(s.reassemble_queue, p, stream, seq);
    assert(message_of(s.reassemble_queue, stream, seq) =~= seq![]);
    assert(seq![] + p =~= p);
    let u = t.accept(d);
    assert(u.tsn_reorder_buffer.len() == 0);
    assert(u.drain() == u);
    vstd::arithmetic::div_mod::lemma_add_mod_noop(c + k, 0, 4294967296);
}

} // verus!
