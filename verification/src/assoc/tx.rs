//! The sending half of an association: user data waiting to be sent, data in flight
//! waiting to be acknowledged, control chunks to send, congestion control and timers.
//! Times are nanoseconds.
use std::collections::VecDeque;
use vstd::prelude::*;

use crate::addr::{FakeAddr, TransportAddress};
use crate::assoc::srtt::{time_add, Srtt, TIME_LIMIT};
use crate::assoc::ShutdownState;
use crate::packet::data::{DataChunk, DataChunkView};
use crate::packet::sack::{SelectiveAck, SelectiveAckView};
use crate::packet::serial::tsn_order;
use crate::packet::{Chunk, ChunkView, Packet, Sequence, Tsn};
use crate::AssocId;
use congestion::{CongestionState, PerDestinationInfo};
use pmtu::PmtuProbe;
use timeouts::{earliest, find_next_timer, Timer};

mod ack;
pub mod congestion;
pub mod pmtu;
pub mod timeouts;

verus! {

/// A data chunk that was sent and waits for its acknowledgement.
struct ResendEntry {
    queued_at: u64,
    data: DataChunk,
    marked_for_retransmit: bool,
    marked_for_fast_retransmit: bool,
    marked_was_fast_retransmit: bool,
    partially_acked: bool,
}

/// The value of a data chunk in flight.
pub struct ResendEntryView {
    pub queued_at: u64,
    pub data: DataChunkView,
    pub marked_for_retransmit: bool,
    pub marked_for_fast_retransmit: bool,
    pub marked_was_fast_retransmit: bool,
    pub partially_acked: bool,
}

spec fn entry_view(e: ResendEntry) -> ResendEntryView {
    ResendEntryView {
        queued_at: e.queued_at,
        data: e.data@,
        marked_for_retransmit: e.marked_for_retransmit,
        marked_for_fast_retransmit: e.marked_for_fast_retransmit,
        marked_was_fast_retransmit: e.marked_was_fast_retransmit,
        partially_acked: e.partially_acked,
    }
}

/// An entry for a chunk just sent at `now`.
pub open spec fn new_entry(data: DataChunkView, now: u64) -> ResendEntryView {
    ResendEntryView {
        queued_at: now,
        data,
        marked_for_retransmit: false,
        marked_for_fast_retransmit: false,
        marked_was_fast_retransmit: false,
        partially_acked: false,
    }
}

/// What the sending half is told by the receiving half and by the endpoint.
#[derive(Debug)]
pub enum TxNotification<FakeContent: FakeAddr> {
    /// A control chunk to send.
    Send(Chunk<FakeContent>),
    /// A SACK received at the given time.
    SAck(SelectiveAck, u64),
    Abort,
    Shutdown,
    PeerShutdown,
    PeerShutdownAck,
    PeerShutdownComplete,
    /// The data of a HEARTBEAT ACK received at the given time.
    HeartBeatAck(Vec<u8>, u64),
    _PrimaryPathChanged(TransportAddress<FakeContent>),
}

/// The value of a [`TxNotification`].
pub enum TxNotificationView<FakeContent: FakeAddr> {
    Send(ChunkView<FakeContent>),
    SAck(SelectiveAckView, u64),
    Abort,
    Shutdown,
    PeerShutdown,
    PeerShutdownAck,
    PeerShutdownComplete,
    HeartBeatAck(Seq<u8>, u64),
    _PrimaryPathChanged(TransportAddress<FakeContent>),
}

impl<FakeContent: FakeAddr> View for TxNotification<FakeContent> {
    type V = TxNotificationView<FakeContent>;

    open spec fn view(&self) -> TxNotificationView<FakeContent> {
        match self {
            TxNotification::Send(c) => TxNotificationView::Send(c@),
            TxNotification::SAck(s, t) => TxNotificationView::SAck(s@, *t),
            TxNotification::Abort => TxNotificationView::Abort,
            TxNotification::Shutdown => TxNotificationView::Shutdown,
            TxNotification::PeerShutdown => TxNotificationView::PeerShutdown,
            TxNotification::PeerShutdownAck => TxNotificationView::PeerShutdownAck,
            TxNotification::PeerShutdownComplete => TxNotificationView::PeerShutdownComplete,
            TxNotification::HeartBeatAck(d, t) => TxNotificationView::HeartBeatAck(d@, *t),
            TxNotification::_PrimaryPathChanged(a) => TxNotificationView::_PrimaryPathChanged(*a),
        }
    }
}

/// What an association's sending half is set up with.
pub struct AssocTxSettings<FakeContent: FakeAddr> {
    pub primary_path: TransportAddress<FakeContent>,
    pub peer_verification_tag: u32,
    pub local_port: u16,
    pub peer_port: u16,
    pub init_tsn: Tsn,
    pub out_streams: u16,
    pub out_buffer_limit: usize,
    pub peer_arwnd: u32,
    pub pmtu: usize,
}

#[derive(Debug, Clone, Copy, PartialEq, Eq, Structural)]
pub enum SendErrorKind {
    Closed,
    BufferFull,
    UnknownStream,
}

/// Data that could not be queued, handed back with the reason.
#[derive(Debug)]
pub struct SendError {
    pub data: Vec<u8>,
    pub kind: SendErrorKind,
}

/// The result of polling for something to send: nothing now, a chunk, or the association
/// is closed.
#[derive(Debug)]
pub enum PollSendResult<T> {
    Empty,
    Ready(T),
    Closed,
}

impl<T> PollSendResult<T> {
    pub fn is_some(&self) -> (r: bool)
        ensures
            r == (self is Ready),
    {
        match self {
            PollSendResult::Ready(_) => true,
            _ => false,
        }
    }

    pub fn is_none(&self) -> (r: bool)
        ensures
            r == (self is Empty),
    {
        match self {
            PollSendResult::Empty => true,
            _ => false,
        }
    }

    pub fn is_err(&self) -> (r: bool)
        ensures
            r == (self is Closed),
    {
        match self {
            PollSendResult::Closed => true,
            _ => false,
        }
    }

    /// This result, or what `f` gives if there is nothing.
    pub fn or_else<F: FnOnce() -> PollSendResult<T>>(self, f: F) -> (r: PollSendResult<T>)
        requires
            self is Empty ==> f.requires(()),
        ensures
            self is Empty ==> f.ensures((), r),
            !(self is Empty) ==> r == self,
    {
        match self {
            PollSendResult::Empty => f(),
            _ => self,
        }
    }

    /// Applies `map` to the chunk, if there is one.
    pub fn map<U, F: FnOnce(T) -> U>(self, map: F) -> (r: PollSendResult<U>)
        requires
            self matches PollSendResult::Ready(t) ==> map.requires((t,)),
        ensures
            match self {
                PollSendResult::Empty => r is Empty,
                PollSendResult::Closed => r is Closed,
                PollSendResult::Ready(t) => r matches PollSendResult::Ready(u) && map.ensures((t,), u),
            },
    {
        match self {
            PollSendResult::Empty => PollSendResult::Empty,
            PollSendResult::Closed => PollSendResult::Closed,
            PollSendResult::Ready(t) => PollSendResult::Ready(map(t)),
        }
    }

    /// The chunk; there must be one.
    pub fn unwrap(self) -> (r: T)
        requires
            self is Ready,
        ensures
            self == PollSendResult::Ready(r),
    {
        match self {
            PollSendResult::Ready(t) => t,
            _ => vstd::pervasive::unreached(),
        }
    }

    /// The chunk; there must be one.
    pub fn expect(self, message: &str) -> (r: T)
        requires
            self is Ready,
        ensures
            self == PollSendResult::Ready(r),
    {
        self.unwrap()
    }

    /// The chunk, if there is one.
    pub fn some(self) -> (r: Option<T>)
        ensures
            match self {
                PollSendResult::Ready(t) => r == Some(t),
                _ => r is None,
            },
    {
        match self {
            PollSendResult::Ready(t) => Some(t),
            PollSendResult::Empty => None,
            PollSendResult::Closed => None,
        }
    }

    /// `Some` for a value, `None` for none.
    pub fn from_option(value: Option<T>) -> (r: Self)
        ensures
            match value {
                Some(t) => r == PollSendResult::Ready(t),
                None => r is Empty,
            },
    {
        match value {
            Some(t) => PollSendResult::Ready(t),
            None => PollSendResult::Empty,
        }
    }
}

/// The sending half of an association.
pub struct AssociationTx<FakeContent: FakeAddr> {
    id: AssocId,
    primary_path: TransportAddress<FakeContent>,
    primary_congestion: PerDestinationInfo,
    peer_verification_tag: u32,
    local_port: u16,
    peer_port: u16,
    out_queue: VecDeque<DataChunk>,
    resend_queue: Vec<ResendEntry>,
    send_next: VecDeque<Chunk<FakeContent>>,
    tsn_counter: Tsn,
    last_acked_tsn: Tsn,
    peer_last_acked_tsn: Tsn,
    duplicated_acks: usize,
    out_buffer_limit: usize,
    current_out_buffered: usize,
    current_in_flight: usize,
    per_stream: Vec<Sequence>,
    peer_rcv_window: u32,
    srtt: Srtt,
    timer_ctr: u64,
    rto_timer: Option<Timer>,
    shutdown_rto_timer: Option<Timer>,
    heartbeat_timer: Option<Timer>,
    heartbeats_unacked: usize,
    pmtu_probe: PmtuProbe,
    shutdown_state: Option<ShutdownState>,
}

/// The value of an [`AssociationTx`].
pub struct AssocTxView<FakeContent: FakeAddr> {
    pub id: AssocId,
    pub primary_path: TransportAddress<FakeContent>,
    pub primary_congestion: PerDestinationInfo,
    pub peer_verification_tag: u32,
    pub local_port: u16,
    pub peer_port: u16,
    /// User data waiting to be sent.
    pub out_queue: Seq<DataChunkView>,
    /// Data in flight, oldest first.
    pub resend_queue: Seq<ResendEntryView>,
    /// Control chunks waiting to be sent.
    pub send_next: Seq<ChunkView<FakeContent>>,
    pub tsn_counter: Tsn,
    pub last_acked_tsn: Tsn,
    pub peer_last_acked_tsn: Tsn,
    pub duplicated_acks: usize,
    pub out_buffer_limit: usize,
    pub current_out_buffered: usize,
    pub current_in_flight: usize,
    /// The next sequence number of each outgoing stream.
    pub per_stream: Seq<Sequence>,
    pub peer_rcv_window: u32,
    pub srtt: Srtt,
    pub timer_ctr: u64,
    pub rto_timer: Option<Timer>,
    pub shutdown_rto_timer: Option<Timer>,
    pub heartbeat_timer: Option<Timer>,
    pub heartbeats_unacked: usize,
    pub pmtu_probe: PmtuProbe,
    pub shutdown_state: Option<ShutdownState>,
}

/// The bytes of user data in a list of chunks.
pub open spec fn data_bytes(s: Seq<DataChunkView>) -> nat
    decreases s.len(),
{
    if s.len() == 0 {
        0
    } else {
        data_bytes(s.drop_last()) + s.last().buf.len()
    }
}

/// The bytes of user data in flight.
pub open spec fn resend_bytes(s: Seq<ResendEntryView>) -> nat
    decreases s.len(),
{
    if s.len() == 0 {
        0
    } else {
        resend_bytes(s.drop_last()) + s.last().data.buf.len()
    }
}

/// The next value of the timer counter.
pub open spec fn next_marker(c: u64) -> u64 {
    if c == u64::MAX {
        0
    } else {
        (c + 1) as u64
    }
}

/// The largest heartbeat probe: 70 KiB.
pub open spec fn max_probe() -> nat {
    71680
}

impl<FakeContent: FakeAddr> AssocTxView<FakeContent> {
    /// What every operation keeps: the byte counters are the sums over the queues, the
    /// buffer stays within its limit, and the parts are well formed.
    pub open spec fn inv(self) -> bool {
        &&& self.current_in_flight == resend_bytes(self.resend_queue)
        &&& self.current_out_buffered == data_bytes(self.out_queue) + resend_bytes(
            self.resend_queue,
        )
        &&& self.current_out_buffered <= self.out_buffer_limit
        &&& self.out_buffer_limit + 64 <= usize::MAX
        &&& self.srtt.wf()
        &&& self.primary_congestion.wf()
        &&& forall|i: int| 0 <= i < self.send_next.len() ==> #[trigger] self.send_next[i].wf()
    }

    /// The maximum transmission unit in use.
    pub open spec fn pmtu(self) -> usize {
        self.pmtu_probe.highest_successful
    }

    /// The state after the retransmission timer is set from `now`.
    pub open spec fn set_rto_timeout(self, now: u64) -> Self {
        AssocTxView {
            rto_timer: Some(
                Timer { at: time_add(now, self.srtt.spec_rto_duration()), marker: self.timer_ctr },
            ),
            timer_ctr: next_marker(self.timer_ctr),
            ..self
        }
    }

    /// The state after the shutdown retransmission timer is set from `now`.
    pub open spec fn set_shutdown_rto_timeout(self, now: u64) -> Self {
        AssocTxView {
            shutdown_rto_timer: Some(
                Timer { at: time_add(now, self.srtt.spec_rto_duration()), marker: self.timer_ctr },
            ),
            timer_ctr: next_marker(self.timer_ctr),
            ..self
        }
    }

    /// The state after the heartbeat timer is set from `now`: 100 ms after a probe got
    /// through, 2 s after one was lost.
    pub open spec fn set_heartbeat_timeout(self, now: u64) -> Self {
        AssocTxView {
            heartbeat_timer: Some(
                Timer { at: self.pmtu_probe.spec_next_probe(now), marker: self.timer_ctr },
            ),
            timer_ctr: next_marker(self.timer_ctr),
            ..self
        }
    }

    /// Whether user data can be queued, and if not why.
    pub open spec fn send_refusal(self, len: nat, stream: u16) -> Option<SendErrorKind> {
        if self.shutdown_state is Some {
            Some(SendErrorKind::Closed)
        } else if stream >= self.per_stream.len() {
            Some(SendErrorKind::UnknownStream)
        } else if self.current_out_buffered + len > self.out_buffer_limit {
            Some(SendErrorKind::BufferFull)
        } else {
            None
        }
    }

    /// The state after user data is queued on `stream` with the stream's next sequence
    /// number, as a whole message.
    pub open spec fn after_queue(
        self,
        data: Seq<u8>,
        stream: u16,
        ppid: u32,
        immediate: bool,
        unordered: bool,
    ) -> Self {
        let seq = self.per_stream[stream as int];
        AssocTxView {
            current_out_buffered: (self.current_out_buffered + data.len()) as usize,
            out_queue: self.out_queue.push(
                DataChunkView {
                    tsn: Tsn(0),
                    stream_id: stream,
                    stream_seq_num: seq,
                    ppid,
                    buf: data,
                    immediate,
                    unordered,
                    begin: true,
                    end: true,
                },
            ),
            per_stream: self.per_stream.update(
                stream as int,
                Sequence(((seq.0 + 1) % 65536) as u16),
            ),
            ..self
        }
    }

    /// What polling for a control chunk does, with room for `limit` bytes after
    /// `already_packed` bytes of the packet.
    pub open spec fn after_poll_signal(self, limit: usize, already_packed: usize, now: u64) -> (
        Self,
        PollSendResult<ChunkView<FakeContent>>,
    ) {
        let room = self.pmtu() - (if already_packed < self.pmtu() {
            already_packed as int
        } else {
            self.pmtu() as int
        });
        let lim = if limit < room {
            limit as int
        } else {
            room
        };
        if self.send_next.len() > 0 {
            let front = self.send_next[0];
            if front.spec_size() <= lim || (front is HeartBeat && already_packed == 0) {
                (AssocTxView { send_next: self.send_next.drop_first(), ..self }, PollSendResult::Ready(front))
            } else {
                (self, PollSendResult::Empty)
            }
        } else {
            let idle = self.resend_queue.len() == 0 && self.out_queue.len() == 0;
            match self.shutdown_state {
                Some(ShutdownState::TryingTo) => if idle {
                    (
                        AssocTxView {
                            shutdown_state: Some(ShutdownState::ShutdownSent),
                            ..self
                        }.set_shutdown_rto_timeout(now),
                        PollSendResult::Ready(ChunkView::ShutDown(self.peer_last_acked_tsn)),
                    )
                } else {
                    (self, PollSendResult::Empty)
                },
                Some(ShutdownState::ShutdownReceived) => if idle {
                    (
                        AssocTxView {
                            shutdown_state: Some(ShutdownState::ShutdownAckSent),
                            ..self
                        }.set_shutdown_rto_timeout(now),
                        PollSendResult::Ready(ChunkView::ShutDownAck),
                    )
                } else {
                    (self, PollSendResult::Empty)
                },
                Some(ShutdownState::AbortReceived) => (self, PollSendResult::Closed),
                Some(ShutdownState::Complete) => (self, PollSendResult::Closed),
                _ => (self, PollSendResult::Empty),
            }
        }
    }

    /// The state after a new data chunk is put on the wire at `now`.
    pub open spec fn after_new_send(self, p: DataChunkView, now: u64) -> Self {
        let s = AssocTxView {
            tsn_counter: Tsn(((self.tsn_counter.0 + 1) % 4294967296) as u32),
            peer_rcv_window: (self.peer_rcv_window - p.buf.len()) as u32,
            current_in_flight: (self.current_in_flight + p.buf.len()) as usize,
            resend_queue: self.resend_queue.push(new_entry(p, now)),
            srtt: self.srtt.after_send(p.tsn, now),
            ..self
        };
        if self.rto_timer is None {
            s.set_rto_timeout(now)
        } else {
            s
        }
    }

    /// What polling for data does when congestion control lets new data out, with
    /// `limit` bytes of room for payload. The message at the front goes whole if it fits
    /// `limit` and the receive window; it is split only if it is larger than the path MTU
    /// known to get through.
    /// So a message (or the rest of one) that does not fit but is at most the path MTU is
    /// neither sent nor split: with a full packet of room that is one of `pmtu - 15` to
    /// `pmtu` bytes, and it stays at the front of the queue, holding back what follows.
    pub open spec fn poll_new_data(self, limit: int, now: u64) -> (Self, PollSendResult<DataChunkView>) {
        if self.out_queue.len() == 0 || self.current_in_flight > self.primary_congestion.cwnd {
            (self, PollSendResult::Empty)
        } else {
            let lim = if limit < self.peer_rcv_window {
                limit
            } else {
                self.peer_rcv_window as int
            };
            let front = self.out_queue[0];
            if front.buf.len() <= lim {
                let p = DataChunkView { tsn: self.tsn_counter, end: true, ..front };
                (
                    AssocTxView { out_queue: self.out_queue.drop_first(), ..self }.after_new_send(
                        p,
                        now,
                    ),
                    PollSendResult::Ready(p),
                )
            } else if front.buf.len() > self.pmtu() && lim > 0 {
                let p = DataChunkView {
                    tsn: self.tsn_counter,
                    buf: front.buf.take(lim),
                    end: false,
                    ..front
                };
                let rest = DataChunkView { begin: false, buf: front.buf.skip(lim), ..front };
                (
                    AssocTxView {
                        out_queue: self.out_queue.update(0, rest),
                        ..self
                    }.after_new_send(p, now),
                    PollSendResult::Ready(p),
                )
            } else {
                (self, PollSendResult::Empty)
            }
        }
    }

    /// In loss recovery: the oldest chunk in flight goes again if it is marked for
    /// retransmission and fits `limit`.
    pub open spec fn poll_retransmit(self, limit: int, now: u64) -> (Self, PollSendResult<DataChunkView>) {
        if self.resend_queue.len() > 0 && self.resend_queue[0].data.buf.len() <= limit
            && self.resend_queue[0].marked_for_retransmit {
            let f = self.resend_queue[0];
            let s = AssocTxView {
                resend_queue: self.resend_queue.update(
                    0,
                    ResendEntryView { marked_for_retransmit: false, ..f },
                ),
                ..self
            };
            (
                if self.rto_timer is None {
                    s.set_rto_timeout(now)
                } else {
                    s
                },
                PollSendResult::Ready(f.data),
            )
        } else {
            (self, PollSendResult::Empty)
        }
    }

    /// In fast recovery: the first chunk in flight marked for fast retransmission that
    /// was not fast retransmitted yet and fits `limit` goes again, once.
    pub open spec fn poll_fast_retransmit(self, limit: int) -> (Self, PollSendResult<DataChunkView>) {
        match first_fast_retransmit(self.resend_queue, limit, 0) {
            Some(i) => {
                let e = self.resend_queue[i];
                (
                    AssocTxView {
                        resend_queue: self.resend_queue.update(
                            i,
                            ResendEntryView {
                                marked_was_fast_retransmit: true,
                                marked_for_fast_retransmit: false,
                                ..e
                            },
                        ),
                        ..self
                    },
                    PollSendResult::Ready(e.data),
                )
            },
            None => (self, PollSendResult::Empty),
        }
    }

    /// What polling for data does, with room for `data_limit` bytes after `already_packed`
    /// bytes of the packet: in loss recovery the oldest chunk marked for retransmission
    /// goes again, in fast recovery the first chunk marked for fast retransmission, and
    /// otherwise new data within the congestion and receive windows (fragmented if it is
    /// larger than the path MTU).
    pub open spec fn after_poll_data(self, data_limit: usize, already_packed: usize, now: u64) -> (
        Self,
        PollSendResult<DataChunkView>,
    ) {
        if self.pmtu() <= already_packed {
            (self, PollSendResult::Empty)
        } else {
            let room = self.pmtu() - already_packed;
            let dl = if data_limit < room {
                data_limit as int
            } else {
                room
            };
            if dl <= 16 {
                (self, PollSendResult::Empty)
            } else {
                let lim = dl - 16;
                match self.primary_congestion.state {
                    CongestionState::LossRecovery => self.poll_retransmit(lim, now),
                    CongestionState::FastRecovery => self.poll_fast_retransmit(lim),
                    _ => self.poll_new_data(lim, now),
                }
            }
        }
    }
}

impl<FakeContent: FakeAddr> AssocTxView<FakeContent> {
    /// The state after a notification. A control chunk is queued to send; a SACK among
    /// them records the cumulative TSN it acknowledges and, once a SHUTDOWN was sent, goes
    /// with a SHUTDOWN that repeats it. A received SACK or HEARTBEAT ACK is processed. The
    /// shutdown notifications move the shutdown handshake on: a SHUTDOWN from the peer is
    /// answered with a SHUTDOWN ACK once ours was sent, and a SHUTDOWN ACK from the peer
    /// with a SHUTDOWN COMPLETE.
    pub open spec fn after_notification(self, n: TxNotification<FakeContent>) -> Self {
        match n {
            TxNotification::Send(c) => {
                let s = match c@ {
                    ChunkView::SAck(sack) => {
                        let s1 = AssocTxView { peer_last_acked_tsn: sack.cum_tsn, ..self };
                        if self.shutdown_state == Some(ShutdownState::ShutdownSent) {
                            AssocTxView {
                                send_next: s1.send_next.push(ChunkView::ShutDown(sack.cum_tsn)),
                                ..s1
                            }
                        } else {
                            s1
                        }
                    },
                    _ => self,
                };
                AssocTxView { send_next: s.send_next.push(c@), ..s }
            },
            TxNotification::SAck(sack, at) => self.after_sack(sack@, at),
            TxNotification::Abort => AssocTxView {
                shutdown_state: Some(ShutdownState::AbortReceived),
                ..self
            },
            TxNotification::Shutdown => if self.shutdown_state is None {
                AssocTxView { shutdown_state: Some(ShutdownState::TryingTo), ..self }
            } else {
                self
            },
            TxNotification::PeerShutdown => match self.shutdown_state {
                None => AssocTxView { shutdown_state: Some(ShutdownState::ShutdownReceived), ..self },
                Some(ShutdownState::ShutdownSent) | Some(ShutdownState::ShutdownAckSent) => AssocTxView {
                    send_next: self.send_next.push(ChunkView::ShutDownAck),
                    ..self
                },
                _ => self,
            },
            TxNotification::PeerShutdownAck => AssocTxView {
                send_next: self.send_next.push(ChunkView::ShutDownComplete { reflected: false }),
                shutdown_state: Some(ShutdownState::Complete),
                ..self
            },
            TxNotification::PeerShutdownComplete => AssocTxView {
                shutdown_state: Some(ShutdownState::Complete),
                ..self
            },
            TxNotification::HeartBeatAck(data, at) => self.after_heartbeat_ack(data@.len() as usize, at),
            TxNotification::_PrimaryPathChanged(addr) => AssocTxView { primary_path: addr, ..self },
        }
    }
}

/// A message handed to `try_send_data`: the bytes, the stream, the payload protocol id and
/// the immediate and unordered flags.
pub type Message = (Seq<u8>, u16, u32, bool, bool);

/// How many of `msgs` go on `stream`.
pub open spec fn count_on(msgs: Seq<Message>, stream: u16) -> nat
    decreases msgs.len(),
{
    if msgs.len() == 0 {
        0
    } else {
        count_on(msgs.drop_last(), stream) + (if msgs.last().1 == stream {
            1nat
        } else {
            0nat
        })
    }
}

/// The chunk that carries the whole message `m` with stream sequence number `seq`.
pub open spec fn message_chunk(m: Message, seq: u16) -> DataChunkView {
    DataChunkView {
        tsn: Tsn(0),
        stream_id: m.1,
        stream_seq_num: Sequence(seq),
        ppid: m.2,
        buf: m.0,
        immediate: m.3,
        unordered: m.4,
        begin: true,
        end: true,
    }
}

impl<FakeContent: FakeAddr> AssocTxView<FakeContent> {
    /// The state after the messages `msgs` are queued, in order.
    pub open spec fn after_queues(self, msgs: Seq<Message>) -> Self
        decreases msgs.len(),
    {
        if msgs.len() == 0 {
            self
        } else {
            let m = msgs.last();
            self.after_queues(msgs.drop_last()).after_queue(m.0, m.1, m.2, m.3, m.4)
        }
    }
}

/// What the sending half accepts as a notification: user data goes through
/// `try_send_data`, a control chunk to send is well formed, and a SACK comes with a time
/// within the range the library works with.
pub open spec fn notification_ok<F: FakeAddr>(n: TxNotification<F>) -> bool {
    match n {
        TxNotification::Send(c) => !(c is Data) && c@.wf(),
        TxNotification::SAck(_, at) => at <= TIME_LIMIT,
        _ => true,
    }
}

/// Whether the sending half accepts `n`: `notification_ok`.
pub fn accepts<F: FakeAddr>(n: &TxNotification<F>) -> (r: bool)
    ensures
        r == notification_ok(*n),
{
    match n {
        TxNotification::Send(Chunk::Data(_)) => false,
        TxNotification::Send(c) => c.fits(),
        TxNotification::SAck(_, at) => *at <= TIME_LIMIT,
        _ => true,
    }
}

/// A new sending half: nothing queued, nothing in flight, slow start with the initial
/// window for the path MTU, the peer's receive window as announced, and the first heartbeat
/// due 10 ms after `now` when `heartbeat` is set.
pub open spec fn initial_tx_view<F: FakeAddr>(
    id: AssocId,
    settings: AssocTxSettings<F>,
    now: u64,
    heartbeat: bool,
) -> AssocTxView<F> {
    AssocTxView {
        id,
        primary_path: settings.primary_path,
        primary_congestion: PerDestinationInfo {
            state: CongestionState::SlowStart,
            pmcds: (settings.pmtu - 12) as usize,
            cwnd: congestion::initial_cwnd((settings.pmtu - 12) as usize),
            ssthresh: usize::MAX,
            partial_bytes_acked: 0,
        },
        peer_verification_tag: settings.peer_verification_tag,
        local_port: settings.local_port,
        peer_port: settings.peer_port,
        out_queue: seq![],
        resend_queue: seq![],
        send_next: seq![],
        tsn_counter: settings.init_tsn,
        last_acked_tsn: Tsn(0),
        peer_last_acked_tsn: Tsn(0),
        duplicated_acks: 0,
        out_buffer_limit: settings.out_buffer_limit,
        current_out_buffered: 0,
        current_in_flight: 0,
        per_stream: Seq::new(settings.out_streams as nat, |_j: int| Sequence(0)),
        peer_rcv_window: settings.peer_arwnd,
        srtt: Srtt { uninited: true, measure_for_tsn: None, srtt: 0, rttvar: 0, rto: 0 },
        timer_ctr: 1,
        rto_timer: None,
        shutdown_rto_timer: None,
        heartbeat_timer: if heartbeat {
            Some(Timer { at: time_add(now, 10_000_000), marker: 0 })
        } else {
            None
        },
        heartbeats_unacked: 0,
        pmtu_probe: PmtuProbe {
            last_tested_size: 1200,
            highest_successful: 1200,
            last_success: true,
            probe_in_flight: false,
        },
        shutdown_state: None,
    }
}

/// The first chunk in flight from `i` on that is marked for fast retransmission, was not
/// fast retransmitted yet, and fits `limit`.
pub open spec fn first_fast_retransmit(q: Seq<ResendEntryView>, limit: int, i: int) -> Option<int>
    decreases q.len() - i,
{
    if i < 0 || i >= q.len() {
        None
    } else if q[i].marked_for_fast_retransmit && !q[i].marked_was_fast_retransmit
        && q[i].data.buf.len() <= limit {
        Some(i)
    } else {
        first_fast_retransmit(q, limit, i + 1)
    }
}

pub proof fn lemma_data_bytes_push(s: Seq<DataChunkView>, x: DataChunkView)
    ensures
        data_bytes(s.push(x)) == data_bytes(s) + x.buf.len(),
{
    assert(s.push(x).drop_last() =~= s);
}

pub proof fn lemma_data_bytes_update(s: Seq<DataChunkView>, i: int, x: DataChunkView)
    requires
        0 <= i < s.len(),
    ensures
        data_bytes(s.update(i, x)) == data_bytes(s) - s[i].buf.len() + x.buf.len(),
    decreases s.len(),
{
    if i == s.len() - 1 {
        assert(s.update(i, x).drop_last() =~= s.drop_last());
    } else {
        lemma_data_bytes_update(s.drop_last(), i, x);
        assert(s.update(i, x).drop_last() =~= s.drop_last().update(i, x));
    }
}

pub proof fn lemma_data_bytes_drop_first(s: Seq<DataChunkView>)
    requires
        s.len() > 0,
    ensures
        data_bytes(s.drop_first()) == data_bytes(s) - s[0].buf.len(),
    decreases s.len(),
{
    if s.len() > 1 {
        lemma_data_bytes_drop_first(s.drop_last());
        assert(s.drop_first().drop_last() =~= s.drop_last().drop_first());
        assert(s.drop_first().last() == s.last());
        assert(s.drop_last()[0] == s[0]);
    } else {
        assert(s.drop_first() =~= seq![]);
        assert(s.drop_last() =~= seq![]);
    }
}

pub proof fn lemma_resend_bytes_push(s: Seq<ResendEntryView>, x: ResendEntryView)
    ensures
        resend_bytes(s.push(x)) == resend_bytes(s) + x.data.buf.len(),
{
    assert(s.push(x).drop_last() =~= s);
}

pub proof fn lemma_resend_bytes_update(s: Seq<ResendEntryView>, i: int, x: ResendEntryView)
    requires
        0 <= i < s.len(),
    ensures
        resend_bytes(s.update(i, x)) == resend_bytes(s) - s[i].data.buf.len() + x.data.buf.len(),
    decreases s.len(),
{
    if i == s.len() - 1 {
        assert(s.update(i, x).drop_last() =~= s.drop_last());
    } else {
        lemma_resend_bytes_update(s.drop_last(), i, x);
        assert(s.update(i, x).drop_last() =~= s.drop_last().update(i, x));
    }
}

pub proof fn lemma_resend_bytes_drop_first(s: Seq<ResendEntryView>)
    requires
        s.len() > 0,
    ensures
        resend_bytes(s.drop_first()) == resend_bytes(s) - s[0].data.buf.len(),
    decreases s.len(),
{
    if s.len() > 1 {
        lemma_resend_bytes_drop_first(s.drop_last());
        assert(s.drop_first().drop_last() =~= s.drop_last().drop_first());
        assert(s.drop_first().last() == s.last());
        assert(s.drop_last()[0] == s[0]);
    } else {
        assert(s.drop_first() =~= seq![]);
        assert(s.drop_last() =~= seq![]);
    }
}

pub proof fn lemma_resend_entry_bound(s: Seq<ResendEntryView>, i: int)
    requires
        0 <= i < s.len(),
    ensures
        s[i].data.buf.len() <= resend_bytes(s),
    decreases s.len(),
{
    if i < s.len() - 1 {
        lemma_resend_entry_bound(s.drop_last(), i);
    }
}

pub proof fn lemma_data_entry_bound(s: Seq<DataChunkView>, i: int)
    requires
        0 <= i < s.len(),
    ensures
        s[i].buf.len() <= data_bytes(s),
    decreases s.len(),
{
    if i < s.len() - 1 {
        lemma_data_entry_bound(s.drop_last(), i);
    }
}

impl<FakeContent: FakeAddr> AssociationTx<FakeContent> {
    /// The value of the sending half.
    pub closed spec fn view(&self) -> AssocTxView<FakeContent> {
        AssocTxView {
            id: self.id,
            primary_path: self.primary_path,
            primary_congestion: self.primary_congestion,
            peer_verification_tag: self.peer_verification_tag,
            local_port: self.local_port,
            peer_port: self.peer_port,
            out_queue: self.out_queue@.map_values(|d: DataChunk| d@),
            resend_queue: self.resend_queue@.map_values(|e: ResendEntry| entry_view(e)),
            send_next: self.send_next@.map_values(|c: Chunk<FakeContent>| c@),
            tsn_counter: self.tsn_counter,
            last_acked_tsn: self.last_acked_tsn,
            peer_last_acked_tsn: self.peer_last_acked_tsn,
            duplicated_acks: self.duplicated_acks,
            out_buffer_limit: self.out_buffer_limit,
            current_out_buffered: self.current_out_buffered,
            current_in_flight: self.current_in_flight,
            per_stream: self.per_stream@,
            peer_rcv_window: self.peer_rcv_window,
            srtt: self.srtt,
            timer_ctr: self.timer_ctr,
            rto_timer: self.rto_timer,
            shutdown_rto_timer: self.shutdown_rto_timer,
            heartbeat_timer: self.heartbeat_timer,
            heartbeats_unacked: self.heartbeats_unacked,
            pmtu_probe: self.pmtu_probe,
            shutdown_state: self.shutdown_state,
        }
    }

    /// The sending half is consistent.
    pub closed spec fn wf(&self) -> bool {
        self.view().inv()
    }

    /// A new sending half: nothing queued, the peer's window as announced, and the first
    /// heartbeat due 10 ms from `now` when `heartbeat` is set.
    fn with_heartbeat(id: AssocId, settings: AssocTxSettings<FakeContent>, now: u64, heartbeat: bool) -> (r: Self)
        requires
            12 <= settings.pmtu <= usize::MAX / 4,
            settings.out_buffer_limit + 64 <= usize::MAX,
        ensures
            r.wf(),
            r.view() == initial_tx_view(id, settings, now, heartbeat),
    {
        let mut per_stream: Vec<Sequence> = Vec::new();
        let mut i: u16 = 0;
        while i < settings.out_streams
            invariant
                i <= settings.out_streams,
                per_stream@ =~= Seq::new(i as nat, |_j: int| Sequence(0)),
            decreases settings.out_streams - i,
        {
            per_stream.push(Sequence(0));
            i = i + 1;
        }
        let heartbeat_timer = if heartbeat {
            Some(Timer::new(now.saturating_add(10_000_000), 0))
        } else {
            None
        };
        let r = Self {
            id,
            primary_path: settings.primary_path,
            primary_congestion: PerDestinationInfo::new(settings.pmtu),
            peer_verification_tag: settings.peer_verification_tag,
            local_port: settings.local_port,
            peer_port: settings.peer_port,
            tsn_counter: settings.init_tsn,
            last_acked_tsn: Tsn(0),
            peer_last_acked_tsn: Tsn(0),
            duplicated_acks: 0,
            out_buffer_limit: settings.out_buffer_limit,
            peer_rcv_window: settings.peer_arwnd,
            out_queue: VecDeque::new(),
            current_in_flight: 0,
            resend_queue: Vec::new(),
            send_next: VecDeque::new(),
            per_stream,
            current_out_buffered: 0,
            srtt: Srtt::new(),
            rto_timer: None,
            shutdown_rto_timer: None,
            heartbeat_timer,
            heartbeats_unacked: 0,
            pmtu_probe: PmtuProbe::new(),
            timer_ctr: 1,
            shutdown_state: None,
        };
        assert(r.view().out_queue =~= seq![]);
        assert(r.view().resend_queue =~= seq![]);
        assert(r.view().send_next =~= seq![]);
        r
    }
}

impl<FakeContent: FakeAddr> AssociationTx<FakeContent> {
    /// A new sending half, with the first heartbeat due 10 ms after `now`.
    pub fn new(id: AssocId, settings: AssocTxSettings<FakeContent>, now: u64) -> (r: Self)
        requires
            12 <= settings.pmtu <= usize::MAX / 4,
            settings.out_buffer_limit + 64 <= usize::MAX,
        ensures
            r.wf(),
            r@ == initial_tx_view(id, settings, now, true),
    {
        Self::with_heartbeat(id, settings, now, true)
    }

    /// A new sending half that sends no heartbeats (and so probes no path MTU).
    pub fn new_without_heartbeat(id: AssocId, settings: AssocTxSettings<FakeContent>, now: u64) -> (r: Self)
        requires
            12 <= settings.pmtu <= usize::MAX / 4,
            settings.out_buffer_limit + 64 <= usize::MAX,
        ensures
            r.wf(),
            r@ == initial_tx_view(id, settings, now, false),
    {
        Self::with_heartbeat(id, settings, now, false)
    }

    pub fn id(&self) -> (r: AssocId)
        ensures
            r == self@.id,
    {
        self.id
    }

    /// The bytes of user data in flight.
    pub fn current_in_flight(&self) -> (r: usize)
        ensures
            r == self@.current_in_flight,
    {
        self.current_in_flight
    }

    /// Whether the association is gone: shut down completely or aborted.
    pub fn shutdown_complete(&self) -> (r: bool)
        ensures
            r == (self@.shutdown_state == Some(ShutdownState::Complete) || self@.shutdown_state
                == Some(ShutdownState::AbortReceived)),
    {
        ShutdownState::is_completely_shutdown(self.shutdown_state.as_ref())
    }

    /// Starts shutting down once everything queued is sent and acknowledged.
    pub fn initiate_shutdown(&mut self)
        requires
            old(self).wf(),
        ensures
            final(self).wf(),
            final(self)@ == (AssocTxView {
                shutdown_state: Some(ShutdownState::TryingTo),
                ..old(self)@
            }),
    {
        self.shutdown_state = Some(ShutdownState::TryingTo);
    }

    /// Queues `data` as one message on `stream`. Refused, with the data handed back, when
    /// the association is shutting down, the stream does not exist or the data would not
    /// fit the send buffer.
    pub fn try_send_data(
        &mut self,
        data: Vec<u8>,
        stream: u16,
        ppid: u32,
        immediate: bool,
        unordered: bool,
    ) -> (r: Result<(), SendError>)
        requires
            old(self).wf(),
        ensures
            final(self).wf(),
            match r {
                Ok(()) => old(self)@.send_refusal(data@.len(), stream) is None && final(self)@
                    == old(self)@.after_queue(data@, stream, ppid, immediate, unordered),
                Err(e) => old(self)@.send_refusal(data@.len(), stream) == Some(e.kind) && e.data@
                    == data@ && final(self)@ == old(self)@,
            },
    {
        if self.shutdown_state.is_some() {
            return Err(SendError { data, kind: SendErrorKind::Closed });
        }
        let idx = stream as usize;
        if idx >= self.per_stream.len() {
            return Err(SendError { kind: SendErrorKind::UnknownStream, data });
        }
        if data.len() > self.out_buffer_limit - self.current_out_buffered {
            return Err(SendError { kind: SendErrorKind::BufferFull, data });
        }
        let ghost old_view = self@;
        let seq = self.per_stream[idx];
        let len = data.len();
        self.current_out_buffered = self.current_out_buffered + len;
        let chunk = DataChunk {
            tsn: Tsn(0),
            stream_id: stream,
            stream_seq_num: seq,
            ppid,
            buf: data,
            immediate,
            unordered,
            begin: true,
            end: true,
        };
        let ghost cv = chunk@;
        self.out_queue.push_back(chunk);
        self.per_stream.set(idx, seq.increase());
        proof {
            lemma_data_bytes_push(old_view.out_queue, cv);
            assert(self@.out_queue =~= old_view.out_queue.push(cv));
            assert(self@.send_next =~= old_view.send_next);
        }
        assert(self@ =~= old_view.after_queue(cv.buf, stream, ppid, immediate, unordered));
        Ok(())
    }

    /// The common header for packets of this association.
    pub fn packet_header(&self) -> (r: Packet)
        ensures
            r == (Packet {
                from: self@.local_port,
                to: self@.peer_port,
                verification_tag: self@.peer_verification_tag,
            }),
    {
        Packet::new(self.local_port, self.peer_port, self.peer_verification_tag)
    }

    pub fn primary_path(&self) -> (r: TransportAddress<FakeContent>)
        ensures
            r == self@.primary_path,
    {
        self.primary_path
    }

    fn set_rto_timeout(&mut self, now: u64)
        ensures
            final(self)@ == old(self)@.set_rto_timeout(now),
    {
        let at = now.saturating_add(self.srtt.rto_duration());
        self.rto_timer = Some(Timer { at, marker: self.timer_ctr });
        self.timer_ctr = self.timer_ctr.wrapping_add(1);
    }

    fn set_shutdown_rto_timeout(&mut self, now: u64)
        ensures
            final(self)@ == old(self)@.set_shutdown_rto_timeout(now),
    {
        let at = now.saturating_add(self.srtt.rto_duration());
        self.shutdown_rto_timer = Some(Timer { at, marker: self.timer_ctr });
        self.timer_ctr = self.timer_ctr.wrapping_add(1);
    }

    fn set_heartbeat_timeout(&mut self, now: u64)
        ensures
            final(self)@ == old(self)@.set_heartbeat_timeout(now),
    {
        let at = self.pmtu_probe.next_probe(now);
        self.heartbeat_timer = Some(Timer { at, marker: self.timer_ctr });
        self.timer_ctr = self.timer_ctr.wrapping_add(1);
    }

    /// The next control chunk to send, if it fits into `limit` bytes and what is left of
    /// the path MTU after `already_packed` bytes; a heartbeat probe goes alone into a packet
    /// whatever its size. With nothing queued, this is where the shutdown handshake sends
    /// its SHUTDOWN or SHUTDOWN ACK once all data is acknowledged.
    pub fn poll_signal_to_send(&mut self, limit: usize, already_packed: usize, now: u64) -> (r:
        PollSendResult<Chunk<FakeContent>>)
        requires
            old(self).wf(),
        ensures
            final(self).wf(),
            (final(self)@, poll_chunk_view(r)) == old(self)@.after_poll_signal(
                limit,
                already_packed,
                now,
            ),
    {
        let pmtu = self.pmtu_probe.get_pmtu();
        let packed = if already_packed < pmtu {
            already_packed
        } else {
            pmtu
        };
        let room = pmtu - packed;
        let limit = if limit < room {
            limit
        } else {
            room
        };
        let ghost old_view = self@;
        if self.send_next.len() > 0 {
            assert(old_view.send_next[0] == self.send_next@[0]@);
            assert(old_view.send_next[0].wf());
            let fits = self.send_next[0].serialized_size() <= limit;
            let is_heartbeat = match &self.send_next[0] {
                Chunk::HeartBeat(_) => true,
                _ => false,
            };
            if fits || (is_heartbeat && already_packed == 0) {
                let front = self.send_next.pop_front().unwrap();
                assert(self@.send_next =~= old_view.send_next.drop_first());
                assert(self@ =~= AssocTxView { send_next: old_view.send_next.drop_first(), ..old_view });
                PollSendResult::Ready(front)
            } else {
                PollSendResult::Empty
            }
        } else {
            let idle = self.resend_queue.len() == 0 && self.out_queue.len() == 0;
            match self.shutdown_state {
                Some(ShutdownState::TryingTo) => {
                    if idle {
                        self.shutdown_state = Some(ShutdownState::ShutdownSent);
                        self.set_shutdown_rto_timeout(now);
                        PollSendResult::Ready(Chunk::ShutDown(self.peer_last_acked_tsn))
                    } else {
                        PollSendResult::Empty
                    }
                },
                Some(ShutdownState::ShutdownReceived) => {
                    if idle {
                        self.shutdown_state = Some(ShutdownState::ShutdownAckSent);
                        self.set_shutdown_rto_timeout(now);
                        PollSendResult::Ready(Chunk::ShutDownAck)
                    } else {
                        PollSendResult::Empty
                    }
                },
                Some(ShutdownState::AbortReceived) => PollSendResult::Closed,
                Some(ShutdownState::Complete) => PollSendResult::Closed,
                Some(ShutdownState::ShutdownSent) => PollSendResult::Empty,
                Some(ShutdownState::ShutdownAckSent) => PollSendResult::Empty,
                None => PollSendResult::Empty,
            }
        }
    }

    /// The earliest of the shutdown retransmission, retransmission and heartbeat timers.
    pub fn next_timeout(&self) -> (r: Option<Timer>)
        ensures
            r == earliest(seq![self@.shutdown_rto_timer, self@.rto_timer, self@.heartbeat_timer]),
    {
        let timers = [self.shutdown_rto_timer, self.rto_timer, self.heartbeat_timer];
        let r = find_next_timer(&timers);
        assert(timers@ =~= seq![self@.shutdown_rto_timer, self@.rto_timer, self@.heartbeat_timer]);
        r
    }
}

impl<FakeContent: FakeAddr> AssociationTx<FakeContent> {
    /// The next data chunk to send, with room for `data_limit` bytes after `already_packed`
    /// bytes of the packet (a data chunk's header takes 16 of them): in loss recovery the
    /// oldest chunk marked for retransmission, in fast recovery the first chunk marked for
    /// fast retransmission, and otherwise new data within the congestion and receive
    /// windows, fragmented if it is larger than the path MTU (a message that does not fit but
    /// is no larger than the path MTU is held back, see `poll_new_data`). New data is
    /// numbered, counted in flight, kept for retransmission and timed.
    pub fn poll_data_to_send(&mut self, data_limit: usize, already_packed: usize, now: u64) -> (r:
        PollSendResult<DataChunk>)
        requires
            old(self).wf(),
        ensures
            final(self).wf(),
            (final(self)@, poll_data_view(r)) == old(self)@.after_poll_data(
                data_limit,
                already_packed,
                now,
            ),
    {
        let pmtu = self.pmtu_probe.get_pmtu();
        if pmtu <= already_packed {
            return PollSendResult::Empty;
        }
        let room = pmtu - already_packed;
        let dl = if data_limit < room {
            data_limit
        } else {
            room
        };
        if dl <= 16 {
            return PollSendResult::Empty;
        }
        let lim = dl - 16;
        match self.primary_congestion.state() {
            CongestionState::LossRecovery => self.poll_retransmit(lim, now),
            CongestionState::FastRecovery => self.poll_fast_retransmit(lim),
            _ => self.poll_new_data(lim, now),
        }
    }

    fn poll_retransmit(&mut self, lim: usize, now: u64) -> (r: PollSendResult<DataChunk>)
        requires
            old(self).wf(),
        ensures
            final(self).wf(),
            (final(self)@, poll_data_view(r)) == old(self)@.poll_retransmit(lim as int, now),
    {
        let ghost old_view = self@;
        if self.resend_queue.len() > 0 && self.resend_queue[0].data.buf.len() <= lim
            && self.resend_queue[0].marked_for_retransmit {
            assert(old_view.resend_queue[0] == entry_view(self.resend_queue@[0]));
            let rtx = self.resend_queue[0].data.clone_chunk();
            self.resend_queue[0].marked_for_retransmit = false;
            proof {
                let f = old_view.resend_queue[0];
                assert(self@.resend_queue =~= old_view.resend_queue.update(
                    0,
                    ResendEntryView { marked_for_retransmit: false, ..f },
                ));
                lemma_resend_bytes_update(
                    old_view.resend_queue,
                    0,
                    ResendEntryView { marked_for_retransmit: false, ..f },
                );
                assert(self@.out_queue =~= old_view.out_queue);
                assert(self@.send_next =~= old_view.send_next);
            }
            if self.rto_timer.is_none() {
                self.set_rto_timeout(now);
            }
            PollSendResult::Ready(rtx)
        } else {
            PollSendResult::Empty
        }
    }

    fn poll_fast_retransmit(&mut self, lim: usize) -> (r: PollSendResult<DataChunk>)
        requires
            old(self).wf(),
        ensures
            final(self).wf(),
            (final(self)@, poll_data_view(r)) == old(self)@.poll_fast_retransmit(lim as int),
    {
        let ghost old_view = self@;
        let mut i: usize = 0;
        while i < self.resend_queue.len()
            invariant
                i <= self.resend_queue@.len(),
                self@ == old_view,
                old_view == old(self)@,
                old_view.inv(),
                first_fast_retransmit(old_view.resend_queue, lim as int, 0)
                    == first_fast_retransmit(old_view.resend_queue, lim as int, i as int),
            decreases self.resend_queue@.len() - i,
        {
            assert(old_view.resend_queue[i as int] == entry_view(self.resend_queue@[i as int]));
            if self.resend_queue[i].marked_for_fast_retransmit
                && !self.resend_queue[i].marked_was_fast_retransmit
                && self.resend_queue[i].data.buf.len() <= lim {
                let rtx = self.resend_queue[i].data.clone_chunk();
                self.resend_queue[i].marked_was_fast_retransmit = true;
                self.resend_queue[i].marked_for_fast_retransmit = false;
                proof {
                    let e = old_view.resend_queue[i as int];
                    let ne = ResendEntryView {
                        marked_was_fast_retransmit: true,
                        marked_for_fast_retransmit: false,
                        ..e
                    };
                    assert(self@.resend_queue =~= old_view.resend_queue.update(i as int, ne));
                    lemma_resend_bytes_update(old_view.resend_queue, i as int, ne);
                    assert(self@.out_queue =~= old_view.out_queue);
                    assert(self@.send_next =~= old_view.send_next);
                    assert(first_fast_retransmit(old_view.resend_queue, lim as int, i as int)
                        == Some(i as int));
                    assert(self@ =~= AssocTxView { resend_queue: old_view.resend_queue.update(i as int, ne), ..old_view });
                    assert(rtx@ == e.data);
                }
                let r = PollSendResult::Ready(rtx);
                assert(poll_data_view(r) == old_view.poll_fast_retransmit(lim as int).1);
                assert(self@ == old_view.poll_fast_retransmit(lim as int).0);
                return r;
            }
            i = i + 1;
        }
        PollSendResult::Empty
    }

    fn poll_new_data(&mut self, lim: usize, now: u64) -> (r: PollSendResult<DataChunk>)
        requires
            old(self).wf(),
        ensures
            final(self).wf(),
            (final(self)@, poll_data_view(r)) == old(self)@.poll_new_data(lim as int, now),
    {
        let ghost old_view = self@;
        if self.out_queue.len() == 0 || self.current_in_flight > self.primary_congestion.cwnd {
            return PollSendResult::Empty;
        }
        let window = self.peer_rcv_window as usize;
        let lim = if lim < window {
            lim
        } else {
            window
        };
        assert(old_view.out_queue[0] == self.out_queue@[0]@);
        let front_len = self.out_queue[0].buf.len();
        let packet = if front_len <= lim {
            let mut packet = self.out_queue.pop_front().unwrap();
            packet.tsn = self.tsn_counter;
            packet.end = true;
            proof {
                assert(self@.out_queue =~= old_view.out_queue.drop_first());
                lemma_data_bytes_drop_first(old_view.out_queue);
            }
            packet
        } else if front_len > self.pmtu_probe.get_pmtu() && lim > 0 {
            let tsn = self.tsn_counter;
            let mut full = self.out_queue.pop_front().unwrap();
            let mut head = full.buf.split_off(lim);
            std::mem::swap(&mut full.buf, &mut head);
            let fragment = DataChunk {
                tsn,
                stream_id: full.stream_id,
                stream_seq_num: full.stream_seq_num,
                ppid: full.ppid,
                buf: head,
                immediate: full.immediate,
                unordered: full.unordered,
                begin: full.begin,
                end: false,
            };
            full.begin = false;
            self.out_queue.push_front(full);
            proof {
                let front = old_view.out_queue[0];
                let rest = DataChunkView { begin: false, buf: front.buf.skip(lim as int), ..front };
                assert(self@.out_queue =~= old_view.out_queue.update(0, rest));
                lemma_data_bytes_update(old_view.out_queue, 0, rest);
                assert(fragment@.buf =~= front.buf.take(lim as int));
            }
            fragment
        } else {
            return PollSendResult::Empty;
        };
        let len = packet.buf.len();
        let ghost mid = self@;
        proof {
            lemma_data_entry_bound(old_view.out_queue, 0);
            assert(len <= lim);
            assert(mid.current_out_buffered == data_bytes(mid.out_queue) + len + resend_bytes(mid.resend_queue));
        }
        self.tsn_counter = self.tsn_counter.increase();
        self.peer_rcv_window = self.peer_rcv_window - len as u32;
        self.current_in_flight = self.current_in_flight + len;
        let copy = packet.clone_chunk();
        let ghost pv = packet@;
        self.resend_queue.push(
            ResendEntry {
                queued_at: now,
                data: copy,
                marked_for_retransmit: false,
                marked_for_fast_retransmit: false,
                marked_was_fast_retransmit: false,
                partially_acked: false,
            },
        );
        proof {
            lemma_resend_bytes_push(old_view.resend_queue, new_entry(pv, now));
        }
        self.srtt.tsn_sent(packet.tsn, now);
        proof {
            assert(self@.resend_queue =~= mid.resend_queue.push(new_entry(pv, now)));
            assert(self@ =~= (AssocTxView {
                tsn_counter: Tsn(((mid.tsn_counter.0 + 1) % 4294967296) as u32),
                peer_rcv_window: (mid.peer_rcv_window - pv.buf.len()) as u32,
                current_in_flight: (mid.current_in_flight + pv.buf.len()) as usize,
                resend_queue: mid.resend_queue.push(new_entry(pv, now)),
                srtt: mid.srtt.after_send(pv.tsn, now),
                ..mid
            }));
        }
        if self.rto_timer.is_none() {
            self.set_rto_timeout(now);
        }
        assert(self@ == mid.after_new_send(pv, now));
        PollSendResult::Ready(packet)
    }
}

impl<FakeContent: FakeAddr> AssociationTx<FakeContent> {
    /// Takes a notification as `notification` does if the sending half accepts it;
    /// otherwise hands it back unchanged and changes nothing.
    pub fn try_notification(
        &mut self,
        notification: TxNotification<FakeContent>,
        now: u64,
    ) -> (r: Result<(), TxNotification<FakeContent>>)
        requires
            old(self).wf(),
        ensures
            final(self).wf(),
            r is Ok <==> notification_ok(notification),
            r is Ok ==> final(self)@ == old(self)@.after_notification(notification),
            r matches Err(n) ==> n == notification && final(self)@ == old(self)@,
    {
        if !accepts(&notification) {
            return Err(notification);
        }
        self.notification(notification, now);
        Ok(())
    }

    /// Takes a notification from the receiving half or the endpoint, as
    /// `after_notification` says.
    pub fn notification(&mut self, notification: TxNotification<FakeContent>, _now: u64)
        requires
            old(self).wf(),
            notification_ok(notification),
        ensures
            final(self).wf(),
            final(self)@ == old(self)@.after_notification(notification),
    {
        let ghost s0 = self@;
        let ghost n = notification;
        match notification {
            TxNotification::Send(chunk) => {
                let ghost expected = match chunk@ {
                    ChunkView::SAck(sack) => {
                        let s1 = AssocTxView { peer_last_acked_tsn: sack.cum_tsn, ..s0 };
                        if s0.shutdown_state == Some(ShutdownState::ShutdownSent) {
                            AssocTxView {
                                send_next: s1.send_next.push(ChunkView::ShutDown(sack.cum_tsn)),
                                ..s1
                            }
                        } else {
                            s1
                        }
                    },
                    _ => s0,
                };
                if let Chunk::SAck(sack) = &chunk {
                    self.peer_last_acked_tsn = sack.cum_tsn;
                    if let Some(ShutdownState::ShutdownSent) = self.shutdown_state {
                        self.send_next.push_back(Chunk::ShutDown(self.peer_last_acked_tsn));
                        assert(self@.send_next =~= s0.send_next.push(ChunkView::ShutDown(sack.cum_tsn)));
                    }
                    assert(self@ =~= expected);
                } else {
                    assert(self@ =~= expected);
                }
                let ghost s1 = self@;
                self.send_next.push_back(chunk);
                proof {
                    assert(self@.send_next =~= s1.send_next.push(chunk@));
                    assert(forall|i: int| 0 <= i < s1.send_next.len() ==> #[trigger] s1.send_next[i].wf()) by {
                        assert forall|i: int| 0 <= i < s1.send_next.len() implies #[trigger] s1.send_next[i].wf() by {
                            if i < s0.send_next.len() {
                                assert(s1.send_next[i] == s0.send_next[i]);
                            }
                        }
                    }
                    assert forall|i: int| 0 <= i < self@.send_next.len() implies #[trigger] self@.send_next[i].wf() by {
                        if i < s1.send_next.len() {
                            assert(self@.send_next[i] == s1.send_next[i]);
                        }
                    }
                    assert(self@ =~= s0.after_notification(n));
                }
            },
            TxNotification::_PrimaryPathChanged(addr) => {
                self.primary_path = addr;
            },
            TxNotification::SAck(sack, recv_at) => {
                self.handle_sack(sack, recv_at);
            },
            TxNotification::Abort => {
                self.shutdown_state = Some(ShutdownState::AbortReceived);
            },
            TxNotification::Shutdown => {
                if self.shutdown_state.is_none() {
                    self.shutdown_state = Some(ShutdownState::TryingTo);
                }
            },
            TxNotification::PeerShutdown => {
                match self.shutdown_state {
                    None => {
                        self.shutdown_state = Some(ShutdownState::ShutdownReceived);
                    },
                    Some(ShutdownState::ShutdownSent) | Some(ShutdownState::ShutdownAckSent) => {
                        self.push_signal(Chunk::ShutDownAck);
                    },
                    _ => {},
                }
            },
            TxNotification::PeerShutdownAck => {
                self.push_signal(Chunk::ShutDownComplete { reflected: false });
                self.shutdown_state = Some(ShutdownState::Complete);
            },
            TxNotification::PeerShutdownComplete => {
                self.shutdown_state = Some(ShutdownState::Complete);
            },
            TxNotification::HeartBeatAck(data, now) => {
                self.process_heartbeat_ack(data, now);
            },
        }
    }

    /// Queues a control chunk to send.
    fn push_signal(&mut self, chunk: Chunk<FakeContent>)
        requires
            old(self).wf(),
            chunk@.wf(),
        ensures
            final(self).wf(),
            final(self)@ == (AssocTxView { send_next: old(self)@.send_next.push(chunk@), ..old(self)@ }),
    {
        let ghost s0 = self@;
        self.send_next.push_back(chunk);
        proof {
            assert(self@.send_next =~= s0.send_next.push(chunk@));
            assert forall|i: int| 0 <= i < self@.send_next.len() implies #[trigger] self@.send_next[i].wf() by {
                if i < s0.send_next.len() {
                    assert(self@.send_next[i] == s0.send_next[i]);
                }
            }
        }
    }
}

/// The value of a polled control chunk.
pub open spec fn poll_chunk_view<F: FakeAddr>(r: PollSendResult<Chunk<F>>) -> PollSendResult<
    ChunkView<F>,
> {
    match r {
        PollSendResult::Empty => PollSendResult::Empty,
        PollSendResult::Ready(c) => PollSendResult::Ready(c@),
        PollSendResult::Closed => PollSendResult::Closed,
    }
}

/// The value of a polled data chunk.
pub open spec fn poll_data_view(r: PollSendResult<DataChunk>) -> PollSendResult<DataChunkView> {
    match r {
        PollSendResult::Empty => PollSendResult::Empty,
        PollSendResult::Ready(c) => PollSendResult::Ready(c@),
        PollSendResult::Closed => PollSendResult::Closed,
    }
}

/// New data is sent within the peer's receive window: a chunk that polling takes from the
/// queue of user data is no larger than the window announced by the peer, and the window
/// shrinks by its size.
pub proof fn lemma_new_data_within_window<F: FakeAddr>(
    s: AssocTxView<F>,
    data_limit: usize,
    already_packed: usize,
    now: u64,
)
    requires
        s.inv(),
        s.primary_congestion.state == CongestionState::SlowStart
            || s.primary_congestion.state == CongestionState::CongestionAvoidance,
    ensures
        ({
            let (t, r) = s.after_poll_data(data_limit, already_packed, now);
            r matches PollSendResult::Ready(p) ==> p.buf.len() <= s.peer_rcv_window
                && t.peer_rcv_window == s.peer_rcv_window - p.buf.len()
        }),
{
    let (t, r) = s.after_poll_data(data_limit, already_packed, now);
    if let PollSendResult::Ready(p) = r {
        let front = s.out_queue[0];
        assert(front.buf.take(front.buf.len() as int) =~= front.buf);
    }
}

/// What polling for data hands out is kept in flight for retransmission: the chunk is among
/// the chunks in flight afterwards, unchanged.
pub proof fn lemma_sent_data_kept<F: FakeAddr>(
    s: AssocTxView<F>,
    data_limit: usize,
    already_packed: usize,
    now: u64,
)
    requires
        s.inv(),
    ensures
        ({
            let (t, r) = s.after_poll_data(data_limit, already_packed, now);
            r matches PollSendResult::Ready(p) ==> exists|i: int|
                0 <= i < t.resend_queue.len() && #[trigger] t.resend_queue[i].data == p
        }),
{
    let (t, r) = s.after_poll_data(data_limit, already_packed, now);
    if let PollSendResult::Ready(p) = r {
        if s.pmtu() > already_packed {
            let room = s.pmtu() - already_packed;
            let dl = if data_limit < room {
                data_limit as int
            } else {
                room
            };
            let lim = dl - 16;
            match s.primary_congestion.state {
                CongestionState::LossRecovery => {
                    assert(t.resend_queue[0].data == p);
                },
                CongestionState::FastRecovery => {
                    let i = first_fast_retransmit(s.resend_queue, lim, 0).unwrap();
                    lemma_first_fast_retransmit_range(s.resend_queue, lim, 0);
                    assert(t.resend_queue[i].data == p);
                },
                _ => {
                    let k = t.resend_queue.len() - 1;
                    assert(t.resend_queue[k].data == p);
                },
            }
        }
    }
}

proof fn lemma_first_fast_retransmit_range(q: Seq<ResendEntryView>, limit: int, i: int)
    ensures
        first_fast_retransmit(q, limit, i) matches Some(k) ==> i <= k < q.len(),
    decreases q.len() - i,
{
    if 0 <= i < q.len() {
        lemma_first_fast_retransmit_range(q, limit, i + 1);
    }
}

/// Whether the association is gone: shut down completely or aborted.
pub open spec fn gone(state: Option<ShutdownState>) -> bool {
    state == Some(ShutdownState::Complete) || state == Some(ShutdownState::AbortReceived)
}

/// Shutdown under notifications: the association is gone after a notification exactly when
/// it was gone before or the notification is an ABORT, a SHUTDOWN ACK or a SHUTDOWN COMPLETE
/// from the peer, so it never comes back. A request to shut down only starts a shutdown that
/// is not under way, and the peer's SHUTDOWN is answered with a SHUTDOWN ACK exactly when our
/// SHUTDOWN or SHUTDOWN ACK was sent.
pub proof fn lemma_notification_shutdown<F: FakeAddr>(s: AssocTxView<F>, n: TxNotification<F>)
    ensures
        gone(s.after_notification(n).shutdown_state) == (gone(s.shutdown_state) || n is Abort
            || n is PeerShutdownAck || n is PeerShutdownComplete),
        n is Shutdown ==> s.after_notification(n).shutdown_state == (if s.shutdown_state is None {
            Some(ShutdownState::TryingTo)
        } else {
            s.shutdown_state
        }),
        n is PeerShutdown ==> s.after_notification(n).send_next == (
        if s.shutdown_state == Some(ShutdownState::ShutdownSent) || s.shutdown_state == Some(
            ShutdownState::ShutdownAckSent,
        ) {
            s.send_next.push(ChunkView::ShutDownAck)
        } else {
            s.send_next
        }),
        n is PeerShutdownAck ==> s.after_notification(n).send_next == s.send_next.push(
            ChunkView::ShutDownComplete { reflected: false },
        ),
{
}

/// Messages queued by successive sends, on whatever streams, are queued after what was there,
/// in call order, each whole and with its stream's sequence numbers counting up from where
/// they stood, wrapping at 2^16: the k-th message on a stream gets the stream's number plus
/// k. Each stream's number ends up advanced by the messages sent on it, and only by those.
pub proof fn lemma_queue_sequence_numbers<F: FakeAddr>(s: AssocTxView<F>, msgs: Seq<Message>)
    requires
        forall|i: int| 0 <= i < msgs.len() ==> (#[trigger] msgs[i]).1 < s.per_stream.len(),
    ensures
        s.after_queues(msgs).per_stream.len() == s.per_stream.len(),
        s.after_queues(msgs).out_queue.len() == s.out_queue.len() + msgs.len(),
        s.after_queues(msgs).out_queue.take(s.out_queue.len() as int) == s.out_queue,
        forall|i: int|
            0 <= i < msgs.len() ==> s.after_queues(msgs).out_queue[s.out_queue.len() + i]
                == message_chunk(
                msgs[i],
                ((s.per_stream[msgs[i].1 as int].0 + count_on(msgs.take(i), msgs[i].1))
                    % 65536) as u16,
            ),
        forall|x: u16|
            x < s.per_stream.len() ==> (#[trigger] s.after_queues(msgs).per_stream[x as int]).0
                == (s.per_stream[x as int].0 + count_on(msgs, x)) % 65536,
    decreases msgs.len(),
{
    if msgs.len() == 0 {
        assert(s.out_queue.take(s.out_queue.len() as int) =~= s.out_queue);
        assert forall|x: u16| x < s.per_stream.len() implies (#[trigger] s.per_stream[x as int]).0
            == (s.per_stream[x as int].0 + count_on(msgs, x)) % 65536 by {}
    } else {
        let init = msgs.drop_last();
        let m = msgs.last();
        assert forall|i: int| 0 <= i < init.len() implies (#[trigger] init[i]).1
            < s.per_stream.len() by {
            assert(init[i] == msgs[i]);
        }
        lemma_queue_sequence_numbers(s, init);
        let t = s.after_queues(init);
        let u = s.after_queues(msgs);
        assert(u == t.after_queue(m.0, m.1, m.2, m.3, m.4));
        assert(msgs[msgs.len() - 1] == m);
        let n = s.out_queue.len();
        assert(u.out_queue.take(n as int) =~= t.out_queue.take(n as int));
        assert forall|i: int| 0 <= i < msgs.len() implies u.out_queue[n + i] == message_chunk(
            msgs[i],
            ((s.per_stream[msgs[i].1 as int].0 + count_on(msgs.take(i), msgs[i].1)) % 65536) as u16,
        ) by {
            if i < init.len() {
                assert(msgs.take(i) =~= init.take(i));
                assert(init[i] == msgs[i]);
            } else {
                assert(msgs.take(i) =~= init);
                let x = m.1 as int;
                assert(t.per_stream[x].0 == (s.per_stream[x].0 + count_on(init, m.1)) % 65536);
            }
        }
        assert forall|x: u16| x < s.per_stream.len() implies (
        #[trigger] u.per_stream[x as int]).0 == (s.per_stream[x as int].0 + count_on(msgs, x))
            % 65536 by {
            let a = s.per_stream[x as int].0 + count_on(init, x);
            assert(t.per_stream[x as int].0 == a % 65536);
            if x == m.1 {
                assert(count_on(msgs, x) == count_on(init, x) + 1);
                vstd::arithmetic::div_mod::lemma_add_mod_noop(a, 1, 65536);
                assert(1int % 65536 == 1);
            } else {
                assert(count_on(msgs, x) == count_on(init, x));
            }
        }
    }
}

/// How new data leaves the queue: the chunk polled comes from the message at the front and
/// gets the next TSN; it carries that message's stream, sequence number, payload protocol,
/// flags for unordered and immediate delivery, and its beginning flag. Either it is the
/// whole message, which then leaves the queue, or it is a first piece of it and ends no
/// message, and the rest stays at the front: the piece and the rest together are the
/// message, the rest no longer begins a message, and nothing else in the queue changes.
/// So of the chunks a message is split into only the first is flagged as its beginning.
pub proof fn lemma_new_data_fragments<F: FakeAddr>(
    s: AssocTxView<F>,
    data_limit: usize,
    already_packed: usize,
    now: u64,
)
    requires
        s.primary_congestion.state == CongestionState::SlowStart
            || s.primary_congestion.state == CongestionState::CongestionAvoidance,
    ensures
        ({
            let (t, r) = s.after_poll_data(data_limit, already_packed, now);
            r matches PollSendResult::Ready(p) ==> {
                let m = s.out_queue[0];
                &&& s.out_queue.len() > 0
                &&& p.tsn == s.tsn_counter
                &&& p.stream_id == m.stream_id
                &&& p.stream_seq_num == m.stream_seq_num
                &&& p.ppid == m.ppid
                &&& p.unordered == m.unordered
                &&& p.immediate == m.immediate
                &&& p.begin == m.begin
                &&& p.end ==> p.buf == m.buf && t.out_queue == s.out_queue.drop_first()
                &&& !p.end ==> {
                    &&& t.out_queue.len() == s.out_queue.len()
                    &&& p.buf.len() > 0
                    &&& p.buf + t.out_queue[0].buf == m.buf
                    &&& !t.out_queue[0].begin
                    &&& t.out_queue[0].stream_id == m.stream_id
                    &&& t.out_queue[0].stream_seq_num == m.stream_seq_num
                    &&& t.out_queue[0].ppid == m.ppid
                    &&& t.out_queue[0].unordered == m.unordered
                    &&& t.out_queue[0].end == m.end
                    &&& t.out_queue.skip(1) == s.out_queue.skip(1)
                }
            }
        }),
{
    let (t, r) = s.after_poll_data(data_limit, already_packed, now);
    if let PollSendResult::Ready(p) = r {
        let m = s.out_queue[0];
        if !p.end {
            let lim = p.buf.len() as int;
            assert(m.buf.take(lim) + m.buf.skip(lim) =~= m.buf);
            assert(t.out_queue.skip(1) =~= s.out_queue.skip(1));
        } else {
            assert(m.buf.take(m.buf.len() as int) =~= m.buf);
        }
    }
}

} // verus!
