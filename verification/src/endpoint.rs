//! The endpoint: reads packets, sets up associations with the four-way handshake, and
//! hands the chunks of established associations to them.
use std::collections::{HashMap, VecDeque};
use vstd::prelude::*;

use crate::addr::{FakeAddr, TransportAddress};
use crate::assoc::init::HandleSpecialResult;
use crate::assoc::rx::{initial_rx_view, RxNotification};
use crate::assoc::tx::{initial_tx_view, AssocTxSettings, TxNotification, TxNotificationView};
use crate::assoc::{Association, AssociationView};
use crate::packet::cookie::{
    lemma_cookie_roundtrip, no_fake, spec_mac, spec_parse_cookie, Cookie, CookieView,
    StateCookie, StateCookieView,
};
use crate::packet::param::lemma_padding;
use crate::packet::init::{InitAck, InitAckView, InitChunk, InitChunkView};
use crate::packet::{
    checksum_input, chunk_result_view, lemma_chunk_roundtrip, lemma_parse_chunk_extend,
    spec_crc32c, spec_parse_chunk, spec_parse_packet, Chunk, ChunkView, Packet,
    ParseError, Tsn, UnrecognizedParam, UnrecognizedParamView, CHUNK_INIT, CHUNK_INIT_ACK,
    CHUNK_STATE_COOKIE, CHUNK_STATE_COOKIE_ACK,
};
use crate::table::{
    drop_value, keys_unique, map_of, table_drop_value, table_find, table_insert, table_remove,
    TableKey,
};
use crate::AssocId;

verus! {

/// How an association is known: the peer's address and port and the local port.
#[derive(Clone, Copy, PartialEq, Eq, Hash, Debug)]
pub struct AssocAlias<FakeContent: FakeAddr> {
    pub peer_addr: TransportAddress<FakeContent>,
    pub peer_port: u16,
    pub local_port: u16,
}

impl<FakeContent: FakeAddr> TableKey for AssocAlias<FakeContent> {
    fn key_eq(&self, other: &Self) -> (r: bool) {
        self.peer_addr.same_as(&other.peer_addr) && self.peer_port == other.peer_port
            && self.local_port == other.local_port
    }
}

/// The verification tags of an established association.
#[derive(Clone, Copy, PartialEq, Eq, Structural, Debug)]
pub struct PerAssocInfo {
    pub local_verification_tag: u32,
    pub peer_verification_tag: u32,
}

/// An association this endpoint started: its INIT is sent and waits for the INIT ACK.
#[derive(Clone, Copy, PartialEq, Eq, Structural, Debug)]
pub struct WaitInitAck {
    pub local_verification_tag: u32,
    pub local_initial_tsn: u32,
}

/// An association this endpoint started whose cookie was echoed; it waits for the COOKIE
/// ACK.
pub struct WaitCookieAck<FakeContent: FakeAddr> {
    pub local_verification_tag: u32,
    pub peer_verification_tag: u32,
    pub aliases: Vec<TransportAddress<FakeContent>>,
    pub original_address: TransportAddress<FakeContent>,
    pub local_initial_tsn: u32,
    pub peer_initial_tsn: u32,
    pub local_in_streams: u16,
    pub peer_in_streams: u16,
    pub local_out_streams: u16,
    pub peer_out_streams: u16,
    pub peer_arwnd: u32,
}

/// The value of a [`WaitCookieAck`].
pub struct WaitCookieAckView<FakeContent: FakeAddr> {
    pub local_verification_tag: u32,
    pub peer_verification_tag: u32,
    pub aliases: Seq<TransportAddress<FakeContent>>,
    pub original_address: TransportAddress<FakeContent>,
    pub local_initial_tsn: u32,
    pub peer_initial_tsn: u32,
    pub local_in_streams: u16,
    pub peer_in_streams: u16,
    pub local_out_streams: u16,
    pub peer_out_streams: u16,
    pub peer_arwnd: u32,
}

impl<FakeContent: FakeAddr> View for WaitCookieAck<FakeContent> {
    type V = WaitCookieAckView<FakeContent>;

    open spec fn view(&self) -> WaitCookieAckView<FakeContent> {
        WaitCookieAckView {
            local_verification_tag: self.local_verification_tag,
            peer_verification_tag: self.peer_verification_tag,
            aliases: self.aliases@,
            original_address: self.original_address,
            local_initial_tsn: self.local_initial_tsn,
            peer_initial_tsn: self.peer_initial_tsn,
            local_in_streams: self.local_in_streams,
            peer_in_streams: self.peer_in_streams,
            local_out_streams: self.local_out_streams,
            peer_out_streams: self.peer_out_streams,
            peer_arwnd: self.peer_arwnd,
        }
    }
}

/// How the endpoint is set up. The cookie secret keys the MAC of the state cookies.
#[derive(Clone)]
pub struct Settings {
    pub cookie_secret: Vec<u8>,
    pub incoming_streams: u16,
    pub outgoing_streams: u16,
    pub in_buffer_limit: usize,
    pub out_buffer_limit: usize,
    pub pmtu: usize,
}

impl Settings {
    /// The sizes fit what the associations are built for.
    pub open spec fn ok(&self) -> bool {
        &&& 12 <= self.pmtu <= usize::MAX / 4
        &&& self.out_buffer_limit + 64 <= usize::MAX
    }

    /// Whether the sizes fit what the associations are built for: `ok`.
    pub fn is_ok(&self) -> (r: bool)
        ensures
            r == self.ok(),
    {
        12 <= self.pmtu && self.pmtu <= usize::MAX / 4 && self.out_buffer_limit <= usize::MAX - 64
    }
}

/// An endpoint.
pub struct Sctp<FakeContent: FakeAddr> {
    settings: Settings,
    assoc_id_gen: u64,
    new_assoc: Option<Association<FakeContent>>,
    assoc_infos: HashMap<u64, PerAssocInfo>,
    aliases: Vec<(AssocAlias<FakeContent>, AssocId)>,
    wait_init_ack: Vec<(AssocAlias<FakeContent>, WaitInitAck)>,
    wait_cookie_ack: Vec<(AssocAlias<FakeContent>, WaitCookieAck<FakeContent>)>,
    tx_notifications: VecDeque<(AssocId, TxNotification<FakeContent>)>,
    send_immediate: VecDeque<(TransportAddress<FakeContent>, Packet, Chunk<FakeContent>)>,
    rx_notifications: VecDeque<(AssocId, RxNotification<FakeContent>)>,
}

/// The value of an [`Sctp`] endpoint.
#[verifier::ext_equal]
#[verifier::reject_recursive_types(FakeContent)]
pub struct SctpView<FakeContent: FakeAddr> {
    pub settings: Settings,
    /// The last association identifier handed out.
    pub assoc_id_gen: u64,
    /// The association set up last and not yet taken.
    pub new_assoc: Option<AssociationView<FakeContent>>,
    /// The verification tags of each established association.
    pub assoc_infos: Map<AssocId, PerAssocInfo>,
    /// The association each alias stands for.
    pub aliases: Map<AssocAlias<FakeContent>, AssocId>,
    pub wait_init_ack: Map<AssocAlias<FakeContent>, WaitInitAck>,
    pub wait_cookie_ack: Map<AssocAlias<FakeContent>, WaitCookieAckView<FakeContent>>,
    /// Notifications for the sending halves, oldest first.
    pub tx_notifications: Seq<(AssocId, TxNotificationView<FakeContent>)>,
    /// Chunks to send right away, each alone in a packet with the given header.
    pub send_immediate: Seq<(TransportAddress<FakeContent>, Packet, ChunkView<FakeContent>)>,
    /// Chunks for the receiving halves, oldest first.
    pub rx_notifications: Seq<(AssocId, ChunkView<FakeContent>)>,
}

/// The alias of a packet from `peer_addr`.
pub open spec fn alias_of<F: FakeAddr>(peer_addr: TransportAddress<F>, packet: Packet) -> AssocAlias<
    F,
> {
    AssocAlias { peer_addr, peer_port: packet.from, local_port: packet.to }
}

/// The header of a packet that answers `packet`, with the peer's verification tag.
pub open spec fn reply_header(packet: Packet, tag: u32) -> Packet {
    Packet { from: packet.to, to: packet.from, verification_tag: tag }
}

pub open spec fn min_u16(a: u16, b: u16) -> u16 {
    if a < b {
        a
    } else {
        b
    }
}

/// Whether `d` starts with a chunk of type `typ`.
pub open spec fn starts_with(d: Seq<u8>, typ: u8) -> bool {
    d.len() >= 4 && d[0] == typ
}

/// The MAC that a cookie with body `c` carries under `secret`.
pub open spec fn cookie_mac<F: FakeAddr>(c: CookieView<F>, secret: Seq<u8>) -> u64 {
    spec_mac(c.body_encoding(), secret)
}

/// The map after each of `addrs`, with the ports of `packet`, is made an alias of `id`.
pub open spec fn insert_aliases<F: FakeAddr>(
    m: Map<AssocAlias<F>, AssocId>,
    addrs: Seq<TransportAddress<F>>,
    packet: Packet,
    id: AssocId,
) -> Map<AssocAlias<F>, AssocId>
    decreases addrs.len(),
{
    if addrs.len() == 0 {
        m
    } else {
        insert_aliases(m, addrs.drop_last(), packet, id).insert(alias_of(addrs.last(), packet), id)
    }
}

/// The pairs that are not for association `id`.
pub open spec fn drop_assoc<T>(s: Seq<(AssocId, T)>, id: AssocId) -> Seq<(AssocId, T)>
    decreases s.len(),
{
    if s.len() == 0 {
        s
    } else if s.last().0 == id {
        drop_assoc(s.drop_last(), id)
    } else {
        drop_assoc(s.drop_last(), id).push(s.last())
    }
}

/// The verification tags by association, from the table keyed by the number of the id.
pub open spec fn infos_by_id(m: Map<u64, PerAssocInfo>) -> Map<AssocId, PerAssocInfo> {
    Map::new(|id: AssocId| m.dom().contains(id.0), |id: AssocId| m[id.0])
}

proof fn lemma_infos_insert(m: Map<u64, PerAssocInfo>, id: AssocId, info: PerAssocInfo)
    ensures
        infos_by_id(m.insert(id.0, info)) == infos_by_id(m).insert(id, info),
{
    assert(infos_by_id(m.insert(id.0, info)) =~= infos_by_id(m).insert(id, info));
}

proof fn lemma_infos_remove(m: Map<u64, PerAssocInfo>, id: AssocId)
    ensures
        infos_by_id(m.remove(id.0)) == infos_by_id(m).remove(id),
{
    assert(infos_by_id(m.remove(id.0)) =~= infos_by_id(m).remove(id));
}

/// The chunks to send that do not answer `packet` from `from`.
pub open spec fn drop_replies<F: FakeAddr>(
    s: Seq<(TransportAddress<F>, Packet, ChunkView<F>)>,
    from: TransportAddress<F>,
    packet: Packet,
) -> Seq<(TransportAddress<F>, Packet, ChunkView<F>)>
    decreases s.len(),
{
    if s.len() == 0 {
        s
    } else if s.last().0 == from && s.last().1.from == packet.to && s.last().1.to == packet.from {
        drop_replies(s.drop_last(), from, packet)
    } else {
        drop_replies(s.drop_last(), from, packet).push(s.last())
    }
}

/// The first chunk of a packet is a COOKIE ECHO whose cookie has from 33 to 36 bytes: long
/// enough to be taken for one of ours, too short for the address it announces. Reading such
/// a cookie runs past its end, so the endpoint's handlers are not given one.
pub open spec fn cookie_echo_cut_short<F: FakeAddr>(d: Seq<u8>) -> bool {
    &&& starts_with(d, CHUNK_STATE_COOKIE)
    &&& spec_parse_chunk::<F>(d).1 matches Ok(ChunkView::StateCookie(StateCookieView::Opaque(b)))
    &&& 33 <= b.len() <= 36
}

/// A packet that carries such a COOKIE ECHO and passes the checksum.
pub open spec fn packet_cut_short<F: FakeAddr>(data: Seq<u8>) -> bool {
    spec_parse_packet(data, spec_crc32c(checksum_input(data))) is Some && cookie_echo_cut_short::<
        F,
    >(data.skip(12))
}

/// Whether the chunks `d` start with a COOKIE ECHO whose cookie is cut short.
pub fn is_cookie_echo_cut_short<F: FakeAddr>(d: &[u8]) -> (r: bool)
    ensures
        r == cookie_echo_cut_short::<F>(d@),
{
    if !Chunk::<F>::is_cookie_echo(d) {
        return false;
    }
    let (_, parsed) = Chunk::<F>::parse(d);
    match parsed {
        Ok(Chunk::StateCookie(StateCookie::Opaque(b))) => 33 <= b.len() && b.len() <= 36,
        _ => false,
    }
}

/// Whether `data` is a packet that passes the checksum and carries a COOKIE ECHO whose cookie
/// is cut short: the packets that `receive_data` is not given.
pub fn is_packet_cut_short<F: FakeAddr>(data: &[u8]) -> (r: bool)
    ensures
        r == packet_cut_short::<F>(data@),
{
    if Packet::parse(data).is_none() {
        return false;
    }
    let rest = vstd::slice::slice_subrange(data, 12, data.len());
    assert(rest@ =~= data@.skip(12));
    is_cookie_echo_cut_short::<F>(rest)
}

impl<FakeContent: FakeAddr> SctpView<FakeContent> {
    /// The INIT that starts an association: our tag and first TSN, our buffer as window,
    /// and our outgoing streams for both directions.
    pub open spec fn init_chunk(self, tag: u32, tsn: u32) -> InitChunkView<FakeContent> {
        InitChunkView {
            initiate_tag: tag,
            a_rwnd: self.settings.in_buffer_limit as u32,
            outbound_streams: self.settings.outgoing_streams,
            inbound_streams: self.settings.outgoing_streams,
            initial_tsn: tsn,
            unrecognized: seq![],
            aliases: seq![],
            cookie_preservative: None,
            supported_addr_types: None,
        }
    }

    /// The state after an association with `peer_addr` is started with verification tag
    /// `tag` and first TSN `tsn`: it waits for the INIT ACK, and the INIT is to be sent.
    pub open spec fn after_init_association(
        self,
        peer_addr: TransportAddress<FakeContent>,
        peer_port: u16,
        local_port: u16,
        tag: u32,
        tsn: u32,
    ) -> Self {
        let alias = AssocAlias { peer_addr, peer_port, local_port };
        SctpView {
            wait_init_ack: self.wait_init_ack.insert(
                alias,
                WaitInitAck { local_verification_tag: tag, local_initial_tsn: tsn },
            ),
            send_immediate: self.send_immediate.push(
                (
                    peer_addr,
                    Packet { from: local_port, to: peer_port, verification_tag: 0 },
                    ChunkView::Init(self.init_chunk(tag, tsn)),
                ),
            ),
            ..self
        }
    }

    /// The INIT ACK that answers an INIT.
    pub open spec fn init_ack_chunk(
        self,
        unrecognized: Seq<UnrecognizedParamView>,
        cookie: StateCookieView<FakeContent>,
        tsn: u32,
        tag: u32,
    ) -> InitAckView<FakeContent> {
        InitAckView {
            initiate_tag: tag,
            a_rwnd: self.settings.in_buffer_limit as u32,
            outbound_streams: self.settings.outgoing_streams,
            inbound_streams: self.settings.incoming_streams,
            initial_tsn: tsn,
            cookie,
            unrecognized,
            aliases: seq![],
            cookie_preservative: None,
            supported_addr_types: None,
        }
    }

    /// The cookie that answers `init` from `from`: all the association needs, under our
    /// MAC.
    pub open spec fn cookie_for(
        self,
        packet: Packet,
        init: InitChunkView<FakeContent>,
        from: TransportAddress<FakeContent>,
        tsn: u32,
        tag: u32,
    ) -> CookieView<FakeContent> {
        let c = CookieView {
            init_address: from,
            aliases: init.aliases,
            peer_port: packet.from,
            local_port: packet.to,
            local_verification_tag: tag,
            peer_verification_tag: init.initiate_tag,
            local_initial_tsn: tsn,
            peer_initial_tsn: init.initial_tsn,
            incoming_streams: min_u16(self.settings.incoming_streams, init.outbound_streams),
            outgoing_streams: min_u16(self.settings.outgoing_streams, init.inbound_streams),
            peer_arwnd: init.a_rwnd,
            mac: 0,
        };
        CookieView { mac: cookie_mac(c, self.settings.cookie_secret@), ..c }
    }

    /// The state after `init` from `from` is answered with our first TSN `tsn` and tag
    /// `tag`: an INIT ACK with our cookie is to be sent. Nothing else is kept.
    pub open spec fn after_answer_init(
        self,
        packet: Packet,
        init: InitChunkView<FakeContent>,
        from: TransportAddress<FakeContent>,
        tsn: u32,
        tag: u32,
    ) -> Self {
        SctpView {
            send_immediate: self.send_immediate.push(
                (
                    from,
                    reply_header(packet, init.initiate_tag),
                    ChunkView::InitAck(
                        self.init_ack_chunk(
                            init.unrecognized,
                            StateCookieView::Ours(self.cookie_for(packet, init, from, tsn, tag)),
                            tsn,
                            tag,
                        ),
                    ),
                ),
            ),
            ..self
        }
    }

    /// What the INIT handler does with the rest `d` of a packet, `fresh_tsn` and
    /// `fresh_tag` being the random values drawn when there is no INIT of ours to the same
    /// peer: an INIT alone in its packet is answered with the values of our own INIT, if
    /// there is one (the INITs crossed), else with the fresh ones.
    pub open spec fn handle_init(
        self,
        packet: Packet,
        d: Seq<u8>,
        from: TransportAddress<FakeContent>,
        fresh_tsn: u32,
        fresh_tag: u32,
    ) -> (Self, HandleSpecialResult<()>) {
        if !starts_with(d, CHUNK_INIT) {
            (self, HandleSpecialResult::NotRecognized)
        } else {
            let (size, res) = spec_parse_chunk::<FakeContent>(d);
            match res {
                Ok(ChunkView::Init(init)) => if size != d.len() {
                    (self, HandleSpecialResult::Error)
                } else {
                    let alias = alias_of(from, packet);
                    let (tsn, tag) = if self.wait_init_ack.dom().contains(alias) {
                        (
                            self.wait_init_ack[alias].local_initial_tsn,
                            self.wait_init_ack[alias].local_verification_tag,
                        )
                    } else {
                        (fresh_tsn, fresh_tag)
                    };
                    (self.after_answer_init(packet, init, from, tsn, tag), HandleSpecialResult::Handled(()))
                },
                _ => (self, HandleSpecialResult::Error),
            }
        }
    }

    /// What the INIT ACK handler does with the rest `d` of a packet: an INIT ACK alone in
    /// its packet that answers our INIT moves the association on to wait for the COOKIE
    /// ACK, and its cookie is to be echoed.
    pub open spec fn handle_init_ack(
        self,
        packet: Packet,
        d: Seq<u8>,
        from: TransportAddress<FakeContent>,
    ) -> (Self, HandleSpecialResult<()>) {
        if !starts_with(d, CHUNK_INIT_ACK) {
            (self, HandleSpecialResult::NotRecognized)
        } else {
            let (size, res) = spec_parse_chunk::<FakeContent>(d);
            let alias = alias_of(from, packet);
            match res {
                Ok(ChunkView::InitAck(ia)) => if size != d.len() || !self.wait_init_ack.dom().contains(
                    alias,
                ) {
                    (self, HandleSpecialResult::Error)
                } else {
                    let half_open = self.wait_init_ack[alias];
                    (
                        SctpView {
                            wait_init_ack: self.wait_init_ack.remove(alias),
                            wait_cookie_ack: self.wait_cookie_ack.insert(
                                alias,
                                WaitCookieAckView {
                                    peer_verification_tag: ia.initiate_tag,
                                    local_verification_tag: half_open.local_verification_tag,
                                    aliases: ia.aliases,
                                    original_address: from,
                                    local_initial_tsn: half_open.local_initial_tsn,
                                    peer_initial_tsn: ia.initial_tsn,
                                    local_in_streams: self.settings.incoming_streams,
                                    peer_in_streams: ia.inbound_streams,
                                    local_out_streams: self.settings.outgoing_streams,
                                    peer_out_streams: ia.outbound_streams,
                                    peer_arwnd: ia.a_rwnd,
                                },
                            ),
                            send_immediate: self.send_immediate.push(
                                (
                                    from,
                                    reply_header(packet, ia.initiate_tag),
                                    ChunkView::StateCookie(ia.cookie),
                                ),
                            ),
                            ..self
                        },
                        HandleSpecialResult::Handled(()),
                    )
                },
                _ => (self, HandleSpecialResult::Error),
            }
        }
    }

    /// The identifier after `g`: one more, wrapping.
    pub open spec fn next_id(g: u64) -> u64 {
        if g == u64::MAX {
            0
        } else {
            (g + 1) as u64
        }
    }

    /// The state after a new association is set up for `packet`: it gets the next
    /// identifier, its verification tags are kept, its primary address and `addrs` become
    /// its aliases, and it waits to be taken.
    pub open spec fn make_new_assoc(
        self,
        packet: Packet,
        addrs: Seq<TransportAddress<FakeContent>>,
        local_verification_tag: u32,
        peer_initial_tsn: u32,
        incoming_streams: u16,
        tx_settings: AssocTxSettings<FakeContent>,
        now: u64,
    ) -> (Self, AssocId) {
        let g = Self::next_id(self.assoc_id_gen);
        let id = AssocId(g);
        (
            SctpView {
                assoc_id_gen: g,
                assoc_infos: self.assoc_infos.insert(
                    id,
                    PerAssocInfo {
                        local_verification_tag,
                        peer_verification_tag: tx_settings.peer_verification_tag,
                    },
                ),
                aliases: insert_aliases(
                    self.aliases.insert(alias_of(tx_settings.primary_path, packet), id),
                    addrs,
                    packet,
                    id,
                ),
                new_assoc: Some(
                    AssociationView {
                        id,
                        rx: initial_rx_view(
                            id,
                            Tsn(peer_initial_tsn),
                            incoming_streams,
                            self.settings.in_buffer_limit,
                        ),
                        tx: initial_tx_view(id, tx_settings, now, true),
                    },
                ),
                ..self
            },
            id,
        )
    }

    /// What the COOKIE ACK handler does with the rest `d` of a packet, also giving how many
    /// bytes of `d` it took: a COOKIE ACK for an association already known names it; one
    /// that answers our COOKIE ECHO sets the association up.
    pub open spec fn handle_cookie_ack(
        self,
        packet: Packet,
        d: Seq<u8>,
        from: TransportAddress<FakeContent>,
        now: u64,
    ) -> (Self, HandleSpecialResult<AssocId>, int) {
        if !starts_with(d, CHUNK_STATE_COOKIE_ACK) {
            (self, HandleSpecialResult::NotRecognized, 0)
        } else {
            let (size, res) = spec_parse_chunk::<FakeContent>(d);
            let alias = alias_of(from, packet);
            if !(res matches Ok(ChunkView::StateCookieAck)) {
                (self, HandleSpecialResult::Error, 0)
            } else if self.aliases.dom().contains(alias) {
                (self, HandleSpecialResult::Handled(self.aliases[alias]), size)
            } else if !self.wait_cookie_ack.dom().contains(alias) {
                (self, HandleSpecialResult::Error, size)
            } else {
                let half_open = self.wait_cookie_ack[alias];
                let (s, id) = SctpView {
                    wait_cookie_ack: self.wait_cookie_ack.remove(alias),
                    ..self
                }.make_new_assoc(
                    packet,
                    half_open.aliases,
                    half_open.local_verification_tag,
                    half_open.peer_initial_tsn,
                    min_u16(half_open.local_in_streams, half_open.peer_in_streams),
                    AssocTxSettings {
                        primary_path: half_open.original_address,
                        peer_verification_tag: half_open.peer_verification_tag,
                        local_port: packet.to,
                        peer_port: packet.from,
                        init_tsn: Tsn(half_open.local_initial_tsn),
                        out_streams: min_u16(half_open.local_out_streams, half_open.peer_out_streams),
                        out_buffer_limit: self.settings.out_buffer_limit,
                        peer_arwnd: half_open.peer_arwnd,
                        pmtu: self.settings.pmtu,
                    },
                    now,
                );
                (s, HandleSpecialResult::Handled(id), size)
            }
        }
    }

    /// What the COOKIE ECHO handler does with the rest `d` of a packet, also giving how many
    /// bytes of `d` it took: a cookie that is ours and carries our MAC names the association
    /// if it is known already, and otherwise sets it up; a COOKIE ACK is to be sent.
    pub open spec fn handle_cookie_echo(
        self,
        packet: Packet,
        d: Seq<u8>,
        from: TransportAddress<FakeContent>,
        now: u64,
    ) -> (Self, HandleSpecialResult<AssocId>, int) {
        if !starts_with(d, CHUNK_STATE_COOKIE) {
            (self, HandleSpecialResult::NotRecognized, 0)
        } else {
            let (size, res) = spec_parse_chunk::<FakeContent>(d);
            let alias = alias_of(from, packet);
            match res {
                Ok(ChunkView::StateCookie(StateCookieView::Opaque(b))) => match spec_parse_cookie::<
                    FakeContent,
                >(b) {
                    None => (self, HandleSpecialResult::Error, 0),
                    Some(cookie) => if cookie_mac(cookie, self.settings.cookie_secret@) != cookie.mac {
                        (self, HandleSpecialResult::Error, 0)
                    } else if self.aliases.dom().contains(alias) {
                        (self, HandleSpecialResult::Handled(self.aliases[alias]), size)
                    } else {
                        let (s, id) = self.make_new_assoc(
                            packet,
                            cookie.aliases,
                            cookie.local_verification_tag,
                            cookie.peer_initial_tsn,
                            cookie.incoming_streams,
                            AssocTxSettings {
                                primary_path: cookie.init_address,
                                peer_verification_tag: cookie.peer_verification_tag,
                                local_port: cookie.local_port,
                                peer_port: cookie.peer_port,
                                init_tsn: Tsn(cookie.local_initial_tsn),
                                out_streams: cookie.outgoing_streams,
                                out_buffer_limit: self.settings.out_buffer_limit,
                                peer_arwnd: cookie.peer_arwnd,
                                pmtu: self.settings.pmtu,
                            },
                            now,
                        );
                        (
                            SctpView {
                                tx_notifications: s.tx_notifications.push(
                                    (id, TxNotificationView::Send(ChunkView::StateCookieAck)),
                                ),
                                ..s
                            },
                            HandleSpecialResult::Handled(id),
                            size,
                        )
                    },
                },
                _ => (self, HandleSpecialResult::Error, 0),
            }
        }
    }

    /// The state after an ABORT for association `id` came in `packet` from `from`: the
    /// association and all that waits for it are forgotten, and the ABORT goes to its
    /// receiving half.
    pub open spec fn after_abort(
        self,
        id: AssocId,
        from: TransportAddress<FakeContent>,
        packet: Packet,
    ) -> Self {
        SctpView {
            aliases: drop_value(self.aliases, id),
            assoc_infos: self.assoc_infos.remove(id),
            tx_notifications: drop_assoc(self.tx_notifications, id),
            rx_notifications: drop_assoc(self.rx_notifications, id).push((id, ChunkView::Abort)),
            send_immediate: drop_replies(self.send_immediate, from, packet),
            ..self
        }
    }

    /// What one chunk `c` of a packet for association `id` does, and whether the packet
    /// goes on: an INIT or INIT ACK is ignored, an ABORT ends the association and the
    /// packet, a HEARTBEAT is answered right away, other chunks go to the receiving half. An
    /// unknown chunk is reported if its type asks for that, and ends the packet if it asks
    /// for that; a malformed chunk ends the packet.
    pub open spec fn chunk_step(
        self,
        id: AssocId,
        from: TransportAddress<FakeContent>,
        packet: Packet,
        peer_tag: u32,
        c: Result<ChunkView<FakeContent>, ParseError>,
    ) -> (Self, bool) {
        match c {
            Ok(ChunkView::Init(_)) | Ok(ChunkView::InitAck(_)) => (self, true),
            Ok(ChunkView::Abort) => (self.after_abort(id, from, packet), false),
            Ok(ChunkView::HeartBeat(hb)) => (
                SctpView {
                    send_immediate: self.send_immediate.push(
                        (from, reply_header(packet, peer_tag), ChunkView::HeartBeatAck(hb)),
                    ),
                    ..self
                },
                true,
            ),
            Ok(c) => (SctpView { rx_notifications: self.rx_notifications.push((id, c)), ..self }, true),
            Err(ParseError::Unrecognized { report, stop }) => (
                if report {
                    SctpView {
                        send_immediate: self.send_immediate.push(
                            (from, reply_header(packet, peer_tag), ChunkView::OpError),
                        ),
                        ..self
                    }
                } else {
                    self
                },
                !stop,
            ),
            _ => (self, false),
        }
    }

    /// What the chunks `d` of a packet for association `id` do, one by one, as
    /// `chunk_step` says.
    pub open spec fn process_chunk_list(
        self,
        id: AssocId,
        from: TransportAddress<FakeContent>,
        packet: Packet,
        peer_tag: u32,
        d: Seq<u8>,
    ) -> Self
        decreases d.len(),
    {
        if d.len() == 0 {
            self
        } else {
            let (size, res) = chunk_at::<FakeContent>(d);
            if size <= 0 || size > d.len() {
                self
            } else {
                let (s, go_on) = self.chunk_step(id, from, packet, peer_tag, res);
                if go_on {
                    s.process_chunk_list(id, from, packet, peer_tag, d.skip(size))
                } else {
                    s
                }
            }
        }
    }

    /// What the chunks `d` of a packet for association `id` do: nothing unless the
    /// association is established and the packet carries our verification tag.
    pub open spec fn process_chunks(
        self,
        id: AssocId,
        from: TransportAddress<FakeContent>,
        packet: Packet,
        d: Seq<u8>,
    ) -> Self {
        if !self.assoc_infos.dom().contains(id) || self.assoc_infos[id].local_verification_tag
            != packet.verification_tag {
            self
        } else {
            self.process_chunk_list(id, from, packet, self.assoc_infos[id].peer_verification_tag, d)
        }
    }

    /// The state after the bytes `data` of a packet came from `from` at `now`, with
    /// `fresh_tsn` and `fresh_tag` the random values for answering an INIT. A packet
    /// whose checksum does not match is dropped. The INIT and INIT ACK handlers come
    /// first and end the packet if it is theirs; then a COOKIE ECHO or COOKIE ACK may set up
    /// the association, and the rest of the chunks go to the association the packet is
    /// for, if any.
    pub open spec fn after_receive(
        self,
        data: Seq<u8>,
        from: TransportAddress<FakeContent>,
        now: u64,
        fresh_tsn: u32,
        fresh_tag: u32,
    ) -> Self {
        match spec_parse_packet(data, spec_crc32c(checksum_input(data))) {
            None => self,
            Some(packet) => {
                let d = data.skip(12);
                let (s1, r1) = self.handle_init(packet, d, from, fresh_tsn, fresh_tag);
                if !(r1 is NotRecognized) {
                    s1
                } else {
                    let (s2, r2) = s1.handle_init_ack(packet, d, from);
                    if !(r2 is NotRecognized) {
                        s2
                    } else {
                        let (s3, r3, n3) = s2.handle_cookie_echo(packet, d, from, now);
                        if r3 is Error {
                            s3
                        } else {
                            let d3 = d.skip(n3);
                            let (s4, r4, n4) = s3.handle_cookie_ack(packet, d3, from, now);
                            if r4 is Error {
                                s4
                            } else {
                                let d4 = d3.skip(n4);
                                let id = match r4 {
                                    HandleSpecialResult::Handled(id) => Some(id),
                                    _ => match r3 {
                                        HandleSpecialResult::Handled(id) => Some(id),
                                        _ => if s4.aliases.dom().contains(alias_of(from, packet)) {
                                            Some(s4.aliases[alias_of(from, packet)])
                                        } else {
                                            None
                                        },
                                    },
                                };
                                match id {
                                    Some(id) => s4.process_chunks(id, from, packet, d4),
                                    None => s4,
                                }
                            }
                        }
                    }
                }
            },
        }
    }
}

/// The chunk at the start of `d` and the bytes it takes, as `Chunk::parse` reads them.
#[verifier::opaque]
pub open spec fn chunk_at<F: FakeAddr>(d: Seq<u8>) -> (int, Result<ChunkView<F>, ParseError>) {
    spec_parse_chunk::<F>(d)
}

/// A new endpoint: no associations, nothing queued.
pub open spec fn initial_sctp_view<F: FakeAddr>(settings: Settings) -> SctpView<F> {
    SctpView {
        settings,
        assoc_id_gen: 1,
        new_assoc: None,
        assoc_infos: Map::empty(),
        aliases: Map::empty(),
        wait_init_ack: Map::empty(),
        wait_cookie_ack: Map::empty(),
        tx_notifications: seq![],
        send_immediate: seq![],
        rx_notifications: seq![],
    }
}

/// A random number from the `rand` crate's thread-local generator (`rand::random`).
/// Nothing is known of the number.
#[verifier::external_body]
fn random_u32() -> u32 {
    rand::random::<u32>()
}

/// Drops the pairs that are for association `id`.
fn drop_pairs<T: View>(v: &mut VecDeque<(AssocId, T)>, id: AssocId)
    ensures
        final(v)@.map_values(|p: (AssocId, T)| (p.0, p.1@)) == drop_assoc(
            old(v)@.map_values(|p: (AssocId, T)| (p.0, p.1@)),
            id,
        ),
{
    let ghost ov = v@.map_values(|p: (AssocId, T)| (p.0, p.1@));
    let mut rest: VecDeque<(AssocId, T)> = VecDeque::new();
    std::mem::swap(&mut rest, v);
    let ghost mut i: int = 0;
    assert(ov.take(0) =~= seq![]);
    assert(ov.skip(0) =~= ov);
    assert(v@.map_values(|p: (AssocId, T)| (p.0, p.1@)) =~= seq![]);
    while rest.len() > 0
        invariant
            0 <= i <= ov.len(),
            rest@.map_values(|p: (AssocId, T)| (p.0, p.1@)) == ov.skip(i),
            v@.map_values(|p: (AssocId, T)| (p.0, p.1@)) == drop_assoc(ov.take(i), id),
        decreases ov.len() - i,
    {
        let ghost rv = rest@.map_values(|p: (AssocId, T)| (p.0, p.1@));
        proof {
            assert(rv.len() == rest@.len());
            assert(ov.skip(i)[0] == ov[i]);
            assert(rv[0] == (rest@[0].0, rest@[0].1@));
        }
        let ghost v0 = v@.map_values(|p: (AssocId, T)| (p.0, p.1@));
        let p = rest.pop_front().unwrap();
        proof {
            assert(rest@.map_values(|p: (AssocId, T)| (p.0, p.1@)) =~= rv.drop_first());
            assert(rv.drop_first() =~= ov.skip(i + 1));
            assert(ov.take(i + 1).drop_last() =~= ov.take(i));
            assert(ov.take(i + 1).last() == ov[i]);
        }
        if p.0.0 != id.0 {
            v.push_back(p);
            assert(v@.map_values(|p: (AssocId, T)| (p.0, p.1@)) =~= v0.push(ov[i]));
        }
        proof {
            i = i + 1;
        }
    }
    assert(ov.take(i) =~= ov);
}

/// Drops the chunks to send that answer `packet` from `from`.
fn drop_replies_of<F: FakeAddr>(
    v: &mut VecDeque<(TransportAddress<F>, Packet, Chunk<F>)>,
    from: TransportAddress<F>,
    packet: &Packet,
)
    ensures
        final(v)@.map_values(|p: (TransportAddress<F>, Packet, Chunk<F>)| (p.0, p.1, p.2@))
            == drop_replies(
            old(v)@.map_values(|p: (TransportAddress<F>, Packet, Chunk<F>)| (p.0, p.1, p.2@)),
            from,
            *packet,
        ),
{
    let ghost ov = v@.map_values(|p: (TransportAddress<F>, Packet, Chunk<F>)| (p.0, p.1, p.2@));
    let mut rest: VecDeque<(TransportAddress<F>, Packet, Chunk<F>)> = VecDeque::new();
    std::mem::swap(&mut rest, v);
    let ghost mut i: int = 0;
    assert(ov.take(0) =~= seq![]);
    assert(ov.skip(0) =~= ov);
    assert(v@.map_values(|p: (TransportAddress<F>, Packet, Chunk<F>)| (p.0, p.1, p.2@)) =~= seq![]);
    while rest.len() > 0
        invariant
            0 <= i <= ov.len(),
            rest@.map_values(|p: (TransportAddress<F>, Packet, Chunk<F>)| (p.0, p.1, p.2@)) == ov.skip(i),
            v@.map_values(|p: (TransportAddress<F>, Packet, Chunk<F>)| (p.0, p.1, p.2@)) == drop_replies(
                ov.take(i),
                from,
                *packet,
            ),
        decreases ov.len() - i,
    {
        let ghost rv = rest@.map_values(|p: (TransportAddress<F>, Packet, Chunk<F>)| (p.0, p.1, p.2@));
        proof {
            assert(rv.len() == rest@.len());
            assert(ov.skip(i)[0] == ov[i]);
            assert(rv[0] == (rest@[0].0, rest@[0].1, rest@[0].2@));
        }
        let ghost v0 = v@.map_values(|p: (TransportAddress<F>, Packet, Chunk<F>)| (p.0, p.1, p.2@));
        let p = rest.pop_front().unwrap();
        proof {
            assert(rest@.map_values(|p: (TransportAddress<F>, Packet, Chunk<F>)| (p.0, p.1, p.2@))
                =~= rv.drop_first());
            assert(rv.drop_first() =~= ov.skip(i + 1));
            assert(ov.take(i + 1).drop_last() =~= ov.take(i));
            assert(ov.take(i + 1).last() == ov[i]);
        }
        if !(p.0.same_as(&from) && p.1.from == packet.to && p.1.to == packet.from) {
            v.push_back(p);
            assert(v@.map_values(|p: (TransportAddress<F>, Packet, Chunk<F>)| (p.0, p.1, p.2@))
                =~= v0.push(ov[i]));
        }
        proof {
            i = i + 1;
        }
    }
    assert(ov.take(i) =~= ov);
}

impl<FakeContent: FakeAddr> Sctp<FakeContent> {
    /// The value of the endpoint.
    pub closed spec fn view(&self) -> SctpView<FakeContent> {
        SctpView {
            settings: self.settings,
            assoc_id_gen: self.assoc_id_gen,
            new_assoc: match self.new_assoc {
                Some(a) => Some(a.view()),
                None => None,
            },
            assoc_infos: infos_by_id(self.assoc_infos@),
            aliases: map_of(self.aliases@),
            wait_init_ack: map_of(self.wait_init_ack@),
            wait_cookie_ack: map_of(self.wait_cookie_ack@).map_values(
                |w: WaitCookieAck<FakeContent>| w@,
            ),
            tx_notifications: self.tx_notifications@.map_values(
                |p: (AssocId, TxNotification<FakeContent>)| (p.0, p.1@),
            ),
            send_immediate: self.send_immediate@.map_values(
                |p: (TransportAddress<FakeContent>, Packet, Chunk<FakeContent>)| (p.0, p.1, p.2@),
            ),
            rx_notifications: self.rx_notifications@.map_values(
                |p: (AssocId, RxNotification<FakeContent>)| (p.0, p.1@),
            ),
        }
    }

    /// The tables hold each key once, the settings fit, and an association waiting to be
    /// taken is consistent.
    pub closed spec fn wf(&self) -> bool {
        &&& keys_unique(self.aliases@)
        &&& keys_unique(self.wait_init_ack@)
        &&& keys_unique(self.wait_cookie_ack@)
        &&& self.settings.ok()
        &&& self.new_assoc matches Some(a) ==> a.wf()
    }

    /// A new endpoint with `settings`.
    pub fn new(settings: Settings) -> (r: Self)
        requires
            settings.ok(),
        ensures
            r.wf(),
            r@ == initial_sctp_view::<FakeContent>(settings),
    {
        let r = Self {
            settings,
            assoc_id_gen: 1,
            new_assoc: None,
            assoc_infos: HashMap::new(),
            aliases: Vec::new(),
            wait_init_ack: Vec::new(),
            wait_cookie_ack: Vec::new(),
            tx_notifications: VecDeque::new(),
            rx_notifications: VecDeque::new(),
            send_immediate: VecDeque::new(),
        };
        assert(r@.assoc_infos =~= Map::empty());
        assert(r@.aliases =~= Map::empty());
        assert(r@.wait_init_ack =~= Map::empty());
        assert(r@.wait_cookie_ack =~= Map::empty());
        assert(r@ =~= initial_sctp_view::<FakeContent>(settings));
        r
    }

    /// Queues `chunk` to be sent right away to `addr` under `header`.
    fn push_send(&mut self, addr: TransportAddress<FakeContent>, header: Packet, chunk: Chunk<FakeContent>)
        requires
            old(self).wf(),
        ensures
            final(self).wf(),
            final(self)@ == (SctpView {
                send_immediate: old(self)@.send_immediate.push((addr, header, chunk@)),
                ..old(self)@
            }),
    {
        let ghost s0 = self@;
        self.send_immediate.push_back((addr, header, chunk));
        assert(self@ =~= (SctpView {
            send_immediate: s0.send_immediate.push((addr, header, chunk@)),
            ..s0
        }));
    }

    /// Starts an association with `peer_addr`, with a random verification tag and first TSN:
    /// see `init_association_with`.
    pub fn init_association(
        &mut self,
        peer_addr: TransportAddress<FakeContent>,
        peer_port: u16,
        local_port: u16,
    )
        requires
            old(self).wf(),
        ensures
            final(self).wf(),
            exists|tag: u32, tsn: u32|
                final(self)@ == old(self)@.after_init_association(
                    peer_addr,
                    peer_port,
                    local_port,
                    tag,
                    tsn,
                ),
    {
        let local_verification_tag = random_u32();
        let initial_tsn = random_u32();
        self.init_association_with(peer_addr, peer_port, local_port, local_verification_tag, initial_tsn);
    }

    /// Starts an association with `peer_addr` using verification tag `local_verification_tag`
    /// and first TSN `initial_tsn`, as `after_init_association` says.
    pub fn init_association_with(
        &mut self,
        peer_addr: TransportAddress<FakeContent>,
        peer_port: u16,
        local_port: u16,
        local_verification_tag: u32,
        initial_tsn: u32,
    )
        requires
            old(self).wf(),
        ensures
            final(self).wf(),
            final(self)@ == old(self)@.after_init_association(
                peer_addr,
                peer_port,
                local_port,
                local_verification_tag,
                initial_tsn,
            ),
    {
        let ghost s0 = self@;
        let alias = AssocAlias { peer_addr, peer_port, local_port };
        table_insert(
            &mut self.wait_init_ack,
            alias,
            WaitInitAck { local_verification_tag, local_initial_tsn: initial_tsn },
        );
        let init_chunk = Chunk::Init(self.create_init_chunk(local_verification_tag, initial_tsn));
        let packet = Packet::new(local_port, peer_port, 0);
        self.push_send(peer_addr, packet, init_chunk);
        assert(self@ =~= s0.after_init_association(
            peer_addr,
            peer_port,
            local_port,
            local_verification_tag,
            initial_tsn,
        ));
    }

    fn create_init_chunk(&self, local_verification_tag: u32, initial_tsn: u32) -> (r: InitChunk<FakeContent>)
        ensures
            r@ == self@.init_chunk(local_verification_tag, initial_tsn),
    {
        let r = InitChunk {
            initiate_tag: local_verification_tag,
            a_rwnd: #[verifier::truncate] (self.settings.in_buffer_limit as u32),
            outbound_streams: self.settings.outgoing_streams,
            inbound_streams: self.settings.outgoing_streams,
            initial_tsn,
            unrecognized: Vec::new(),
            aliases: Vec::new(),
            cookie_preservative: None,
            supported_addr_types: None,
        };
        assert(r@.unrecognized =~= seq![]);
        assert(r@.aliases =~= seq![]);
        r
    }
}

impl<FakeContent: FakeAddr> Sctp<FakeContent> {
    fn create_init_ack(
        &self,
        unrecognized: Vec<UnrecognizedParam>,
        cookie: StateCookie<FakeContent>,
        initial_tsn: u32,
        local_verification_tag: u32,
    ) -> (r: InitAck<FakeContent>)
        ensures
            r@ == self@.init_ack_chunk(
                unrecognized@.map_values(|p: UnrecognizedParam| p@),
                cookie@,
                initial_tsn,
                local_verification_tag,
            ),
    {
        let r = InitAck {
            initiate_tag: local_verification_tag,
            a_rwnd: #[verifier::truncate] (self.settings.in_buffer_limit as u32),
            outbound_streams: self.settings.outgoing_streams,
            inbound_streams: self.settings.incoming_streams,
            initial_tsn,
            cookie,
            unrecognized,
            aliases: Vec::new(),
            cookie_preservative: None,
            supported_addr_types: None,
        };
        assert(r@.aliases =~= seq![]);
        r
    }

    /// Answers `init` from `from` with first TSN `initial_tsn` and verification tag
    /// `local_verification_tag`, as `after_answer_init` says.
    pub fn answer_init(
        &mut self,
        packet: &Packet,
        init: InitChunk<FakeContent>,
        from: TransportAddress<FakeContent>,
        initial_tsn: u32,
        local_verification_tag: u32,
    )
        requires
            old(self).wf(),
        ensures
            final(self).wf(),
            final(self)@ == old(self)@.after_answer_init(
                *packet,
                init@,
                from,
                initial_tsn,
                local_verification_tag,
            ),
    {
        let ghost s0 = self@;
        let ghost iv = init@;
        let incoming_streams = if self.settings.incoming_streams < init.outbound_streams {
            self.settings.incoming_streams
        } else {
            init.outbound_streams
        };
        let outgoing_streams = if self.settings.outgoing_streams < init.inbound_streams {
            self.settings.outgoing_streams
        } else {
            init.inbound_streams
        };
        let mut cookie = Cookie {
            init_address: from,
            aliases: init.aliases,
            peer_port: packet.from(),
            local_port: packet.to(),
            local_verification_tag,
            peer_verification_tag: init.initiate_tag,
            local_initial_tsn: initial_tsn,
            peer_initial_tsn: init.initial_tsn,
            incoming_streams,
            outgoing_streams,
            peer_arwnd: init.a_rwnd,
            mac: 0,
        };
        let mac = cookie.calc_mac(self.settings.cookie_secret.as_slice());
        cookie.mac = mac;
        let ghost cv = cookie@;
        assert(cv == s0.cookie_for(*packet, iv, from, initial_tsn, local_verification_tag));
        let cookie = StateCookie::Ours(cookie);
        let init_ack = Chunk::InitAck(
            self.create_init_ack(init.unrecognized, cookie, initial_tsn, local_verification_tag),
        );
        let header = Packet::new(packet.to(), packet.from(), init.initiate_tag);
        self.push_send(from, header, init_ack);
        assert(self@ =~= s0.after_answer_init(*packet, iv, from, initial_tsn, local_verification_tag));
    }

    /// Handles an INIT at the start `data` of a packet's chunks, drawing a random first TSN
    /// and verification tag when there is no INIT of ours to the same peer: see
    /// `handle_init` of [`SctpView`].
    fn handle_init(&mut self, packet: &Packet, data: &[u8], from: TransportAddress<FakeContent>) -> (r:
        HandleSpecialResult<()>)
        requires
            old(self).wf(),
        ensures
            final(self).wf(),
            exists|tsn: u32, tag: u32|
                (final(self)@, r) == old(self)@.handle_init(*packet, data@, from, tsn, tag),
    {
        let ghost s0 = self@;
        if !Chunk::<FakeContent>::is_init(data) {
            assert((self@, HandleSpecialResult::<()>::NotRecognized) == s0.handle_init(*packet, data@, from, 0, 0));
            return HandleSpecialResult::NotRecognized;
        }
        let (size, parsed) = Chunk::<FakeContent>::parse(data);
        let init = match parsed {
            Ok(Chunk::Init(init)) => init,
            _ => {
                assert((self@, HandleSpecialResult::<()>::Error) == s0.handle_init(*packet, data@, from, 0, 0));
                return HandleSpecialResult::Error;
            },
        };
        if size != data.len() {
            assert((self@, HandleSpecialResult::<()>::Error) == s0.handle_init(*packet, data@, from, 0, 0));
            return HandleSpecialResult::Error;
        }
        let alias = AssocAlias { peer_addr: from, peer_port: packet.from(), local_port: packet.to() };
        let initial_tsn;
        let local_verification_tag;
        match table_find(&self.wait_init_ack, &alias) {
            Some(i) => {
                initial_tsn = self.wait_init_ack[i].1.local_initial_tsn;
                local_verification_tag = self.wait_init_ack[i].1.local_verification_tag;
            },
            None => {
                initial_tsn = random_u32();
                local_verification_tag = random_u32();
            },
        }
        self.answer_init(packet, init, from, initial_tsn, local_verification_tag);
        assert((self@, HandleSpecialResult::Handled(())) == s0.handle_init(
            *packet,
            data@,
            from,
            initial_tsn,
            local_verification_tag,
        ));
        HandleSpecialResult::Handled(())
    }

    /// Handles an INIT ACK at the start `data` of a packet's chunks, as `handle_init_ack`
    /// of [`SctpView`] says.
    fn handle_init_ack(&mut self, packet: &Packet, data: &[u8], from: TransportAddress<FakeContent>) -> (r:
        HandleSpecialResult<()>)
        requires
            old(self).wf(),
        ensures
            final(self).wf(),
            (final(self)@, r) == old(self)@.handle_init_ack(*packet, data@, from),
    {
        let ghost s0 = self@;
        if !Chunk::<FakeContent>::is_init_ack(data) {
            return HandleSpecialResult::NotRecognized;
        }
        let (size, parsed) = Chunk::<FakeContent>::parse(data);
        let init_ack = match parsed {
            Ok(Chunk::InitAck(init_ack)) => init_ack,
            _ => {
                return HandleSpecialResult::Error;
            },
        };
        if size != data.len() {
            return HandleSpecialResult::Error;
        }
        let ghost ia = init_ack@;
        let alias = AssocAlias { peer_addr: from, peer_port: packet.from(), local_port: packet.to() };
        let half_open = match table_remove(&mut self.wait_init_ack, &alias) {
            Some(h) => h,
            None => {
                assert(map_of(self.wait_init_ack@) =~= s0.wait_init_ack);
                assert(self@ =~= s0);
                return HandleSpecialResult::Error;
            },
        };
        let ghost s1 = self@;
        let waiting = WaitCookieAck {
            peer_verification_tag: init_ack.initiate_tag,
            local_verification_tag: half_open.local_verification_tag,
            aliases: init_ack.aliases,
            original_address: from,
            local_initial_tsn: half_open.local_initial_tsn,
            peer_initial_tsn: init_ack.initial_tsn,
            local_in_streams: self.settings.incoming_streams,
            peer_in_streams: init_ack.inbound_streams,
            local_out_streams: self.settings.outgoing_streams,
            peer_out_streams: init_ack.outbound_streams,
            peer_arwnd: init_ack.a_rwnd,
        };
        let ghost wv = waiting@;
        let ghost m0 = map_of(self.wait_cookie_ack@);
        table_insert(&mut self.wait_cookie_ack, alias, waiting);
        proof {
            assert(map_of(self.wait_cookie_ack@).map_values(|w: WaitCookieAck<FakeContent>| w@) =~= m0.map_values(
                |w: WaitCookieAck<FakeContent>| w@,
            ).insert(alias, wv));
        }
        let header = Packet::new(packet.to(), packet.from(), init_ack.initiate_tag);
        self.push_send(from, header, Chunk::StateCookie(init_ack.cookie));
        assert(self@ =~= s0.handle_init_ack(*packet, data@, from).0);
        HandleSpecialResult::Handled(())
    }
}

impl<FakeContent: FakeAddr> Sctp<FakeContent> {
    fn next_assoc_id(&mut self) -> (r: AssocId)
        ensures
            r == AssocId(SctpView::<FakeContent>::next_id(old(self)@.assoc_id_gen)),
            final(self)@ == (SctpView { assoc_id_gen: r.0, ..old(self)@ }),
            final(self).wf() == old(self).wf(),
    {
        self.assoc_id_gen = self.assoc_id_gen.wrapping_add(1);
        AssocId(self.assoc_id_gen)
    }

    /// Sets up a new association for `packet`, as `make_new_assoc` of [`SctpView`] says.
    fn make_new_assoc(
        &mut self,
        packet: &Packet,
        alias_addresses: &[TransportAddress<FakeContent>],
        local_verification_tag: u32,
        peer_initial_tsn: u32,
        incoming_streams: u16,
        tx_settings: AssocTxSettings<FakeContent>,
        now: u64,
    ) -> (r: AssocId)
        requires
            old(self).wf(),
            tx_settings.pmtu == old(self)@.settings.pmtu,
            tx_settings.out_buffer_limit == old(self)@.settings.out_buffer_limit,
        ensures
            final(self).wf(),
            (final(self)@, r) == old(self)@.make_new_assoc(
                *packet,
                alias_addresses@,
                local_verification_tag,
                peer_initial_tsn,
                incoming_streams,
                tx_settings,
                now,
            ),
    {
        let ghost s0 = self@;
        let assoc_id = self.next_assoc_id();
        let ghost infos0 = self.assoc_infos@;
        let info = PerAssocInfo {
            local_verification_tag,
            peer_verification_tag: tx_settings.peer_verification_tag,
        };
        self.assoc_infos.insert(assoc_id.0, info);
        proof {
            lemma_infos_insert(infos0, assoc_id, info);
        }
        let original_alias = AssocAlias {
            peer_addr: tx_settings.primary_path,
            peer_port: packet.from(),
            local_port: packet.to(),
        };
        table_insert(&mut self.aliases, original_alias, assoc_id);
        let ghost m0 = map_of(self.aliases@);
        let ghost s_mid = self@;
        let mut i: usize = 0;
        assert(alias_addresses@.take(0) =~= seq![]);
        while i < alias_addresses.len()
            invariant
                i <= alias_addresses@.len(),
                self.wf(),
                self@ == (SctpView { aliases: self@.aliases, ..s_mid }),
                map_of(self.aliases@) == insert_aliases(
                    m0,
                    alias_addresses@.take(i as int),
                    *packet,
                    assoc_id,
                ),
            decreases alias_addresses@.len() - i,
        {
            let alias = AssocAlias {
                peer_addr: alias_addresses[i],
                peer_port: packet.from(),
                local_port: packet.to(),
            };
            let ghost s_before = self@;
            table_insert(&mut self.aliases, alias, assoc_id);
            assert(self@ =~= (SctpView { aliases: self@.aliases, ..s_before }));
            proof {
                let t = alias_addresses@.take(i + 1);
                assert(t.drop_last() =~= alias_addresses@.take(i as int));
                assert(t.last() == alias_addresses@[i as int]);
            }
            i = i + 1;
        }
        assert(alias_addresses@.take(i as int) =~= alias_addresses@);
        let assoc = Association::new(
            assoc_id,
            Tsn(peer_initial_tsn),
            incoming_streams,
            self.settings.in_buffer_limit,
            tx_settings,
            now,
        );
        self.new_assoc = Some(assoc);
        assert(self@ =~= s0.make_new_assoc(
            *packet,
            alias_addresses@,
            local_verification_tag,
            peer_initial_tsn,
            incoming_streams,
            tx_settings,
            now,
        ).0);
        assoc_id
    }

    /// Handles a COOKIE ACK at the start `data` of a packet's chunks, as
    /// `handle_cookie_ack` of [`SctpView`] says; also gives the bytes of `data` taken.
    fn handle_cookie_ack(
        &mut self,
        packet: &Packet,
        data: &[u8],
        from: TransportAddress<FakeContent>,
        now: u64,
    ) -> (r: (HandleSpecialResult<AssocId>, usize))
        requires
            old(self).wf(),
        ensures
            final(self).wf(),
            (final(self)@, r.0, r.1 as int) == old(self)@.handle_cookie_ack(*packet, data@, from, now),
    {
        let ghost s0 = self@;
        if !Chunk::<FakeContent>::is_cookie_ack(data) {
            return (HandleSpecialResult::NotRecognized, 0);
        }
        let (size, parsed) = Chunk::<FakeContent>::parse(data);
        match parsed {
            Ok(Chunk::StateCookieAck) => {},
            _ => {
                return (HandleSpecialResult::Error, 0);
            },
        }
        let alias = AssocAlias { peer_addr: from, peer_port: packet.from(), local_port: packet.to() };
        match table_find(&self.aliases, &alias) {
            Some(i) => {
                return (HandleSpecialResult::Handled(self.aliases[i].1), size);
            },
            None => {},
        }
        let ghost wm = map_of(self.wait_cookie_ack@);
        let half_open = match table_remove(&mut self.wait_cookie_ack, &alias) {
            Some(h) => h,
            None => {
                assert(map_of(self.wait_cookie_ack@) =~= wm);
                assert(self@ =~= s0);
                return (HandleSpecialResult::Error, size);
            },
        };
        proof {
            assert(map_of(self.wait_cookie_ack@).map_values(|w: WaitCookieAck<FakeContent>| w@)
                =~= s0.wait_cookie_ack.remove(alias));
        }
        let ghost hv = half_open@;
        let in_streams = if half_open.local_in_streams < half_open.peer_in_streams {
            half_open.local_in_streams
        } else {
            half_open.peer_in_streams
        };
        let out_streams = if half_open.local_out_streams < half_open.peer_out_streams {
            half_open.local_out_streams
        } else {
            half_open.peer_out_streams
        };
        let tx_settings = AssocTxSettings {
            primary_path: half_open.original_address,
            peer_verification_tag: half_open.peer_verification_tag,
            local_port: packet.to(),
            peer_port: packet.from(),
            init_tsn: Tsn(half_open.local_initial_tsn),
            out_streams,
            out_buffer_limit: self.settings.out_buffer_limit,
            peer_arwnd: half_open.peer_arwnd,
            pmtu: self.settings.pmtu,
        };
        let assoc_id = self.make_new_assoc(
            packet,
            half_open.aliases.as_slice(),
            half_open.local_verification_tag,
            half_open.peer_initial_tsn,
            in_streams,
            tx_settings,
            now,
        );
        (HandleSpecialResult::Handled(assoc_id), size)
    }

    /// Handles a COOKIE ECHO at the start `data` of a packet's chunks, as
    /// `handle_cookie_echo` of [`SctpView`] says; also gives the bytes of `data` taken.
    fn handle_cookie_echo(
        &mut self,
        packet: &Packet,
        data: &[u8],
        from: TransportAddress<FakeContent>,
        now: u64,
    ) -> (r: (HandleSpecialResult<AssocId>, usize))
        requires
            old(self).wf(),
            !cookie_echo_cut_short::<FakeContent>(data@),
        ensures
            final(self).wf(),
            (final(self)@, r.0, r.1 as int) == old(self)@.handle_cookie_echo(*packet, data@, from, now),
    {
        let ghost s0 = self@;
        if !Chunk::<FakeContent>::is_cookie_echo(data) {
            return (HandleSpecialResult::NotRecognized, 0);
        }
        let (size, parsed) = Chunk::<FakeContent>::parse(data);
        let mut state_cookie = match parsed {
            Ok(Chunk::StateCookie(c)) => c,
            _ => {
                return (HandleSpecialResult::Error, 0);
            },
        };
        let ghost b = match state_cookie@ {
            StateCookieView::Opaque(b) => b,
            _ => seq![],
        };
        assert(state_cookie@ == StateCookieView::<FakeContent>::Opaque(b));
        let cookie = match state_cookie.make_ours() {
            Some(c) => c,
            None => {
                return (HandleSpecialResult::Error, 0);
            },
        };
        let calced_mac = cookie.calc_mac(self.settings.cookie_secret.as_slice());
        if calced_mac != cookie.mac {
            return (HandleSpecialResult::Error, 0);
        }
        let alias = AssocAlias { peer_addr: from, peer_port: packet.from(), local_port: packet.to() };
        match table_find(&self.aliases, &alias) {
            Some(i) => {
                return (HandleSpecialResult::Handled(self.aliases[i].1), size);
            },
            None => {},
        }
        let tx_settings = AssocTxSettings {
            primary_path: cookie.init_address,
            peer_verification_tag: cookie.peer_verification_tag,
            local_port: cookie.local_port,
            peer_port: cookie.peer_port,
            init_tsn: Tsn(cookie.local_initial_tsn),
            out_streams: cookie.outgoing_streams,
            out_buffer_limit: self.settings.out_buffer_limit,
            peer_arwnd: cookie.peer_arwnd,
            pmtu: self.settings.pmtu,
        };
        let assoc_id = self.make_new_assoc(
            packet,
            cookie.aliases.as_slice(),
            cookie.local_verification_tag,
            cookie.peer_initial_tsn,
            cookie.incoming_streams,
            tx_settings,
            now,
        );
        let ghost s1 = self@;
        self.tx_notifications.push_back((assoc_id, TxNotification::Send(Chunk::StateCookieAck)));
        assert(self@ =~= (SctpView {
            tx_notifications: s1.tx_notifications.push(
                (assoc_id, TxNotificationView::Send(ChunkView::StateCookieAck)),
            ),
            ..s1
        }));
        (HandleSpecialResult::Handled(assoc_id), size)
    }
}

impl<FakeContent: FakeAddr> Sctp<FakeContent> {
    /// Forgets association `id` after an ABORT in `packet` from `from`, as `after_abort`
    /// says.
    fn abort_association(&mut self, assoc_id: AssocId, from: TransportAddress<FakeContent>, packet: &Packet)
        requires
            old(self).wf(),
        ensures
            final(self).wf(),
            final(self)@ == old(self)@.after_abort(assoc_id, from, *packet),
    {
        let ghost s0 = self@;
        table_drop_value(&mut self.aliases, assoc_id);
        let ghost infos0 = self.assoc_infos@;
        let _ = self.assoc_infos.remove(&assoc_id.0);
        proof {
            lemma_infos_remove(infos0, assoc_id);
        }
        drop_pairs(&mut self.tx_notifications, assoc_id);
        drop_pairs(&mut self.rx_notifications, assoc_id);
        drop_replies_of(&mut self.send_immediate, from, packet);
        let ghost r0 = self@.rx_notifications;
        self.rx_notifications.push_back((assoc_id, RxNotification::Chunk(Chunk::Abort)));
        proof {
            assert(self@.rx_notifications =~= r0.push((assoc_id, ChunkView::Abort)));
            assert(self@.tx_notifications =~= drop_assoc(s0.tx_notifications, assoc_id));
            assert(r0 =~= drop_assoc(s0.rx_notifications, assoc_id));
            assert(self@.send_immediate =~= drop_replies(s0.send_immediate, from, *packet));
        }
        assert(self@ =~= s0.after_abort(assoc_id, from, *packet));
    }

    /// Hands the chunks `data` of a packet to association `id`, as `process_chunks` of
    /// [`SctpView`] says.
    fn process_chunks(
        &mut self,
        assoc_id: AssocId,
        from: TransportAddress<FakeContent>,
        packet: &Packet,
        data: &[u8],
    )
        requires
            old(self).wf(),
        ensures
            final(self).wf(),
            final(self)@ == old(self)@.process_chunks(assoc_id, from, *packet, data@),
    {
        let info = match self.assoc_infos.get(&assoc_id.0) {
            Some(i) => *i,
            None => {
                return;
            },
        };
        if info.local_verification_tag != packet.verification_tag() {
            return;
        }
        let peer_tag = info.peer_verification_tag;
        let ghost target = self@.process_chunk_list(assoc_id, from, *packet, peer_tag, data@);
        let mut pos: usize = 0;
        assert(data@.skip(0) =~= data@);
        while pos < data.len()
            invariant
                self.wf(),
                pos <= data@.len(),
                self@.process_chunk_list(assoc_id, from, *packet, peer_tag, data@.skip(pos as int))
                    == target,
                target == old(self)@.process_chunks(assoc_id, from, *packet, data@),
            decreases data@.len() - pos,
        {
            let rest = vstd::slice::slice_subrange(data, pos, data.len());
            assert(rest@ =~= data@.skip(pos as int));
            let ghost s_before = self@;
            let (size, parsed) = Chunk::<FakeContent>::parse(rest);
            assert((size as int, chunk_result_view(parsed)) == chunk_at::<FakeContent>(rest@)) by {
                reveal(chunk_at);
            }
            assert(data@.skip(pos + size) =~= rest@.skip(size as int));
            pos = pos + size;
            let go_on = self.chunk_step(assoc_id, from, packet, peer_tag, parsed);
            assert(s_before.process_chunk_list(assoc_id, from, *packet, peer_tag, rest@) == if go_on {
                self@.process_chunk_list(assoc_id, from, *packet, peer_tag, rest@.skip(size as int))
            } else {
                self@
            });
            if !go_on {
                return;
            }
        }
    }

    /// Handles one chunk of a packet for association `id`, as `chunk_step` says.
    fn chunk_step(
        &mut self,
        assoc_id: AssocId,
        from: TransportAddress<FakeContent>,
        packet: &Packet,
        peer_tag: u32,
        parsed: Result<Chunk<FakeContent>, ParseError>,
    ) -> (r: bool)
        requires
            old(self).wf(),
        ensures
            final(self).wf(),
            (final(self)@, r) == old(self)@.chunk_step(
                assoc_id,
                from,
                *packet,
                peer_tag,
                chunk_result_view(parsed),
            ),
    {
        match parsed {
            Ok(chunk) => {
                match chunk {
                    Chunk::Init(_) => true,
                    Chunk::InitAck(_) => true,
                    Chunk::Abort => {
                        self.abort_association(assoc_id, from, packet);
                        false
                    },
                    Chunk::HeartBeat(hb) => {
                        let header = Packet::new(packet.to(), packet.from(), peer_tag);
                        self.push_send(from, header, Chunk::HeartBeatAck(hb));
                        true
                    },
                    other => {
                        let ghost s1 = self@;
                        let ghost cv = other@;
                        self.rx_notifications.push_back((assoc_id, RxNotification::Chunk(other)));
                        assert(self@ =~= (SctpView {
                            rx_notifications: s1.rx_notifications.push((assoc_id, cv)),
                            ..s1
                        }));
                        true
                    },
                }
            },
            Err(ParseError::Unrecognized { report, stop }) => {
                if report {
                    let header = Packet::new(packet.to(), packet.from(), peer_tag);
                    self.push_send(from, header, Chunk::OpError);
                }
                !stop
            },
            Err(_) => false,
        }
    }

    /// Takes a packet's bytes `data` that came from `from` at `now` as `receive_data` does,
    /// after testing that the packet is not one with a cookie cut short; such a packet is
    /// refused: `false` is returned and nothing changes.
    pub fn try_receive_data(
        &mut self,
        data: Vec<u8>,
        from: TransportAddress<FakeContent>,
        now: u64,
    ) -> (r: bool)
        requires
            old(self).wf(),
        ensures
            final(self).wf(),
            r == !packet_cut_short::<FakeContent>(data@),
            !r ==> final(self)@ == old(self)@,
            r ==> exists|fresh_tsn: u32, fresh_tag: u32|
                final(self)@ == old(self)@.after_receive(data@, from, now, fresh_tsn, fresh_tag),
    {
        if is_packet_cut_short::<FakeContent>(data.as_slice()) {
            return false;
        }
        self.receive_data(data, from, now);
        true
    }

    /// Takes a packet's bytes `data` that came from `from` at `now`, as `after_receive`
    /// says; the random values for answering an INIT are drawn when needed.
    pub fn receive_data(&mut self, data: Vec<u8>, from: TransportAddress<FakeContent>, now: u64)
        requires
            old(self).wf(),
            !packet_cut_short::<FakeContent>(data@),
        ensures
            final(self).wf(),
            exists|fresh_tsn: u32, fresh_tag: u32|
                final(self)@ == old(self)@.after_receive(data@, from, now, fresh_tsn, fresh_tag),
    {
        let ghost s0 = self@;
        let packet = match Packet::parse(data.as_slice()) {
            Some(p) => p,
            None => {
                assert(self@ == s0.after_receive(data@, from, now, 0, 0));
                return;
            },
        };
        let d = vstd::slice::slice_subrange(data.as_slice(), 12, data.len());
        assert(d@ =~= data@.skip(12));
        let r1 = self.handle_init(&packet, d, from);
        let ghost (t, g) = choose|t: u32, g: u32| (self@, r1) == s0.handle_init(packet, d@, from, t, g);
        if r1.handled_or_error() {
            assert(self@ == s0.after_receive(data@, from, now, t, g));
            return;
        }
        let r2 = self.handle_init_ack(&packet, d, from);
        if r2.handled_or_error() {
            assert(self@ == s0.after_receive(data@, from, now, t, g));
            return;
        }
        let mut new_assoc_id: Option<AssocId> = None;
        let (r3, n3) = self.handle_cookie_echo(&packet, d, from, now);
        match r3 {
            HandleSpecialResult::Handled(id) => {
                new_assoc_id = Some(id);
            },
            HandleSpecialResult::Error => {
                assert(self@ == s0.after_receive(data@, from, now, t, g));
                return;
            },
            HandleSpecialResult::NotRecognized => {},
        }
        let d3 = vstd::slice::slice_subrange(d, n3, d.len());
        assert(d3@ =~= d@.skip(n3 as int));
        let (r4, n4) = self.handle_cookie_ack(&packet, d3, from, now);
        match r4 {
            HandleSpecialResult::Handled(id) => {
                new_assoc_id = Some(id);
            },
            HandleSpecialResult::Error => {
                assert(self@ == s0.after_receive(data@, from, now, t, g));
                return;
            },
            HandleSpecialResult::NotRecognized => {},
        }
        let d4 = vstd::slice::slice_subrange(d3, n4, d3.len());
        assert(d4@ =~= d3@.skip(n4 as int));
        let assoc_id = match new_assoc_id {
            Some(id) => id,
            None => {
                let alias = AssocAlias { peer_addr: from, peer_port: packet.from(), local_port: packet.to() };
                match table_find(&self.aliases, &alias) {
                    Some(i) => self.aliases[i].1,
                    None => {
                        assert(self@ == s0.after_receive(data@, from, now, t, g));
                        return;
                    },
                }
            },
        };
        self.process_chunks(assoc_id, from, &packet, d4);
        assert(self@ == s0.after_receive(data@, from, now, t, g));
    }
}

impl<FakeContent: FakeAddr> Sctp<FakeContent> {
    /// Hands out the chunks for the receiving halves, oldest first.
    pub fn rx_notifications(&mut self) -> (r: VecDeque<(AssocId, RxNotification<FakeContent>)>)
        requires
            old(self).wf(),
        ensures
            final(self).wf(),
            r@.map_values(|p: (AssocId, RxNotification<FakeContent>)| (p.0, p.1@))
                == old(self)@.rx_notifications,
            final(self)@ == (SctpView { rx_notifications: seq![], ..old(self)@ }),
    {
        let mut out: VecDeque<(AssocId, RxNotification<FakeContent>)> = VecDeque::new();
        std::mem::swap(&mut out, &mut self.rx_notifications);
        assert(self@ =~= (SctpView { rx_notifications: seq![], ..old(self)@ }));
        out
    }

    /// Hands out the notifications for the sending halves, oldest first.
    pub fn tx_notifications(&mut self) -> (r: VecDeque<(AssocId, TxNotification<FakeContent>)>)
        requires
            old(self).wf(),
        ensures
            final(self).wf(),
            r@.map_values(|p: (AssocId, TxNotification<FakeContent>)| (p.0, p.1@))
                == old(self)@.tx_notifications,
            final(self)@ == (SctpView { tx_notifications: seq![], ..old(self)@ }),
    {
        let mut out: VecDeque<(AssocId, TxNotification<FakeContent>)> = VecDeque::new();
        std::mem::swap(&mut out, &mut self.tx_notifications);
        assert(self@ =~= (SctpView { tx_notifications: seq![], ..old(self)@ }));
        out
    }

    /// Hands out the chunks to send right away, oldest first.
    pub fn send_immediate(&mut self) -> (r: VecDeque<(TransportAddress<FakeContent>, Packet, Chunk<FakeContent>)>)
        requires
            old(self).wf(),
        ensures
            final(self).wf(),
            r@.map_values(|p: (TransportAddress<FakeContent>, Packet, Chunk<FakeContent>)| (p.0, p.1, p.2@))
                == old(self)@.send_immediate,
            final(self)@ == (SctpView { send_immediate: seq![], ..old(self)@ }),
    {
        let mut out: VecDeque<(TransportAddress<FakeContent>, Packet, Chunk<FakeContent>)> = VecDeque::new();
        std::mem::swap(&mut out, &mut self.send_immediate);
        assert(self@ =~= (SctpView { send_immediate: seq![], ..old(self)@ }));
        out
    }

    /// The oldest chunk to send right away, if there is one.
    pub fn next_send_immediate(&mut self) -> (r: Option<(TransportAddress<FakeContent>, Packet, Chunk<FakeContent>)>)
        requires
            old(self).wf(),
        ensures
            final(self).wf(),
            match r {
                Some(p) => old(self)@.send_immediate.len() > 0 && (p.0, p.1, p.2@)
                    == old(self)@.send_immediate[0] && final(self)@ == (SctpView {
                    send_immediate: old(self)@.send_immediate.drop_first(),
                    ..old(self)@
                }),
                None => old(self)@.send_immediate.len() == 0 && final(self)@ == old(self)@,
            },
    {
        if self.send_immediate.len() == 0 {
            return None;
        }
        let ghost s0 = self@;
        let first = self.send_immediate.pop_front().unwrap();
        assert(self@ =~= (SctpView { send_immediate: s0.send_immediate.drop_first(), ..s0 }));
        Some(first)
    }

    /// Whether there is a chunk to send right away.
    pub fn has_next_send_immediate(&mut self) -> (r: bool)
        ensures
            r == (old(self)@.send_immediate.len() > 0),
            *final(self) == *old(self),
    {
        self.send_immediate.len() > 0
    }

    /// Takes the association set up last, if there is one waiting.
    pub fn new_assoc(&mut self) -> (r: Option<Association<FakeContent>>)
        requires
            old(self).wf(),
        ensures
            final(self).wf(),
            match r {
                Some(a) => old(self)@.new_assoc == Some(a.view()) && a.wf(),
                None => old(self)@.new_assoc is None,
            },
            final(self)@ == (SctpView { new_assoc: None, ..old(self)@ }),
    {
        let mut out: Option<Association<FakeContent>> = None;
        std::mem::swap(&mut out, &mut self.new_assoc);
        assert(self@ =~= (SctpView { new_assoc: None, ..old(self)@ }));
        out
    }
}

/// The cookie an endpoint hands out in answer to an INIT is accepted when the peer echoes it
/// back unchanged: a COOKIE ECHO that carries it, whatever follows, passes the MAC check and
/// sets up the association (or names it, if the packet's alias is known already), in any
/// later state of the endpoint with the same cookie secret.
pub proof fn lemma_echoed_cookie_accepted<F: FakeAddr>(
    s: SctpView<F>,
    packet: Packet,
    init: InitChunkView<F>,
    from: TransportAddress<F>,
    tsn: u32,
    tag: u32,
    later: SctpView<F>,
    echo: Packet,
    peer: TransportAddress<F>,
    now: u64,
    rest: Seq<u8>,
)
    requires
        later.settings.cookie_secret@ == s.settings.cookie_secret@,
        no_fake(init.aliases),
        4 + s.cookie_for(packet, init, from, tsn, tag).spec_encode().len() <= u16::MAX,
    ensures
        later.handle_cookie_echo(
            echo,
            ChunkView::<F>::StateCookie(
                StateCookieView::Opaque(s.cookie_for(packet, init, from, tsn, tag).spec_encode()),
            ).spec_encode() + rest,
            peer,
            now,
        ).1 is Handled,
{
    let c = s.cookie_for(packet, init, from, tsn, tag);
    let chunk = ChunkView::<F>::StateCookie(StateCookieView::Opaque(c.spec_encode()));
    let e = chunk.spec_encode();
    lemma_chunk_roundtrip(chunk);
    lemma_padding(chunk.spec_size());
    lemma_parse_chunk_extend::<F>(e, rest);
    lemma_cookie_roundtrip(c);
    assert((e + rest)[0] == e[0]);
    let c0 = CookieView { mac: 0, ..c };
    assert(c.body_encoding() == c0.body_encoding());
}

/// Whether the chunk at the start of `d` is a COOKIE ECHO whose cookie reads as one of ours
/// and carries the MAC of its body under `secret`.
pub open spec fn cookie_echo_valid<F: FakeAddr>(d: Seq<u8>, secret: Seq<u8>) -> bool {
    &&& spec_parse_chunk::<F>(d).1 matches Ok(ChunkView::StateCookie(StateCookieView::Opaque(b)))
    &&& spec_parse_cookie::<F>(b) matches Some(c)
    &&& cookie_mac(c, secret) == c.mac
}

/// A COOKIE ECHO is accepted exactly when its cookie is one of ours with the right MAC, for
/// every cookie; a refused one is an error that changes nothing. One accepted from a peer
/// whose alias is not known yet sets up a new association under a fresh id, queues it to be
/// taken, and answers with a COOKIE ACK; one from a known alias names that association and
/// changes nothing.
pub proof fn lemma_cookie_echo_outcome<F: FakeAddr>(
    s: SctpView<F>,
    packet: Packet,
    d: Seq<u8>,
    from: TransportAddress<F>,
    now: u64,
)
    requires
        starts_with(d, CHUNK_STATE_COOKIE),
    ensures
        ({
            let (t, r, _) = s.handle_cookie_echo(packet, d, from, now);
            let ok = cookie_echo_valid::<F>(d, s.settings.cookie_secret@);
            let alias = alias_of(from, packet);
            &&& (r is Handled <==> ok)
            &&& !ok ==> r is Error && t == s
            &&& ok && s.aliases.dom().contains(alias) ==> r == HandleSpecialResult::Handled(
                s.aliases[alias],
            ) && t == s
            &&& ok && !s.aliases.dom().contains(alias) ==> {
                let id = AssocId(SctpView::<F>::next_id(s.assoc_id_gen));
                &&& r == HandleSpecialResult::Handled(id)
                &&& t.new_assoc is Some && t.new_assoc.unwrap().id == id
                &&& t.assoc_infos.dom().contains(id)
                &&& t.tx_notifications == s.tx_notifications.push(
                    (id, TxNotificationView::Send(ChunkView::StateCookieAck)),
                )
            }
        }),
{
}

/// The stream counts an INIT is answered with are negotiated: the cookie in the INIT ACK that
/// answers it gives as outgoing streams the smaller of our configured outgoing streams and
/// the inbound streams the INIT announces, and as incoming streams the smaller of our
/// configured incoming streams and the INIT's outbound streams. So we never send on a stream
/// the peer cannot receive, nor accept one we did not offer.
pub proof fn lemma_answer_negotiates_streams<F: FakeAddr>(
    s: SctpView<F>,
    packet: Packet,
    init: InitChunkView<F>,
    from: TransportAddress<F>,
    tsn: u32,
    tag: u32,
)
    ensures
        ({
            let t = s.after_answer_init(packet, init, from, tsn, tag);
            &&& t.send_immediate.len() == s.send_immediate.len() + 1
            &&& t.send_immediate.last().2 matches ChunkView::InitAck(ack)
            &&& ack.cookie matches StateCookieView::Ours(c)
            &&& c.outgoing_streams <= s.settings.outgoing_streams
            &&& c.outgoing_streams <= init.inbound_streams
            &&& (c.outgoing_streams == s.settings.outgoing_streams || c.outgoing_streams
                == init.inbound_streams)
            &&& c.incoming_streams <= s.settings.incoming_streams
            &&& c.incoming_streams <= init.outbound_streams
            &&& (c.incoming_streams == s.settings.incoming_streams || c.incoming_streams
                == init.outbound_streams)
        }),
{
}

/// An association set up from an echoed cookie sends on exactly the cookie's outgoing
/// streams and receives on exactly its incoming streams, each stream starting at sequence
/// number zero.
pub proof fn lemma_echo_uses_cookie_streams<F: FakeAddr>(
    s: SctpView<F>,
    packet: Packet,
    d: Seq<u8>,
    from: TransportAddress<F>,
    now: u64,
)
    requires
        starts_with(d, CHUNK_STATE_COOKIE),
        !s.aliases.dom().contains(alias_of(from, packet)),
        spec_parse_chunk::<F>(d).1 matches Ok(ChunkView::StateCookie(StateCookieView::Opaque(b)))
            && spec_parse_cookie::<F>(b) matches Some(c) && cookie_mac(
            c,
            s.settings.cookie_secret@,
        ) == c.mac,
    ensures
        ({
            let b = spec_parse_chunk::<F>(d).1->Ok_0->StateCookie_0->Opaque_0;
            let c = spec_parse_cookie::<F>(b).unwrap();
            let t = s.handle_cookie_echo(packet, d, from, now).0;
            &&& t.new_assoc is Some
            &&& t.new_assoc.unwrap().tx.per_stream.len() == c.outgoing_streams
            &&& t.new_assoc.unwrap().rx.in_streams == c.incoming_streams
            &&& forall|i: int|
                0 <= i < c.outgoing_streams ==> #[trigger] t.new_assoc.unwrap().tx.per_stream[i]
                    == crate::packet::Sequence(0)
        }),
{
}

} // verus!
