//! The SCTP wire format: the common header and the chunks.
use vstd::prelude::*;

use crate::addr::FakeAddr;
use crate::wire::{
    be16, be32, copy_range, lemma_be16, lemma_be32, put_slice, put_u16, put_u32, put_u8,
    put_zeros, read_u16, read_u32, u16_at, u32_at, zeros,
};
use cookie::{StateCookie, StateCookieView};
use data::{spec_parse_data, DataChunk, DataChunkView};
use init::{spec_parse_init, spec_parse_init_ack, InitAck, InitAckView, InitChunk, InitChunkView};
use param::{padded, padded_len, padding_for, padding_needed};
use sack::{spec_parse_sack, SelectiveAck, SelectiveAckView};

pub mod cookie;
pub mod data;
pub mod init;
pub mod param;
pub mod sack;
pub mod serial;

pub use serial::{Sequence, Tsn};

verus! {

/// The common header of an SCTP packet: source port, destination port and verification
/// tag. The checksum is computed when the packet is written and checked when it is read.
#[derive(Clone, Copy, PartialEq, Eq, Structural, Debug)]
pub struct Packet {
    pub from: u16,
    pub to: u16,
    pub verification_tag: u32,
}

/// The CRC-32C (iSCSI) checksum of a byte string.
pub uninterp spec fn spec_crc32c(data: Seq<u8>) -> u32;

/// Computes the CRC-32C checksum with the `crc` crate.
#[verifier::external_body]
fn crc32c(data: &[u8]) -> (r: u32)
    ensures
        r == spec_crc32c(data@),
{
    crc::Crc::<u32>::new(&crc::CRC_32_ISCSI).checksum(data)
}

/// What the checksum of a packet covers: the packet with its checksum field zeroed.
pub open spec fn checksum_input(d: Seq<u8>) -> Seq<u8> {
    d.subrange(0, 8) + zeros(4) + d.skip(12)
}

/// The header of `d` if it is long enough and its checksum field holds `computed`.
pub open spec fn spec_parse_packet(d: Seq<u8>, computed: u32) -> Option<Packet> {
    if d.len() < 12 || u32_at(d, 8) != computed {
        None
    } else {
        Some(Packet { from: u16_at(d, 0), to: u16_at(d, 2), verification_tag: u32_at(d, 4) })
    }
}

/// The header fields as they are written, with the checksum field left out.
pub open spec fn header_fields(p: Packet) -> Seq<u8> {
    be16(p.from) + be16(p.to) + be32(p.verification_tag)
}

impl Packet {
    pub open spec fn spec_from(self) -> u16 {
        self.from
    }

    pub open spec fn spec_to(self) -> u16 {
        self.to
    }

    pub open spec fn spec_verification_tag(self) -> u32 {
        self.verification_tag
    }

    /// The bytes that `serialize` writes before the chunks.
    pub open spec fn spec_encode(self, chunks: Seq<u8>) -> Seq<u8> {
        header_fields(self) + be32(spec_crc32c(header_fields(self) + zeros(4) + chunks))
    }

    pub fn new(from: u16, to: u16, verification_tag: u32) -> (r: Self)
        ensures
            r.spec_from() == from,
            r.spec_to() == to,
            r.spec_verification_tag() == verification_tag,
    {
        Self { to, from, verification_tag }
    }

    /// Reads the header of a packet and checks its checksum; `None` if it is too short or
    /// the checksum does not match.
    pub fn parse(data: &[u8]) -> (r: Option<Self>)
        ensures
            data@.len() < 12 ==> r is None,
            data@.len() >= 12 ==> r == spec_parse_packet(
                data@,
                spec_crc32c(checksum_input(data@)),
            ),
    {
        if data.len() < 12 {
            return None;
        }
        let mut input: Vec<u8> = copy_range(data, 0, 8);
        put_zeros(&mut input, 4);
        put_slice(&mut input, vstd::slice::slice_subrange(data, 12, data.len()));
        assert(input@ =~= checksum_input(data@));
        let computed = crc32c(input.as_slice());
        Self::parse_with_checksum(data, computed)
    }

    /// Reads the header of a packet whose checksum computes to `computed`.
    pub fn parse_with_checksum(data: &[u8], computed: u32) -> (r: Option<Self>)
        ensures
            r == spec_parse_packet(data@, computed),
    {
        if data.len() < 12 {
            return None;
        }
        let from = read_u16(data, 0);
        let to = read_u16(data, 2);
        let verification_tag = read_u32(data, 4);
        let checksum = read_u32(data, 8);
        if computed != checksum {
            return None;
        }
        Some(Self { from, to, verification_tag })
    }

    /// Appends the header of a packet that carries `chunks`, with its checksum.
    pub fn serialize(&self, buf: &mut Vec<u8>, chunks: &[u8])
        ensures
            final(buf)@ == old(buf)@ + self.spec_encode(chunks@),
    {
        let mut input: Vec<u8> = Vec::new();
        put_u16(&mut input, self.from);
        put_u16(&mut input, self.to);
        put_u32(&mut input, self.verification_tag);
        put_zeros(&mut input, 4);
        put_slice(&mut input, chunks);
        assert(input@ =~= header_fields(*self) + zeros(4) + chunks@);
        let checksum = crc32c(input.as_slice());
        put_u16(buf, self.from);
        put_u16(buf, self.to);
        put_u32(buf, self.verification_tag);
        put_u32(buf, checksum);
        assert(buf@ =~= old(buf)@ + self.spec_encode(chunks@));
    }

    pub fn from(&self) -> (r: u16)
        ensures
            r == self.spec_from(),
    {
        self.from
    }

    pub fn to(&self) -> (r: u16)
        ensures
            r == self.spec_to(),
    {
        self.to
    }

    pub fn verification_tag(&self) -> (r: u32)
        ensures
            r == self.spec_verification_tag(),
    {
        self.verification_tag
    }
}

/// A packet written by `serialize`, followed by its chunks, reads back as the same
/// header: the checksum it carries is the one computed over it.
pub proof fn lemma_packet_roundtrip(p: Packet, chunks: Seq<u8>)
    ensures
        ({
            let d = p.spec_encode(chunks) + chunks;
            spec_parse_packet(d, spec_crc32c(checksum_input(d))) == Some(p)
        }),
{
    let h = header_fields(p);
    let sum = spec_crc32c(h + zeros(4) + chunks);
    let d = p.spec_encode(chunks) + chunks;
    lemma_be16(p.from);
    lemma_be16(p.to);
    lemma_be32(p.verification_tag);
    lemma_be32(sum);
    assert(checksum_input(d) =~= h + zeros(4) + chunks);
    assert(d.subrange(0, 2) =~= be16(p.from));
    assert(d.subrange(2, 4) =~= be16(p.to));
    assert(d.subrange(4, 8) =~= be32(p.verification_tag));
    assert(d.subrange(8, 12) =~= be32(sum));
}

/// Why a chunk could not be read.
#[derive(Clone, Copy, PartialEq, Eq, Structural, Debug)]
pub enum ParseError {
    /// A chunk of a type this implementation does not know; the two highest bits of the
    /// type say whether to report it to the peer and whether to stop reading the packet.
    Unrecognized { report: bool, stop: bool },
    IllegalFormat,
    /// No chunk left.
    Done,
}

/// A parameter that the peer sent and this endpoint does not know.
#[derive(Debug, PartialEq, Eq)]
pub struct UnrecognizedParam {
    pub typ: u16,
    pub data: Vec<u8>,
}

/// The value of an [`UnrecognizedParam`].
pub struct UnrecognizedParamView {
    pub typ: u16,
    pub data: Seq<u8>,
}

impl View for UnrecognizedParam {
    type V = UnrecognizedParamView;

    open spec fn view(&self) -> UnrecognizedParamView {
        UnrecognizedParamView { typ: self.typ, data: self.data@ }
    }
}

/// The address types a peer says it supports.
#[derive(Clone, Copy, PartialEq, Eq, Structural, Debug)]
pub struct SupportedAddrTypes {
    pub ipv4: bool,
    pub ipv6: bool,
}

pub const CHUNK_DATA: u8 = 0;

pub const CHUNK_INIT: u8 = 1;

pub const CHUNK_INIT_ACK: u8 = 2;

pub const CHUNK_SACK: u8 = 3;

pub const CHUNK_HEARTBEAT: u8 = 4;

pub const CHUNK_HEARTBEAT_ACK: u8 = 5;

pub const CHUNK_ABORT: u8 = 6;

pub const CHUNK_SHUTDOWN: u8 = 7;

pub const CHUNK_SHUTDOWN_ACK: u8 = 8;

pub const CHUNK_OP_ERROR: u8 = 9;

pub const CHUNK_STATE_COOKIE: u8 = 10;

pub const CHUNK_STATE_COOKIE_ACK: u8 = 11;

pub const CHUNK_RESERVED_ECNE: u8 = 12;

pub const CHUNK_RESERVED_CWR: u8 = 13;

pub const CHUNK_SHUTDOWN_COMPLETE: u8 = 14;

pub const CHUNK_HEADER_SIZE: usize = 4;

/// A chunk of an SCTP packet.
#[derive(Debug, PartialEq, Eq)]
pub enum Chunk<FakeContent: FakeAddr> {
    Data(DataChunk),
    Init(InitChunk<FakeContent>),
    InitAck(InitAck<FakeContent>),
    SAck(SelectiveAck),
    HeartBeat(Vec<u8>),
    HeartBeatAck(Vec<u8>),
    Abort,
    /// A SHUTDOWN with the cumulative TSN acknowledged.
    ShutDown(Tsn),
    ShutDownAck,
    OpError,
    StateCookie(StateCookie<FakeContent>),
    StateCookieAck,
    _ReservedECNE,
    _ReservedCWR,
    /// A SHUTDOWN COMPLETE; `reflected` is its T flag.
    ShutDownComplete { reflected: bool },
}

/// The value of a [`Chunk`].
pub enum ChunkView<FakeContent: FakeAddr> {
    Data(DataChunkView),
    Init(InitChunkView<FakeContent>),
    InitAck(InitAckView<FakeContent>),
    SAck(SelectiveAckView),
    HeartBeat(Seq<u8>),
    HeartBeatAck(Seq<u8>),
    Abort,
    ShutDown(Tsn),
    ShutDownAck,
    OpError,
    StateCookie(StateCookieView<FakeContent>),
    StateCookieAck,
    _ReservedECNE,
    _ReservedCWR,
    ShutDownComplete { reflected: bool },
}

impl<FakeContent: FakeAddr> View for Chunk<FakeContent> {
    type V = ChunkView<FakeContent>;

    open spec fn view(&self) -> ChunkView<FakeContent> {
        match self {
            Chunk::Data(d) => ChunkView::Data(d@),
            Chunk::Init(i) => ChunkView::Init(i@),
            Chunk::InitAck(i) => ChunkView::InitAck(i@),
            Chunk::SAck(s) => ChunkView::SAck(s@),
            Chunk::HeartBeat(d) => ChunkView::HeartBeat(d@),
            Chunk::HeartBeatAck(d) => ChunkView::HeartBeatAck(d@),
            Chunk::Abort => ChunkView::Abort,
            Chunk::ShutDown(t) => ChunkView::ShutDown(*t),
            Chunk::ShutDownAck => ChunkView::ShutDownAck,
            Chunk::OpError => ChunkView::OpError,
            Chunk::StateCookie(c) => ChunkView::StateCookie(c@),
            Chunk::StateCookieAck => ChunkView::StateCookieAck,
            Chunk::_ReservedECNE => ChunkView::_ReservedECNE,
            Chunk::_ReservedCWR => ChunkView::_ReservedCWR,
            Chunk::ShutDownComplete { reflected } => ChunkView::ShutDownComplete {
                reflected: *reflected,
            },
        }
    }
}

/// The value of a chunk parse result.
pub open spec fn chunk_result_view<F: FakeAddr>(r: Result<Chunk<F>, ParseError>) -> Result<
    ChunkView<F>,
    ParseError,
> {
    match r {
        Ok(c) => Ok(c@),
        Err(e) => Err(e),
    }
}

/// What the two highest bits of an unknown chunk type ask: 00 stop, 01 stop and report,
/// 10 skip, 11 skip and report.
pub open spec fn spec_chunk_error(typ: u8) -> ParseError {
    let hi = typ / 64;
    ParseError::Unrecognized { report: hi == 1 || hi == 3, stop: hi == 0 || hi == 1 }
}

/// The chunk read from its type, flags and value, if the value is well formed.
pub open spec fn spec_chunk_of<F: FakeAddr>(typ: u8, flags: u8, value: Seq<u8>) -> Option<
    ChunkView<F>,
> {
    if typ == 0 {
        match spec_parse_data(flags, value) {
            Some(d) => Some(ChunkView::Data(d)),
            None => None,
        }
    } else if typ == 1 {
        match spec_parse_init::<F>(value) {
            Some(i) => Some(ChunkView::Init(i)),
            None => None,
        }
    } else if typ == 2 {
        match spec_parse_init_ack::<F>(value) {
            Some(i) => Some(ChunkView::InitAck(i)),
            None => None,
        }
    } else if typ == 3 {
        match spec_parse_sack(value) {
            Some(s) => Some(ChunkView::SAck(s)),
            None => None,
        }
    } else if typ == 4 {
        Some(ChunkView::HeartBeat(value))
    } else if typ == 5 {
        Some(ChunkView::HeartBeatAck(value))
    } else if typ == 6 {
        Some(ChunkView::Abort)
    } else if typ == 7 {
        if value.len() < 4 {
            None
        } else {
            Some(ChunkView::ShutDown(Tsn(u32_at(value, 0))))
        }
    } else if typ == 8 {
        Some(ChunkView::ShutDownAck)
    } else if typ == 9 {
        Some(ChunkView::OpError)
    } else if typ == 10 {
        Some(ChunkView::StateCookie(StateCookieView::Opaque(value)))
    } else if typ == 11 {
        if value.len() != 0 {
            None
        } else {
            Some(ChunkView::StateCookieAck)
        }
    } else if typ == 12 {
        Some(ChunkView::_ReservedECNE)
    } else if typ == 13 {
        Some(ChunkView::_ReservedCWR)
    } else {
        Some(ChunkView::ShutDownComplete { reflected: flags & 1 == 1 })
    }
}

/// What `Chunk::parse` returns for `d`: the number of bytes to skip (the chunk with its
/// padding, or all of `d` where it is cut short) and the chunk or the error.
pub open spec fn spec_parse_chunk<F: FakeAddr>(d: Seq<u8>) -> (int, Result<ChunkView<F>, ParseError>) {
    if d.len() < 4 {
        (d.len() as int, Err(ParseError::Done))
    } else {
        let typ = d[0];
        let len = u16_at(d, 2) as int;
        if len > d.len() || len < 4 {
            (d.len() as int, Err(ParseError::IllegalFormat))
        } else {
            let value = d.subrange(4, len);
            let skip = if padded(len as nat) <= d.len() {
                padded(len as nat) as int
            } else {
                d.len() as int
            };
            if typ > 14 {
                (skip, Err(spec_chunk_error(typ)))
            } else {
                match spec_chunk_of::<F>(typ, d[1], value) {
                    Some(c) => (skip, Ok(c)),
                    None => (skip, Err(ParseError::IllegalFormat)),
                }
            }
        }
    }
}

/// The bytes of a chunk that has only its header: type, flags, length four.
pub open spec fn header_only(typ: u8, flags: u8) -> Seq<u8> {
    seq![typ, flags] + be16(4)
}

impl<FakeContent: FakeAddr> ChunkView<FakeContent> {
    /// The value of the length field.
    pub open spec fn spec_size(self) -> nat {
        match self {
            ChunkView::Data(d) => d.spec_size(),
            ChunkView::Init(i) => i.spec_size(),
            ChunkView::InitAck(i) => i.spec_size(),
            ChunkView::SAck(s) => s.spec_size(),
            ChunkView::HeartBeat(d) => 4 + d.len(),
            ChunkView::HeartBeatAck(d) => 4 + d.len(),
            ChunkView::ShutDown(_) => 8,
            ChunkView::StateCookie(c) => 4 + c.spec_encode().len(),
            _ => 4,
        }
    }

    /// The sizes of the chunk fit the machine.
    pub open spec fn wf(self) -> bool {
        &&& self.spec_size() + 8 <= usize::MAX
        &&& match self {
            ChunkView::Data(d) => d.buf.len() + 32 <= usize::MAX,
            ChunkView::Init(i) => i.spec_size() + 8 <= usize::MAX,
            ChunkView::InitAck(i) => i.spec_size() + 8 <= usize::MAX && i.cookie.wf(),
            ChunkView::SAck(s) => s.spec_size() + 4 <= usize::MAX,
            ChunkView::StateCookie(c) => c.wf(),
            _ => true,
        }
    }

    /// The bytes that `serialize` writes.
    pub open spec fn spec_encode(self) -> Seq<u8> {
        match self {
            ChunkView::Data(d) => d.spec_encode(),
            ChunkView::Init(i) => i.spec_encode(),
            ChunkView::InitAck(i) => i.spec_encode(),
            ChunkView::SAck(s) => s.spec_encode(),
            ChunkView::HeartBeat(d) => seq![4u8, 0u8] + be16((4 + d.len()) as u16) + d + zeros(
                padding_for(4 + d.len()),
            ),
            ChunkView::HeartBeatAck(d) => seq![5u8, 0u8] + be16((4 + d.len()) as u16) + d + zeros(
                padding_for(4 + d.len()),
            ),
            ChunkView::Abort => header_only(6, 0),
            ChunkView::ShutDown(t) => seq![7u8, 0u8] + be16(8) + be32(t.0),
            ChunkView::ShutDownAck => header_only(8, 0),
            ChunkView::OpError => header_only(9, 0),
            ChunkView::StateCookie(c) => seq![10u8, 0u8] + be16(
                (4 + c.spec_encode().len()) as u16,
            ) + c.spec_encode() + zeros(padding_for(c.spec_encode().len())),
            ChunkView::StateCookieAck => header_only(11, 0),
            ChunkView::_ReservedECNE => header_only(12, 0),
            ChunkView::_ReservedCWR => header_only(13, 0),
            ChunkView::ShutDownComplete { reflected } => header_only(
                14,
                if reflected {
                    1
                } else {
                    0
                },
            ),
        }
    }
}

impl<FakeContent: FakeAddr> Chunk<FakeContent> {
    /// The sizes of the chunk fit the machine.
    pub open spec fn wf(&self) -> bool {
        self@.wf()
    }

    /// Whether the sizes of the chunk fit the machine: `wf`.
    pub fn fits(&self) -> (r: bool)
        ensures
            r == self.wf(),
    {
        let max = usize::MAX as u128;
        match self {
            Chunk::Data(d) => d.buf.len() as u128 + 32 <= max,
            Chunk::Init(i) => i.fits(),
            Chunk::InitAck(i) => i.fits(),
            Chunk::SAck(sack) => 16 + 4 * (sack.blocks.len() as u128) + 4 * (
            sack.duplicated_tsn.len() as u128) + 8 <= max,
            Chunk::HeartBeat(d) => d.len() as u128 + 12 <= max,
            Chunk::HeartBeatAck(d) => d.len() as u128 + 12 <= max,
            Chunk::StateCookie(c) => c.fits() && c.encoded_len() + 12 <= max,
            _ => true,
        }
    }

    /// Whether `data` starts with an INIT chunk.
    pub fn is_init(data: &[u8]) -> (r: bool)
        ensures
            r == (data@.len() >= 4 && data@[0] == CHUNK_INIT),
    {
        if data.len() < CHUNK_HEADER_SIZE {
            false
        } else {
            data[0] == CHUNK_INIT
        }
    }

    /// Whether `data` starts with an INIT ACK chunk.
    pub fn is_init_ack(data: &[u8]) -> (r: bool)
        ensures
            r == (data@.len() >= 4 && data@[0] == CHUNK_INIT_ACK),
    {
        if data.len() < CHUNK_HEADER_SIZE {
            false
        } else {
            data[0] == CHUNK_INIT_ACK
        }
    }

    /// Whether `data` starts with a COOKIE ECHO chunk.
    pub fn is_cookie_echo(data: &[u8]) -> (r: bool)
        ensures
            r == (data@.len() >= 4 && data@[0] == CHUNK_STATE_COOKIE),
    {
        if data.len() < CHUNK_HEADER_SIZE {
            false
        } else {
            data[0] == CHUNK_STATE_COOKIE
        }
    }

    /// Whether `data` starts with a COOKIE ACK chunk.
    pub fn is_cookie_ack(data: &[u8]) -> (r: bool)
        ensures
            r == (data@.len() >= 4 && data@[0] == CHUNK_STATE_COOKIE_ACK),
    {
        if data.len() < CHUNK_HEADER_SIZE {
            false
        } else {
            data[0] == CHUNK_STATE_COOKIE_ACK
        }
    }

    /// Reads the chunk at the start of `data`; returns how many bytes to skip to the next
    /// chunk and the chunk.
    pub fn parse(data: &[u8]) -> (r: (usize, Result<Self, ParseError>))
        ensures
            (r.0 as int, chunk_result_view(r.1)) == spec_parse_chunk::<FakeContent>(data@),
            data@.len() > 0 ==> 0 < r.0 <= data@.len(),
    {
        if data.len() < CHUNK_HEADER_SIZE {
            return (data.len(), Err(ParseError::Done));
        }
        let typ = data[0];
        let flags = data[1];
        let len16 = read_u16(data, 2);
        let len: usize = len16 as usize;
        if len > data.len() {
            return (data.len(), Err(ParseError::IllegalFormat));
        }
        if len < CHUNK_HEADER_SIZE {
            return (data.len(), Err(ParseError::IllegalFormat));
        }
        let value = vstd::slice::slice_subrange(data, CHUNK_HEADER_SIZE, len);
        assert(value@ =~= data@.subrange(4, len as int));
        assert(value@.subrange(0, value@.len() as int) =~= value@);
        let p = padded_len(len);
        let skip = if p <= data.len() {
            p
        } else {
            data.len()
        };
        if typ > CHUNK_SHUTDOWN_COMPLETE {
            return (skip, Err(parse_error(typ)));
        }
        let chunk = if typ == CHUNK_DATA {
            match DataChunk::parse(flags, value) {
                Some(d) => Chunk::Data(d),
                None => {
                    return (skip, Err(ParseError::IllegalFormat));
                },
            }
        } else if typ == CHUNK_INIT {
            match InitChunk::parse(value) {
                Some(i) => Chunk::Init(i),
                None => {
                    return (skip, Err(ParseError::IllegalFormat));
                },
            }
        } else if typ == CHUNK_INIT_ACK {
            match InitAck::parse(value) {
                Some(i) => Chunk::InitAck(i),
                None => {
                    return (skip, Err(ParseError::IllegalFormat));
                },
            }
        } else if typ == CHUNK_SACK {
            match SelectiveAck::parse(value) {
                Some(s) => Chunk::SAck(s),
                None => {
                    return (skip, Err(ParseError::IllegalFormat));
                },
            }
        } else if typ == CHUNK_HEARTBEAT {
            Chunk::HeartBeat(copy_range(value, 0, value.len()))
        } else if typ == CHUNK_HEARTBEAT_ACK {
            Chunk::HeartBeatAck(copy_range(value, 0, value.len()))
        } else if typ == CHUNK_ABORT {
            Chunk::Abort
        } else if typ == CHUNK_SHUTDOWN {
            if value.len() < 4 {
                return (skip, Err(ParseError::IllegalFormat));
            }
            Chunk::ShutDown(Tsn(read_u32(value, 0)))
        } else if typ == CHUNK_SHUTDOWN_ACK {
            Chunk::ShutDownAck
        } else if typ == CHUNK_OP_ERROR {
            Chunk::OpError
        } else if typ == CHUNK_STATE_COOKIE {
            Chunk::StateCookie(StateCookie::Opaque(copy_range(value, 0, value.len())))
        } else if typ == CHUNK_STATE_COOKIE_ACK {
            if value.len() != 0 {
                return (skip, Err(ParseError::IllegalFormat));
            }
            Chunk::StateCookieAck
        } else if typ == CHUNK_RESERVED_ECNE {
            Chunk::_ReservedECNE
        } else if typ == CHUNK_RESERVED_CWR {
            Chunk::_ReservedCWR
        } else {
            Chunk::ShutDownComplete { reflected: flags & 1 == 1 }
        };
        (skip, Ok(chunk))
    }

    /// The value of the length field.
    pub fn serialized_size(&self) -> (n: usize)
        requires
            self.wf(),
        ensures
            n == self@.spec_size(),
    {
        match self {
            Chunk::Data(data) => data.serialized_size(),
            Chunk::StateCookieAck => CHUNK_HEADER_SIZE,
            Chunk::Init(init) => init.serialized_size(),
            Chunk::InitAck(ack) => ack.serialized_size(),
            Chunk::StateCookie(cookie) => CHUNK_HEADER_SIZE + cookie.serialized_size(),
            Chunk::SAck(sack) => sack.serialized_size(),
            Chunk::HeartBeat(data) => CHUNK_HEADER_SIZE + data.len(),
            Chunk::HeartBeatAck(data) => CHUNK_HEADER_SIZE + data.len(),
            Chunk::ShutDown(_) => 8,
            _ => CHUNK_HEADER_SIZE,
        }
    }

    /// The length of the chunk with its padding.
    pub fn padded_serialized_size(&self) -> (n: usize)
        requires
            self.wf(),
        ensures
            n == padded(self@.spec_size()),
    {
        padded_len(self.serialized_size())
    }

    /// Appends the chunk, padded to a multiple of four bytes.
    pub fn serialize(&self, buf: &mut Vec<u8>)
        requires
            self.wf(),
        ensures
            final(buf)@ == old(buf)@ + self@.spec_encode(),
    {
        match self {
            Chunk::Data(data) => data.serialize(buf),
            Chunk::Init(init) => init.serialize(buf),
            Chunk::InitAck(ack) => ack.serialize(buf),
            Chunk::SAck(sack) => sack.serialize(buf),
            Chunk::StateCookie(cookie) => {
                put_u8(buf, CHUNK_STATE_COOKIE);
                put_u8(buf, 0);
                let size = cookie.serialized_size();
                put_u16(buf, (CHUNK_HEADER_SIZE + size) as u16);
                cookie.serialize(buf);
                put_zeros(buf, padding_needed(size));
                assert(buf@ =~= old(buf)@ + self@.spec_encode());
            },
            Chunk::HeartBeat(data) => {
                put_u8(buf, CHUNK_HEARTBEAT);
                put_u8(buf, 0);
                let size = data.len() + CHUNK_HEADER_SIZE;
                put_u16(buf, size as u16);
                put_slice(buf, data.as_slice());
                put_zeros(buf, padding_needed(size));
                assert(buf@ =~= old(buf)@ + self@.spec_encode());
            },
            Chunk::HeartBeatAck(data) => {
                put_u8(buf, CHUNK_HEARTBEAT_ACK);
                put_u8(buf, 0);
                let size = data.len() + CHUNK_HEADER_SIZE;
                put_u16(buf, size as u16);
                put_slice(buf, data.as_slice());
                put_zeros(buf, padding_needed(size));
                assert(buf@ =~= old(buf)@ + self@.spec_encode());
            },
            Chunk::ShutDown(tsn) => {
                put_u8(buf, CHUNK_SHUTDOWN);
                put_u8(buf, 0);
                put_u16(buf, 8);
                put_u32(buf, tsn.0);
                assert(buf@ =~= old(buf)@ + self@.spec_encode());
            },
            Chunk::ShutDownComplete { reflected } => {
                put_header_only(buf, CHUNK_SHUTDOWN_COMPLETE, if *reflected { 1 } else { 0 });
            },
            Chunk::Abort => put_header_only(buf, CHUNK_ABORT, 0),
            Chunk::ShutDownAck => put_header_only(buf, CHUNK_SHUTDOWN_ACK, 0),
            Chunk::OpError => put_header_only(buf, CHUNK_OP_ERROR, 0),
            Chunk::StateCookieAck => put_header_only(buf, CHUNK_STATE_COOKIE_ACK, 0),
            Chunk::_ReservedECNE => put_header_only(buf, CHUNK_RESERVED_ECNE, 0),
            Chunk::_ReservedCWR => put_header_only(buf, CHUNK_RESERVED_CWR, 0),
        }
    }

    /// The bytes of a COOKIE ACK chunk.
    pub fn cookie_ack_bytes() -> (r: Vec<u8>)
        ensures
            r@ == header_only(CHUNK_STATE_COOKIE_ACK, 0),
    {
        let mut buf: Vec<u8> = Vec::new();
        put_header_only(&mut buf, CHUNK_STATE_COOKIE_ACK, 0);
        assert(buf@ =~= header_only(CHUNK_STATE_COOKIE_ACK, 0));
        buf
    }
}

impl<FakeContent: FakeAddr> ChunkView<FakeContent> {
    /// The chunks that read back from their encoding as themselves (up to
    /// [`ChunkView::as_read`]): data chunks with a payload, and chunks whose length fits the
    /// length field. INIT and INIT ACK chunks are covered by their own lemmas.
    pub open spec fn round_trips(self) -> bool {
        &&& self.spec_size() <= u16::MAX
        &&& match self {
            ChunkView::Data(d) => d.buf.len() > 0,
            ChunkView::Init(i) => i.round_trips(),
            ChunkView::InitAck(i) => i.round_trips(),
            _ => true,
        }
    }

    /// What reading a chunk back gives: cookies come back opaque.
    pub open spec fn as_read(self) -> ChunkView<FakeContent> {
        match self {
            ChunkView::Init(i) => ChunkView::Init(i.as_read()),
            ChunkView::InitAck(i) => ChunkView::InitAck(i.as_read()),
            ChunkView::StateCookie(c) => ChunkView::StateCookie(
                StateCookieView::Opaque(c.spec_encode()),
            ),
            _ => self,
        }
    }
}

/// Reading a header-only chunk back.
proof fn lemma_header_only_roundtrip<F: FakeAddr>(typ: u8, flags: u8)
    requires
        6 <= typ <= 14,
        typ != 7 && typ != 10,
    ensures
        ({
            let e = header_only(typ, flags);
            &&& e.len() == 4
            &&& u16_at(e, 2) == 4
            &&& spec_parse_chunk::<F>(e) == (4int, Ok::<ChunkView<F>, ParseError>(
                spec_chunk_of::<F>(typ, flags, seq![]).unwrap(),
            ))
            &&& spec_chunk_of::<F>(typ, flags, seq![]) is Some
        }),
{
    let e = header_only(typ, flags);
    lemma_be16(4);
    assert(e.subrange(2, 4) =~= be16(4));
    assert(e.subrange(4, 4) =~= seq![]);
    assert(padded(4) == 4);
}

/// A chunk written by `serialize` reads back: the whole encoding is one chunk padded to a
/// multiple of four, its length field holds its size, and reading it gives the chunk.
pub proof fn lemma_chunk_roundtrip<F: FakeAddr>(c: ChunkView<F>)
    requires
        c.round_trips(),
    ensures
        ({
            let e = c.spec_encode();
            &&& e.len() == padded(c.spec_size())
            &&& u16_at(e, 2) == c.spec_size()
            &&& spec_parse_chunk::<F>(e) == (padded(c.spec_size()) as int, Ok::<
                ChunkView<F>,
                ParseError,
            >(c.as_read()))
        }),
{
    let e = c.spec_encode();
    let size = c.spec_size();
    param::lemma_padding(size);
    lemma_be16(size as u16);
    match c {
        ChunkView::Data(d) => {
            data::lemma_data_roundtrip(d);
        },
        ChunkView::SAck(s) => {
            sack::lemma_sack_roundtrip(s);
        },
        ChunkView::Init(i) => lemma_init_chunk_roundtrip(i),
        ChunkView::InitAck(i) => lemma_init_ack_chunk_roundtrip(i),
        ChunkView::HeartBeat(d) => {
            assert(e.subrange(2, 4) =~= be16(size as u16));
            assert(e.subrange(4, size as int) =~= d);
        },
        ChunkView::HeartBeatAck(d) => {
            assert(e.subrange(2, 4) =~= be16(size as u16));
            assert(e.subrange(4, size as int) =~= d);
        },
        ChunkView::StateCookie(k) => {
            let ke = k.spec_encode();
            assert(padding_for(ke.len()) == padding_for(size));
            assert(e.subrange(2, 4) =~= be16(size as u16));
            assert(e.subrange(4, size as int) =~= ke);
        },
        ChunkView::ShutDown(t) => {
            lemma_be32(t.0);
            assert(e.subrange(2, 4) =~= be16(8));
            assert(e.subrange(4, 8) =~= be32(t.0));
            assert(e.subrange(4, 8).subrange(0, 4) =~= be32(t.0));
        },
        ChunkView::Abort => lemma_header_only_roundtrip::<F>(6, 0),
        ChunkView::ShutDownAck => lemma_header_only_roundtrip::<F>(8, 0),
        ChunkView::OpError => lemma_header_only_roundtrip::<F>(9, 0),
        ChunkView::StateCookieAck => lemma_header_only_roundtrip::<F>(11, 0),
        ChunkView::_ReservedECNE => lemma_header_only_roundtrip::<F>(12, 0),
        ChunkView::_ReservedCWR => lemma_header_only_roundtrip::<F>(13, 0),
        ChunkView::ShutDownComplete { reflected } => {
            let f: u8 = if reflected {
                1
            } else {
                0
            };
            lemma_header_only_roundtrip::<F>(14, f);
            assert(f & 1 == 1 <==> f == 1) by (bit_vector)
                requires
                    f == 0 || f == 1,
            ;
        },
    }
}

#[verifier::spinoff_prover]
#[verifier::rlimit(40)]
proof fn lemma_init_chunk_roundtrip<F: FakeAddr>(i: InitChunkView<F>)
    requires
        ChunkView::Init(i).round_trips(),
    ensures
        ({
            let c = ChunkView::Init(i);
            let e = c.spec_encode();
            &&& e.len() == padded(c.spec_size())
            &&& u16_at(e, 2) == c.spec_size()
            &&& spec_parse_chunk::<F>(e) == (padded(c.spec_size()) as int, Ok::<
                ChunkView<F>,
                ParseError,
            >(c.as_read()))
        }),
{
    let c = ChunkView::Init(i);
    let e = c.spec_encode();
    let size = c.spec_size();
    param::lemma_padding(size);
    lemma_be16(size as u16);
    init::lemma_init_roundtrip(i);
    let v = init::init_fields_encoding(
        i.initiate_tag,
        i.a_rwnd,
        i.outbound_streams,
        i.inbound_streams,
        i.initial_tsn,
    ) + init::alias_params_encoding(i.aliases) + init::optional_params_encoding::<F>(
        i.cookie_preservative,
        i.supported_addr_types,
    );
    assert(e =~= seq![1u8, 0u8] + be16(size as u16) + v + zeros(padding_for(size)));
    assert(e.subrange(2, 4) =~= be16(size as u16));
    assert(e.subrange(4, size as int) =~= v);
}

#[verifier::spinoff_prover]
#[verifier::rlimit(80)]
proof fn lemma_init_ack_chunk_roundtrip<F: FakeAddr>(i: InitAckView<F>)
    requires
        ChunkView::InitAck(i).round_trips(),
    ensures
        ({
            let c = ChunkView::InitAck(i);
            let e = c.spec_encode();
            &&& e.len() == padded(c.spec_size())
            &&& u16_at(e, 2) == c.spec_size()
            &&& spec_parse_chunk::<F>(e) == (padded(c.spec_size()) as int, Ok::<
                ChunkView<F>,
                ParseError,
            >(c.as_read()))
        }),
{
    let c = ChunkView::InitAck(i);
    let e = c.spec_encode();
    let size = c.spec_size();
    param::lemma_padding(size);
    lemma_be16(size as u16);
    init::lemma_init_ack_roundtrip(i);
    let v = init::init_fields_encoding(
        i.initiate_tag,
        i.a_rwnd,
        i.outbound_streams,
        i.inbound_streams,
        i.initial_tsn,
    ) + i.cookie.param_encoding() + init::alias_params_encoding(i.aliases)
        + init::unrecognized_encoding(i.unrecognized) + init::optional_params_encoding::<F>(
        i.cookie_preservative,
        i.supported_addr_types,
    );
    assert(e =~= seq![2u8, 0u8] + be16(size as u16) + v + zeros(padding_for(size)));
    assert(e.subrange(2, 4) =~= be16(size as u16));
    assert(e.subrange(4, size as int) =~= v);
    assert(spec_chunk_of::<F>(2, 0, v) == Some(ChunkView::InitAck(i.as_read())));
}

/// Appends a chunk that has only its header.
fn put_header_only(buf: &mut Vec<u8>, typ: u8, flags: u8)
    ensures
        final(buf)@ == old(buf)@ + header_only(typ, flags),
{
    put_u8(buf, typ);
    put_u8(buf, flags);
    put_u16(buf, 4);
    assert(buf@ =~= old(buf)@ + header_only(typ, flags));
}

/// The error for a chunk of unknown type, from what its two highest bits ask.
fn parse_error(typ: u8) -> (r: ParseError)
    ensures
        r == spec_chunk_error(typ),
{
    let hi = typ / 64;
    if hi == 0 {
        ParseError::Unrecognized { stop: true, report: false }
    } else if hi == 1 {
        ParseError::Unrecognized { stop: true, report: true }
    } else if hi == 2 {
        ParseError::Unrecognized { stop: false, report: false }
    } else {
        ParseError::Unrecognized { stop: false, report: true }
    }
}

/// What follows a chunk does not change how the chunk reads.
pub proof fn lemma_parse_chunk_extend<F: FakeAddr>(e: Seq<u8>, rest: Seq<u8>)
    requires
        e.len() >= 4,
        4 <= u16_at(e, 2) <= e.len(),
        padded(u16_at(e, 2) as nat) <= e.len(),
    ensures
        spec_parse_chunk::<F>(e + rest) == spec_parse_chunk::<F>(e),
{
    let d = e + rest;
    let len = u16_at(e, 2) as int;
    assert(d.subrange(2, 4) =~= e.subrange(2, 4));
    assert(d.subrange(4, len) =~= e.subrange(4, len));
    assert(d[0] == e[0] && d[1] == e[1]);
}

} // verus!
