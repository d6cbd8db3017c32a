//! Transport addresses of the peers of an association.
use vstd::prelude::*;

use crate::packet::ParseError;
use crate::wire::{
    be128, be16, be32, be64, lemma_be128, lemma_be16, lemma_be32, lemma_be64, lemma_u128_at,
    lemma_u16_at, lemma_u32_at, lemma_u64_at, put_u128, put_u16, put_u32, put_u64, put_u8,
    read_u128, read_u16, read_u32, read_u64, u128_at, u16_at, u32_at, u64_at,
};

verus! {

/// An address kind chosen by the user of the library, for transports that are not IP
/// (for example a channel in memory or a tunnel).
///
/// An implementation says how the address is written to and read from the wire.
pub trait FakeAddr: Sized + Copy + core::fmt::Debug + Eq + core::hash::Hash {
    /// The bytes that `serialize` writes for this address.
    spec fn spec_encode(&self) -> Seq<u8>;

    /// What `parse` reads from the start of `buf`: the address and how many bytes it took.
    spec fn spec_decode(buf: Seq<u8>) -> Option<(Self, nat)>;

    /// Reading back what was written gives the address, whatever follows it.
    proof fn lemma_decode_encode(a: Self, rest: Seq<u8>)
        ensures
            Self::spec_decode(a.spec_encode() + rest) == Some((a, a.spec_encode().len())),
    ;

    /// A read never takes more bytes than there are.
    proof fn lemma_decode_len(buf: Seq<u8>)
        ensures
            Self::spec_decode(buf) matches Some((_, n)) ==> n <= buf.len(),
    ;

    /// Reads an address from the start of `buf`, returning it and the number of bytes read.
    fn parse(buf: &[u8]) -> (r: Result<(Self, usize), ParseError>)
        ensures
            match r {
                Ok((a, n)) => Self::spec_decode(buf@) == Some((a, n as nat)),
                Err(e) => Self::spec_decode(buf@) is None && e == ParseError::IllegalFormat,
            },
    ;

    /// Appends the encoding of the address.
    fn serialize(&self, buf: &mut Vec<u8>)
        ensures
            final(buf)@ == old(buf)@ + self.spec_encode(),
    ;

    /// The length of the encoding.
    fn serialized_size(&self) -> (n: usize)
        ensures
            n == self.spec_encode().len(),
    ;

    /// Whether the two addresses are the same.
    fn same_as(&self, other: &Self) -> (b: bool)
        ensures
            b == (*self == *other),
    ;
}

/// A `u64` as an address: its eight bytes in network order.
impl FakeAddr for u64 {
    open spec fn spec_encode(&self) -> Seq<u8> {
        be64(*self)
    }

    open spec fn spec_decode(buf: Seq<u8>) -> Option<(u64, nat)> {
        if buf.len() < 8 {
            None
        } else {
            Some((u64_at(buf, 0), 8))
        }
    }

    proof fn lemma_decode_encode(a: u64, rest: Seq<u8>) {
        lemma_u64_at(seq![], a, rest);
        lemma_be64(a);
        assert(seq![] + be64(a) + rest =~= be64(a) + rest);
    }

    proof fn lemma_decode_len(buf: Seq<u8>) {
    }

    fn parse(buf: &[u8]) -> (r: Result<(u64, usize), ParseError>) {
        if buf.len() < 8 {
            return Err(ParseError::IllegalFormat);
        }
        Ok((read_u64(buf, 0), 8))
    }

    fn serialize(&self, buf: &mut Vec<u8>) {
        put_u64(buf, *self);
    }

    fn serialized_size(&self) -> (n: usize) {
        proof {
            lemma_be64(*self);
        }
        8
    }

    fn same_as(&self, other: &Self) -> (b: bool) {
        *self == *other
    }
}

/// Where a peer can be reached: an IPv4 address (as its 32-bit number), an IPv6 address
/// (as its 128-bit number) or an address of the user's own kind.
#[derive(Clone, Copy, PartialEq, Eq, Hash, Debug)]
pub enum TransportAddress<FakeContent: FakeAddr> {
    IpV4(u32),
    IpV6(u128),
    Fake(FakeContent),
}

impl<FakeContent: FakeAddr> TransportAddress<FakeContent> {
    /// Whether the two addresses are the same.
    pub fn same_as(&self, other: &Self) -> (b: bool)
        ensures
            b == (*self == *other),
    {
        match (self, other) {
            (TransportAddress::IpV4(a), TransportAddress::IpV4(b)) => *a == *b,
            (TransportAddress::IpV6(a), TransportAddress::IpV6(b)) => *a == *b,
            (TransportAddress::Fake(a), TransportAddress::Fake(b)) => a.same_as(b),
            _ => false,
        }
    }
}

/// A UDP or TCP socket address as plain numbers, as an address of the user's own kind: for
/// running the protocol over a socket, where the peer's socket address is its address.
#[derive(Clone, Copy, PartialEq, Eq, Structural, Hash, Debug)]
pub enum SocketAddress {
    V4 { ip: u32, port: u16 },
    V6 { ip: u128, port: u16, flowinfo: u32, scope_id: u32 },
}

/// A socket address is written as a zero, the IPv4 address and the port, or as a one, the
/// IPv6 address, the port, the flow information and the scope.
impl FakeAddr for SocketAddress {
    open spec fn spec_encode(&self) -> Seq<u8> {
        match *self {
            SocketAddress::V4 { ip, port } => seq![0u8] + be32(ip) + be16(port),
            SocketAddress::V6 { ip, port, flowinfo, scope_id } => seq![1u8] + be128(ip) + be16(
                port,
            ) + be32(flowinfo) + be32(scope_id),
        }
    }

    open spec fn spec_decode(buf: Seq<u8>) -> Option<(SocketAddress, nat)> {
        if buf.len() < 1 {
            None
        } else if buf[0] == 0 {
            if buf.len() < 7 {
                None
            } else {
                Some((SocketAddress::V4 { ip: u32_at(buf, 1), port: u16_at(buf, 5) }, 7))
            }
        } else if buf[0] == 1 {
            if buf.len() < 27 {
                None
            } else {
                Some(
                    (
                        SocketAddress::V6 {
                            ip: u128_at(buf, 1),
                            port: u16_at(buf, 17),
                            flowinfo: u32_at(buf, 19),
                            scope_id: u32_at(buf, 23),
                        },
                        27,
                    ),
                )
            }
        } else {
            None
        }
    }

    proof fn lemma_decode_encode(a: SocketAddress, rest: Seq<u8>) {
        let d = a.spec_encode() + rest;
        match a {
            SocketAddress::V4 { ip, port } => {
                lemma_be32(ip);
                lemma_be16(port);
                assert(d =~= seq![0u8] + be32(ip) + (be16(port) + rest));
                lemma_u32_at(seq![0u8], ip, be16(port) + rest);
                assert(d =~= (seq![0u8] + be32(ip)) + be16(port) + rest);
                lemma_u16_at(seq![0u8] + be32(ip), port, rest);
            },
            SocketAddress::V6 { ip, port, flowinfo, scope_id } => {
                lemma_be128(ip);
                lemma_be16(port);
                lemma_be32(flowinfo);
                lemma_be32(scope_id);
                let h1 = seq![0x1u8];
                let t1 = be16(port) + be32(flowinfo) + be32(scope_id) + rest;
                assert(d =~= h1 + be128(ip) + t1);
                lemma_u128_at(h1, ip, t1);
                let h2 = h1 + be128(ip);
                let t2 = be32(flowinfo) + be32(scope_id) + rest;
                assert(d =~= h2 + be16(port) + t2);
                lemma_u16_at(h2, port, t2);
                let h3 = h2 + be16(port);
                let t3 = be32(scope_id) + rest;
                assert(d =~= h3 + be32(flowinfo) + t3);
                lemma_u32_at(h3, flowinfo, t3);
                let h4 = h3 + be32(flowinfo);
                assert(d =~= h4 + be32(scope_id) + rest);
                lemma_u32_at(h4, scope_id, rest);
            },
        }
    }

    proof fn lemma_decode_len(buf: Seq<u8>) {
    }

    fn parse(buf: &[u8]) -> (r: Result<(SocketAddress, usize), ParseError>) {
        if buf.len() < 1 {
            return Err(ParseError::IllegalFormat);
        }
        if buf[0] == 0 {
            if buf.len() < 7 {
                return Err(ParseError::IllegalFormat);
            }
            Ok((SocketAddress::V4 { ip: read_u32(buf, 1), port: read_u16(buf, 5) }, 7))
        } else if buf[0] == 1 {
            if buf.len() < 27 {
                return Err(ParseError::IllegalFormat);
            }
            Ok(
                (
                    SocketAddress::V6 {
                        ip: read_u128(buf, 1),
                        port: read_u16(buf, 17),
                        flowinfo: read_u32(buf, 19),
                        scope_id: read_u32(buf, 23),
                    },
                    27,
                ),
            )
        } else {
            Err(ParseError::IllegalFormat)
        }
    }

    fn serialize(&self, buf: &mut Vec<u8>) {
        match *self {
            SocketAddress::V4 { ip, port } => {
                put_u8(buf, 0);
                put_u32(buf, ip);
                put_u16(buf, port);
            },
            SocketAddress::V6 { ip, port, flowinfo, scope_id } => {
                put_u8(buf, 1);
                put_u128(buf, ip);
                put_u16(buf, port);
                put_u32(buf, flowinfo);
                put_u32(buf, scope_id);
            },
        }
        assert(buf@ =~= old(buf)@ + self.spec_encode());
    }

    fn serialized_size(&self) -> (n: usize) {
        match *self {
            SocketAddress::V4 { ip, port } => {
                proof {
                    lemma_be32(ip);
                    lemma_be16(port);
                }
                1 + 4 + 2
            },
            SocketAddress::V6 { ip, port, flowinfo, scope_id } => {
                proof {
                    lemma_be128(ip);
                    lemma_be16(port);
                    lemma_be32(flowinfo);
                    lemma_be32(scope_id);
                }
                1 + 16 + 2 + 4 + 4
            },
        }
    }

    fn same_as(&self, other: &Self) -> (b: bool) {
        *self == *other
    }
}

} // verus!
