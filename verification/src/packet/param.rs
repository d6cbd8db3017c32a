//! Parameters: the type-length-value fields of INIT and INIT ACK chunks.
use vstd::prelude::*;

use crate::addr::FakeAddr;
use crate::packet::cookie::{StateCookie, StateCookieView};
use crate::packet::{SupportedAddrTypes, UnrecognizedParam, UnrecognizedParamView};
use crate::wire::{
    be128, be16, be32, copy_range, lemma_be128, lemma_be16, lemma_be32, lemma_u128_at,
    lemma_u16_at, lemma_u32_at, put_u128, put_u16, put_u32, put_zeros, read_u128, read_u16,
    read_u32, u128_at, u16_at, u32_at, zeros,
};

verus! {

pub const PARAM_IPV4_ADDR: u16 = 5;

pub const PARAM_IPV6_ADDR: u16 = 6;

pub const PARAM_STATE_COOKIE: u16 = 7;

pub const PARAM_UNRECOGNIZED: u16 = 8;

pub const PARAM_COOKIE_PRESERVATIVE: u16 = 9;

pub const PARAM_HOSTNAME_DEPRECATED: u16 = 11;

pub const PARAM_SUPPORTED_ADDRESSES: u16 = 12;

pub const PARAM_HEADER_SIZE: usize = 4;

/// The number of zero bytes that pad `n` bytes to a multiple of four.
pub open spec fn padding_for(n: nat) -> nat {
    ((4 - (n % 4) as int) % 4) as nat
}

/// `n` rounded up to a multiple of four.
pub open spec fn padded(n: nat) -> nat {
    ((n + 3) / 4 * 4) as nat
}

pub proof fn lemma_padding(n: nat)
    ensures
        padded(n) == n + padding_for(n),
        padding_for(n) < 4,
        padded(n) % 4 == 0,
        n <= padded(n),
{
    let q = n / 4;
    let r = n % 4;
    assert(n == 4 * q + r);
    if r == 0 {
        assert((n + 3) / 4 == q);
    } else {
        assert((n + 3) / 4 == q + 1);
    }
}

/// The number of zero bytes needed to pad `size` bytes to a multiple of four.
pub fn padding_needed(size: usize) -> (r: usize)
    ensures
        r == padding_for(size as nat),
{
    (4 - (size % 4)) % 4
}

/// `size` rounded up to a multiple of four.
pub fn padded_len(size: usize) -> (r: usize)
    requires
        size + 3 <= usize::MAX,
    ensures
        r == padded(size as nat),
{
    ((size + 3) / 4) * 4
}

/// A parameter of an INIT or INIT ACK chunk. A cookie preservative is a number of
/// milliseconds; addresses are their numbers.
#[derive(Debug, PartialEq, Eq)]
pub enum Param<FakeContent: FakeAddr> {
    Unrecognized(UnrecognizedParam),
    StateCookie(StateCookie<FakeContent>),
    CookiePreservative(u64),
    IpV4Addr(u32),
    IpV6Addr(u128),
    HostNameDeprecated,
    SupportedAddrTypes(SupportedAddrTypes),
}

/// The value of a [`Param`].
pub enum ParamView<FakeContent: FakeAddr> {
    Unrecognized(UnrecognizedParamView),
    StateCookie(StateCookieView<FakeContent>),
    CookiePreservative(u64),
    IpV4Addr(u32),
    IpV6Addr(u128),
    HostNameDeprecated,
    SupportedAddrTypes(SupportedAddrTypes),
}

impl<FakeContent: FakeAddr> View for Param<FakeContent> {
    type V = ParamView<FakeContent>;

    open spec fn view(&self) -> ParamView<FakeContent> {
        match self {
            Param::Unrecognized(p) => ParamView::Unrecognized(p@),
            Param::StateCookie(c) => ParamView::StateCookie(c@),
            Param::CookiePreservative(d) => ParamView::CookiePreservative(*d),
            Param::IpV4Addr(a) => ParamView::IpV4Addr(*a),
            Param::IpV6Addr(a) => ParamView::IpV6Addr(*a),
            Param::HostNameDeprecated => ParamView::HostNameDeprecated,
            Param::SupportedAddrTypes(s) => ParamView::SupportedAddrTypes(*s),
        }
    }
}

/// Why a parameter could not be read. An unrecognized parameter carries its type and the
/// bytes from its start to the end of the input.
#[derive(Debug, PartialEq, Eq)]
pub enum ParseError {
    Unrecognized { report: bool, stop: bool, typ: u16, data: Vec<u8> },
    IllegalFormat,
    Done,
}

/// The value of a [`ParseError`].
pub enum ParseErrorView {
    Unrecognized { report: bool, stop: bool, typ: u16, data: Seq<u8> },
    IllegalFormat,
    Done,
}

impl View for ParseError {
    type V = ParseErrorView;

    open spec fn view(&self) -> ParseErrorView {
        match self {
            ParseError::Unrecognized { report, stop, typ, data } => ParseErrorView::Unrecognized {
                report: *report,
                stop: *stop,
                typ: *typ,
                data: data@,
            },
            ParseError::IllegalFormat => ParseErrorView::IllegalFormat,
            ParseError::Done => ParseErrorView::Done,
        }
    }
}

/// The value of a parse result.
pub open spec fn param_result_view<F: FakeAddr>(r: Result<Param<F>, ParseError>) -> Result<
    ParamView<F>,
    ParseErrorView,
> {
    match r {
        Ok(p) => Ok(p@),
        Err(e) => Err(e@),
    }
}

/// What the two highest bits of an unknown parameter type ask: 00 stop, 01 stop and report,
/// 10 skip, 11 skip and report.
pub open spec fn spec_param_error(typ: u16, data: Seq<u8>) -> ParseErrorView {
    let hi = typ / 16384;
    ParseErrorView::Unrecognized { report: hi == 1 || hi == 3, stop: hi == 0 || hi == 1, typ, data }
}

/// Whether a supported-address-types value lists the address type `t` among its 16-bit
/// entries.
pub open spec fn lists_type(value: Seq<u8>, t: u16) -> bool {
    exists|i: int| 0 <= i && 2 * i + 2 <= value.len() && #[trigger] u16_at(value, 2 * i) == t
}

/// What `Param::parse` returns for `d`: the number of bytes to skip and the parameter or
/// the error.
pub open spec fn spec_parse_param<F: FakeAddr>(d: Seq<u8>) -> (int, Result<
    ParamView<F>,
    ParseErrorView,
>) {
    if d.len() < 4 {
        (d.len() as int, Err(ParseErrorView::Done))
    } else {
        let typ = u16_at(d, 0);
        let len = u16_at(d, 2) as int;
        if len > d.len() || len < 4 {
            (d.len() as int, Err(ParseErrorView::IllegalFormat))
        } else {
            let value = d.subrange(4, len);
            let actual = if padded(len as nat) <= d.len() {
                padded(len as nat) as int
            } else {
                d.len() as int
            };
            if typ == 5 {
                if value.len() != 4 {
                    (actual, Err(ParseErrorView::IllegalFormat))
                } else {
                    (actual, Ok(ParamView::IpV4Addr(u32_at(value, 0))))
                }
            } else if typ == 6 {
                if value.len() != 16 {
                    (actual, Err(ParseErrorView::IllegalFormat))
                } else {
                    (actual, Ok(ParamView::IpV6Addr(u128_at(value, 0))))
                }
            } else if typ == 9 {
                if value.len() != 4 {
                    (actual, Err(ParseErrorView::IllegalFormat))
                } else {
                    (actual, Ok(ParamView::CookiePreservative(u32_at(value, 0) as u64)))
                }
            } else if typ == 11 {
                (actual, Ok(ParamView::HostNameDeprecated))
            } else if typ == 12 {
                (
                    actual,
                    Ok(
                        ParamView::SupportedAddrTypes(
                            SupportedAddrTypes {
                                ipv4: lists_type(value, 5),
                                ipv6: lists_type(value, 6),
                            },
                        ),
                    ),
                )
            } else if typ == 7 {
                (actual, Ok(ParamView::StateCookie(StateCookieView::Opaque(value))))
            } else if typ == 8 {
                if value.len() < 4 {
                    (actual, Err(ParseErrorView::IllegalFormat))
                } else {
                    let size = u16_at(value, 2) as nat;
                    if size != value.len() && padded(size) != value.len() {
                        (actual, Err(ParseErrorView::IllegalFormat))
                    } else {
                        (
                            actual,
                            Ok(
                                ParamView::Unrecognized(
                                    UnrecognizedParamView {
                                        typ: u16_at(value, 0),
                                        data: value.skip(4),
                                    },
                                ),
                            ),
                        )
                    }
                }
            } else {
                (actual, Err(spec_param_error(typ, d)))
            }
        }
    }
}

impl SupportedAddrTypes {
    /// The length of the parameter: header and one entry per supported type.
    pub open spec fn param_size(self) -> nat {
        4 + (if self.ipv4 {
            2nat
        } else {
            0nat
        }) + (if self.ipv6 {
            2nat
        } else {
            0nat
        })
    }
}

impl UnrecognizedParamView {
    /// The encoding of a report of an unrecognized parameter: a parameter of type 8 that
    /// holds the parameter.
    pub open spec fn param_encoding(self) -> Seq<u8> {
        be16(8) + be16((8 + self.data.len()) as u16) + be16(self.typ) + be16(
            (4 + self.data.len()) as u16,
        ) + self.data + zeros(padding_for(self.data.len()))
    }
}

impl<FakeContent: FakeAddr> ParamView<FakeContent> {
    /// The value of the length field.
    pub open spec fn spec_size(self) -> nat {
        match self {
            ParamView::IpV4Addr(_) => 8,
            ParamView::IpV6Addr(_) => 20,
            ParamView::CookiePreservative(_) => 8,
            ParamView::HostNameDeprecated => 0,
            ParamView::SupportedAddrTypes(s) => s.param_size(),
            ParamView::StateCookie(c) => 4 + c.spec_encode().len(),
            ParamView::Unrecognized(p) => 8 + p.data.len(),
        }
    }

    /// The bytes that `serialize` writes.
    pub open spec fn spec_encode(self) -> Seq<u8> {
        match self {
            ParamView::IpV4Addr(a) => be16(5) + be16(8) + be32(a),
            ParamView::IpV6Addr(a) => be16(6) + be16(20) + be128(a),
            ParamView::CookiePreservative(ms) => be16(9) + be16(8) + be32(ms as u32),
            ParamView::HostNameDeprecated => seq![],
            ParamView::SupportedAddrTypes(s) => be16(12) + be16(s.param_size() as u16) + (if s.ipv4 {
                be16(5)
            } else {
                seq![]
            }) + (if s.ipv6 {
                be16(6)
            } else {
                seq![]
            }) + zeros(padding_for(s.param_size())),
            ParamView::StateCookie(c) => c.param_encoding(),
            ParamView::Unrecognized(p) => p.param_encoding(),
        }
    }

    /// What reading the parameter back gives: our own cookies come back opaque.
    pub open spec fn as_read(self) -> ParamView<FakeContent> {
        match self {
            ParamView::StateCookie(c) => ParamView::StateCookie(
                StateCookieView::Opaque(c.spec_encode()),
            ),
            _ => self,
        }
    }

    /// The parameters that read back: all but the deprecated host name, with lengths that
    /// fit the length field and preservatives that fit 32 bits.
    pub open spec fn round_trips(self) -> bool {
        match self {
            ParamView::HostNameDeprecated => false,
            ParamView::CookiePreservative(ms) => ms <= u32::MAX,
            ParamView::StateCookie(c) => 4 + c.spec_encode().len() <= u16::MAX,
            ParamView::Unrecognized(p) => 8 + p.data.len() <= u16::MAX,
            _ => true,
        }
    }
}

/// A parameter written by `serialize` reads back, whatever follows it: the encoding is the
/// parameter padded to a multiple of four, its length field holds its size, and reading it
/// gives the parameter (our own cookies come back opaque).
pub proof fn lemma_param_roundtrip<F: FakeAddr>(p: ParamView<F>, rest: Seq<u8>)
    requires
        p.round_trips(),
    ensures
        ({
            let e = p.spec_encode();
            &&& e.len() == padded(p.spec_size())
            &&& u16_at(e, 2) == p.spec_size()
            &&& spec_parse_param::<F>(e + rest) == (padded(p.spec_size()) as int, Ok::<
                ParamView<F>,
                ParseErrorView,
            >(p.as_read()))
        }),
{
    let e = p.spec_encode();
    let d = e + rest;
    let size = p.spec_size();
    lemma_padding(size);
    match p {
        ParamView::IpV4Addr(a) => {
            lemma_be16(5);
            lemma_be16(8);
            lemma_be32(a);
            assert(d.subrange(0, 2) =~= be16(5));
            assert(e.subrange(2, 4) =~= be16(8));
            assert(d.subrange(2, 4) =~= be16(8));
            assert(d.subrange(4, 8) =~= be32(a));
            assert(d.subrange(4, 8).subrange(0, 4) =~= be32(a));
        },
        ParamView::IpV6Addr(a) => {
            lemma_be16(6);
            lemma_be16(20);
            lemma_be128(a);
            assert(d.subrange(0, 2) =~= be16(6));
            assert(e.subrange(2, 4) =~= be16(20));
            assert(d.subrange(2, 4) =~= be16(20));
            assert(d.subrange(4, 20) =~= be128(a));
            assert(d.subrange(4, 20).subrange(0, 16) =~= be128(a));
        },
        ParamView::CookiePreservative(ms) => {
            lemma_be16(9);
            lemma_be16(8);
            lemma_be32(ms as u32);
            assert(d.subrange(0, 2) =~= be16(9));
            assert(e.subrange(2, 4) =~= be16(8));
            assert(d.subrange(2, 4) =~= be16(8));
            assert(d.subrange(4, 8).subrange(0, 4) =~= be32(ms as u32));
        },
        ParamView::SupportedAddrTypes(st) => {
            lemma_be16(12);
            lemma_be16(size as u16);
            lemma_be16(5);
            lemma_be16(6);
            assert(d.subrange(0, 2) =~= be16(12));
            assert(e.subrange(2, 4) =~= be16(size as u16));
            assert(d.subrange(2, 4) =~= be16(size as u16));
            let value = d.subrange(4, size as int);
            if st.ipv4 && st.ipv6 {
                assert(value =~= be16(5) + be16(6));
                assert(value.subrange(0, 2) =~= be16(5));
                assert(value.subrange(2, 4) =~= be16(6));
                assert(u16_at(value, 2 * 0int) == 5);
                assert(u16_at(value, 2 * 1int) == 6);
            } else if st.ipv4 {
                assert(value =~= be16(5));
                assert(value.subrange(0, 2) =~= be16(5));
                assert(u16_at(value, 2 * 0int) == 5);
                assert(!lists_type(value, 6)) by {
                    assert forall|i: int| 0 <= i && 2 * i + 2 <= value.len() implies #[trigger] u16_at(
                        value,
                        2 * i,
                    ) != 6 by {
                        assert(i == 0);
                    }
                }
            } else if st.ipv6 {
                assert(value =~= be16(6));
                assert(value.subrange(0, 2) =~= be16(6));
                assert(u16_at(value, 2 * 0int) == 6);
                assert(!lists_type(value, 5)) by {
                    assert forall|i: int| 0 <= i && 2 * i + 2 <= value.len() implies #[trigger] u16_at(
                        value,
                        2 * i,
                    ) != 5 by {
                        assert(i == 0);
                    }
                }
            } else {
                assert(value.len() == 0);
            }
        },
        ParamView::StateCookie(c) => {
            lemma_be16(7);
            lemma_be16(size as u16);
            assert(d.subrange(0, 2) =~= be16(7));
            assert(e.subrange(2, 4) =~= be16(size as u16));
            assert(d.subrange(2, 4) =~= be16(size as u16));
            assert(d.subrange(4, size as int) =~= c.spec_encode());
        },
        ParamView::Unrecognized(u) => {
            let n = u.data.len();
            lemma_be16(8);
            lemma_be16(size as u16);
            lemma_be16(u.typ);
            lemma_be16((4 + n) as u16);
            assert(padding_for(n) == padding_for(size));
            assert(d.subrange(0, 2) =~= be16(8));
            assert(e.subrange(2, 4) =~= be16(size as u16));
            assert(d.subrange(2, 4) =~= be16(size as u16));
            let value = d.subrange(4, size as int);
            assert(value.subrange(0, 2) =~= be16(u.typ));
            assert(value.subrange(2, 4) =~= be16((4 + n) as u16));
            assert(value.skip(4) =~= u.data);
        },
        ParamView::HostNameDeprecated => {},
    }
}

impl<FakeContent: FakeAddr> Param<FakeContent> {
    pub open spec fn wf(&self) -> bool {
        match self {
            Param::StateCookie(c) => c.wf(),
            Param::Unrecognized(p) => p.data@.len() + 16 <= usize::MAX,
            _ => true,
        }
    }

    /// Reads a parameter at the start of `data`; returns the number of bytes it takes with
    /// its padding (or all of `data` where it is cut short) and the parameter.
    pub fn parse(data: &[u8]) -> (r: (usize, Result<Self, ParseError>))
        ensures
            (r.0 as int, param_result_view(r.1)) == spec_parse_param::<FakeContent>(data@),
            data@.len() > 0 ==> 0 < r.0 <= data@.len(),
            r.1 matches Ok(p) ==> p.wf(),
    {
        if data.len() < PARAM_HEADER_SIZE {
            return (data.len(), Err(ParseError::Done));
        }
        let typ = read_u16(data, 0);
        let len16 = read_u16(data, 2);
        let len: usize = len16 as usize;
        if len > data.len() {
            return (data.len(), Err(ParseError::IllegalFormat));
        }
        if len < PARAM_HEADER_SIZE {
            return (data.len(), Err(ParseError::IllegalFormat));
        }
        let value = vstd::slice::slice_subrange(data, PARAM_HEADER_SIZE, len);
        let ghost v = data@.subrange(4, len as int);
        assert(value@ =~= v);
        let p = padded_len(len);
        let actual_len = if p <= data.len() {
            p
        } else {
            data.len()
        };
        if typ == PARAM_IPV4_ADDR {
            if value.len() != 4 {
                return (actual_len, Err(ParseError::IllegalFormat));
            }
            (actual_len, Ok(Param::IpV4Addr(read_u32(value, 0))))
        } else if typ == PARAM_IPV6_ADDR {
            if value.len() != 16 {
                return (actual_len, Err(ParseError::IllegalFormat));
            }
            (actual_len, Ok(Param::IpV6Addr(read_u128(value, 0))))
        } else if typ == PARAM_COOKIE_PRESERVATIVE {
            if value.len() != 4 {
                return (actual_len, Err(ParseError::IllegalFormat));
            }
            let ms = read_u32(value, 0);
            (actual_len, Ok(Param::CookiePreservative(ms as u64)))
        } else if typ == PARAM_HOSTNAME_DEPRECATED {
            (actual_len, Ok(Param::HostNameDeprecated))
        } else if typ == PARAM_SUPPORTED_ADDRESSES {
            let support = parse_supported(value);
            (actual_len, Ok(Param::SupportedAddrTypes(support)))
        } else if typ == PARAM_STATE_COOKIE {
            let cookie = copy_range(value, 0, value.len());
            assert(cookie@ =~= v);
            (actual_len, Ok(Param::StateCookie(StateCookie::Opaque(cookie))))
        } else if typ == PARAM_UNRECOGNIZED {
            if value.len() < 4 {
                return (actual_len, Err(ParseError::IllegalFormat));
            }
            let inner_typ = read_u16(value, 0);
            let size16 = read_u16(value, 2);
            let size: usize = size16 as usize;
            if size != value.len() && padded_len(size) != value.len() {
                return (actual_len, Err(ParseError::IllegalFormat));
            }
            let inner = copy_range(value, 4, value.len());
            assert(inner@ =~= v.skip(4));
            (actual_len, Ok(Param::Unrecognized(UnrecognizedParam { typ: inner_typ, data: inner })))
        } else {
            let all = copy_range(data, 0, data.len());
            assert(all@ =~= data@);
            (actual_len, Err(parse_error(typ, all)))
        }
    }

    /// The value of the length field.
    pub fn serialized_size(&self) -> (n: usize)
        requires
            self.wf(),
        ensures
            n == self@.spec_size(),
    {
        match self {
            Param::IpV4Addr(_) => 8,
            Param::IpV6Addr(_) => 20,
            Param::CookiePreservative(_) => 8,
            Param::HostNameDeprecated => 0,
            Param::SupportedAddrTypes(support) => {
                let mut size = PARAM_HEADER_SIZE;
                if support.ipv4 {
                    size = size + 2;
                }
                if support.ipv6 {
                    size = size + 2;
                }
                size
            },
            Param::StateCookie(cookie) => PARAM_HEADER_SIZE + cookie.serialized_size(),
            Param::Unrecognized(p) => PARAM_HEADER_SIZE + PARAM_HEADER_SIZE + p.data.len(),
        }
    }

    /// Appends the parameter, padded to a multiple of four bytes.
    pub fn serialize(&self, buf: &mut Vec<u8>)
        requires
            self.wf(),
        ensures
            final(buf)@ == old(buf)@ + self@.spec_encode(),
    {
        match self {
            Param::IpV4Addr(addr) => {
                put_u16(buf, PARAM_IPV4_ADDR);
                put_u16(buf, 8);
                put_u32(buf, *addr);
                assert(buf@ =~= old(buf)@ + self@.spec_encode());
            },
            Param::IpV6Addr(addr) => {
                put_u16(buf, PARAM_IPV6_ADDR);
                put_u16(buf, 20);
                put_u128(buf, *addr);
                assert(buf@ =~= old(buf)@ + self@.spec_encode());
            },
            Param::CookiePreservative(ms) => {
                put_u16(buf, PARAM_COOKIE_PRESERVATIVE);
                put_u16(buf, 8);
                put_u32(buf, *ms as u32);
                assert(buf@ =~= old(buf)@ + self@.spec_encode());
            },
            Param::HostNameDeprecated => {
                assert(buf@ =~= old(buf)@ + self@.spec_encode());
            },
            Param::SupportedAddrTypes(support) => {
                let size = self.serialized_size();
                put_u16(buf, PARAM_SUPPORTED_ADDRESSES);
                put_u16(buf, size as u16);
                let ghost head = buf@;
                if support.ipv4 {
                    put_u16(buf, PARAM_IPV4_ADDR);
                }
                let ghost mid = buf@;
                if support.ipv6 {
                    put_u16(buf, PARAM_IPV6_ADDR);
                }
                put_zeros(buf, padding_needed(size));
                assert(buf@ =~= old(buf)@ + self@.spec_encode());
            },
            Param::StateCookie(cookie) => cookie.serialize_as_param(buf),
            Param::Unrecognized(p) => p.serialize_as_param(buf),
        }
    }
}

/// Reads the list of supported address types.
fn parse_supported(value: &[u8]) -> (r: SupportedAddrTypes)
    ensures
        r == (SupportedAddrTypes { ipv4: lists_type(value@, 5), ipv6: lists_type(value@, 6) }),
{
    let mut support = SupportedAddrTypes { ipv4: false, ipv6: false };
    let mut pos: usize = 0;
    while value.len() - pos >= 2
        invariant
            pos <= value@.len(),
            pos % 2 == 0,
            support.ipv4 == exists|i: int|
                0 <= i && 2 * i + 2 <= pos && #[trigger] u16_at(value@, 2 * i) == 5,
            support.ipv6 == exists|i: int|
                0 <= i && 2 * i + 2 <= pos && #[trigger] u16_at(value@, 2 * i) == 6,
        decreases value@.len() - pos,
    {
        let t = read_u16(value, pos);
        let ghost k = pos as int / 2;
        assert(2 * k == pos);
        if t == PARAM_IPV4_ADDR {
            support.ipv4 = true;
        }
        if t == PARAM_IPV6_ADDR {
            support.ipv6 = true;
        }
        pos = pos + 2;
    }
    proof {
        assert forall|i: int|
            #![trigger u16_at(value@, 2 * i)]
            0 <= i && 2 * i + 2 <= value@.len() implies 2 * i + 2 <= pos by {}
    }
    support
}

/// The error for a parameter of unknown type `typ`, from what its two highest bits ask.
fn parse_error(typ: u16, data: Vec<u8>) -> (r: ParseError)
    ensures
        r@ == spec_param_error(typ, data@),
{
    let hi = typ >> 14;
    assert(hi == typ / 16384) by (bit_vector)
        requires
            hi == typ >> 14,
    ;
    let stop;
    let report;
    if hi == 0 {
        stop = true;
        report = false;
    } else if hi == 1 {
        stop = true;
        report = true;
    } else if hi == 2 {
        stop = false;
        report = false;
    } else {
        stop = false;
        report = true;
    }
    ParseError::Unrecognized { report, stop, typ, data }
}

impl UnrecognizedParam {
    /// Appends a report of this unrecognized parameter: a parameter of type 8 holding it.
    pub fn serialize_as_param(&self, buf: &mut Vec<u8>)
        requires
            self.data@.len() + 16 <= usize::MAX,
        ensures
            final(buf)@ == old(buf)@ + self@.param_encoding(),
    {
        put_u16(buf, PARAM_UNRECOGNIZED);
        put_u16(buf, (PARAM_HEADER_SIZE + PARAM_HEADER_SIZE + self.data.len()) as u16);
        put_u16(buf, self.typ);
        put_u16(buf, (PARAM_HEADER_SIZE + self.data.len()) as u16);
        crate::wire::put_slice(buf, self.data.as_slice());
        put_zeros(buf, padding_needed(self.data.len()));
        assert(buf@ =~= old(buf)@ + self@.param_encoding());
    }
}

} // verus!
