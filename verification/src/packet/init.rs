//! INIT and INIT ACK chunks, which open an association.
use vstd::prelude::*;

use crate::addr::{FakeAddr, TransportAddress};
use crate::packet::cookie::{no_fake, StateCookie, StateCookieView};
use crate::packet::param::{
    lemma_padding, lemma_param_roundtrip, padded, padded_len, padding_for, padding_needed, Param,
    ParamView, ParseError, ParseErrorView, spec_parse_param, PARAM_HEADER_SIZE,
};
use crate::packet::{SupportedAddrTypes, UnrecognizedParam, UnrecognizedParamView};
use crate::wire::{
    be16, be32, lemma_be16, lemma_be32, lemma_u16_at, lemma_u32_at, put_u16, put_u32, put_u8,
    put_zeros, read_u16, read_u32, u16_at, u32_at, zeros,
};

verus! {

/// An INIT chunk. Cookie preservatives are in milliseconds.
#[derive(Debug, PartialEq, Eq)]
pub struct InitChunk<FakeContent: FakeAddr> {
    pub initiate_tag: u32,
    pub a_rwnd: u32,
    pub outbound_streams: u16,
    pub inbound_streams: u16,
    pub initial_tsn: u32,
    pub unrecognized: Vec<UnrecognizedParam>,
    pub aliases: Vec<TransportAddress<FakeContent>>,
    pub cookie_preservative: Option<u64>,
    pub supported_addr_types: Option<SupportedAddrTypes>,
}

/// An INIT ACK chunk.
#[derive(Debug, PartialEq, Eq)]
pub struct InitAck<FakeContent: FakeAddr> {
    pub initiate_tag: u32,
    pub a_rwnd: u32,
    pub outbound_streams: u16,
    pub inbound_streams: u16,
    pub initial_tsn: u32,
    pub cookie: StateCookie<FakeContent>,
    pub unrecognized: Vec<UnrecognizedParam>,
    pub aliases: Vec<TransportAddress<FakeContent>>,
    pub cookie_preservative: Option<u64>,
    pub supported_addr_types: Option<SupportedAddrTypes>,
}

/// The value of an [`InitChunk`].
pub struct InitChunkView<FakeContent: FakeAddr> {
    pub initiate_tag: u32,
    pub a_rwnd: u32,
    pub outbound_streams: u16,
    pub inbound_streams: u16,
    pub initial_tsn: u32,
    pub unrecognized: Seq<UnrecognizedParamView>,
    pub aliases: Seq<TransportAddress<FakeContent>>,
    pub cookie_preservative: Option<u64>,
    pub supported_addr_types: Option<SupportedAddrTypes>,
}

/// The value of an [`InitAck`].
pub struct InitAckView<FakeContent: FakeAddr> {
    pub initiate_tag: u32,
    pub a_rwnd: u32,
    pub outbound_streams: u16,
    pub inbound_streams: u16,
    pub initial_tsn: u32,
    pub cookie: StateCookieView<FakeContent>,
    pub unrecognized: Seq<UnrecognizedParamView>,
    pub aliases: Seq<TransportAddress<FakeContent>>,
    pub cookie_preservative: Option<u64>,
    pub supported_addr_types: Option<SupportedAddrTypes>,
}

pub open spec fn unrecognized_view(v: Seq<UnrecognizedParam>) -> Seq<UnrecognizedParamView> {
    v.map_values(|p: UnrecognizedParam| p@)
}

impl<FakeContent: FakeAddr> View for InitChunk<FakeContent> {
    type V = InitChunkView<FakeContent>;

    open spec fn view(&self) -> InitChunkView<FakeContent> {
        InitChunkView {
            initiate_tag: self.initiate_tag,
            a_rwnd: self.a_rwnd,
            outbound_streams: self.outbound_streams,
            inbound_streams: self.inbound_streams,
            initial_tsn: self.initial_tsn,
            unrecognized: unrecognized_view(self.unrecognized@),
            aliases: self.aliases@,
            cookie_preservative: self.cookie_preservative,
            supported_addr_types: self.supported_addr_types,
        }
    }
}

impl<FakeContent: FakeAddr> View for InitAck<FakeContent> {
    type V = InitAckView<FakeContent>;

    open spec fn view(&self) -> InitAckView<FakeContent> {
        InitAckView {
            initiate_tag: self.initiate_tag,
            a_rwnd: self.a_rwnd,
            outbound_streams: self.outbound_streams,
            inbound_streams: self.inbound_streams,
            initial_tsn: self.initial_tsn,
            cookie: self.cookie@,
            unrecognized: unrecognized_view(self.unrecognized@),
            aliases: self.aliases@,
            cookie_preservative: self.cookie_preservative,
            supported_addr_types: self.supported_addr_types,
        }
    }
}

/// An INIT after reading one more parameter.
pub open spec fn init_apply<F: FakeAddr>(acc: InitChunkView<F>, p: ParamView<F>) -> InitChunkView<F> {
    match p {
        ParamView::IpV4Addr(a) => InitChunkView {
            aliases: acc.aliases.push(TransportAddress::IpV4(a)),
            ..acc
        },
        ParamView::IpV6Addr(a) => InitChunkView {
            aliases: acc.aliases.push(TransportAddress::IpV6(a)),
            ..acc
        },
        ParamView::SupportedAddrTypes(s) => InitChunkView { supported_addr_types: Some(s), ..acc },
        ParamView::CookiePreservative(d) => InitChunkView { cookie_preservative: Some(d), ..acc },
        _ => acc,
    }
}

/// Reads the parameters of an INIT in `s` into `acc`: known parameters fill it in,
/// unknown ones are noted when their type asks for a report, and reading stops where the
/// type asks for it or the input ends. `None` on a malformed parameter.
pub open spec fn spec_init_params<F: FakeAddr>(s: Seq<u8>, acc: InitChunkView<F>) -> Option<
    InitChunkView<F>,
>
    decreases s.len(),
{
    if s.len() == 0 {
        Some(acc)
    } else {
        let (size, r) = spec_parse_param::<F>(s);
        if size <= 0 || size > s.len() {
            Some(acc)
        } else {
            match r {
                Ok(p) => spec_init_params(s.skip(size), init_apply(acc, p)),
                Err(ParseErrorView::Done) => Some(acc),
                Err(ParseErrorView::IllegalFormat) => None,
                Err(ParseErrorView::Unrecognized { report, stop, typ, data }) => {
                    let acc2 = if report {
                        InitChunkView {
                            unrecognized: acc.unrecognized.push(UnrecognizedParamView { typ, data }),
                            ..acc
                        }
                    } else {
                        acc
                    };
                    if stop {
                        Some(acc2)
                    } else {
                        spec_init_params(s.skip(size), acc2)
                    }
                },
            }
        }
    }
}

/// The fixed fields of an INIT or INIT ACK read from `d`, with nothing else yet.
pub open spec fn init_header<F: FakeAddr>(d: Seq<u8>) -> InitChunkView<F> {
    InitChunkView {
        initiate_tag: u32_at(d, 0),
        a_rwnd: u32_at(d, 4),
        outbound_streams: u16_at(d, 8),
        inbound_streams: u16_at(d, 10),
        initial_tsn: u32_at(d, 12),
        unrecognized: seq![],
        aliases: seq![],
        cookie_preservative: None,
        supported_addr_types: None,
    }
}

/// What `InitChunk::parse` reads from the value of an INIT chunk.
pub open spec fn spec_parse_init<F: FakeAddr>(d: Seq<u8>) -> Option<InitChunkView<F>> {
    if d.len() < 16 {
        None
    } else {
        spec_init_params(d.skip(16), init_header::<F>(d))
    }
}

/// An INIT ACK after reading one more parameter; the cookie is kept apart.
pub open spec fn init_ack_apply<F: FakeAddr>(
    acc: InitChunkView<F>,
    cookie: Option<StateCookieView<F>>,
    p: ParamView<F>,
) -> (InitChunkView<F>, Option<StateCookieView<F>>) {
    match p {
        ParamView::Unrecognized(u) => (
            InitChunkView { unrecognized: acc.unrecognized.push(u), ..acc },
            cookie,
        ),
        ParamView::StateCookie(c) => (acc, Some(c)),
        _ => (init_apply(acc, p), cookie),
    }
}

/// Reads the parameters of an INIT ACK, as [`spec_init_params`] but keeping the cookie and
/// the reports of unrecognized parameters, and not noting unknown types.
pub open spec fn spec_init_ack_params<F: FakeAddr>(
    s: Seq<u8>,
    acc: InitChunkView<F>,
    cookie: Option<StateCookieView<F>>,
) -> Option<(InitChunkView<F>, Option<StateCookieView<F>>)>
    decreases s.len(),
{
    if s.len() == 0 {
        Some((acc, cookie))
    } else {
        let (size, r) = spec_parse_param::<F>(s);
        if size <= 0 || size > s.len() {
            Some((acc, cookie))
        } else {
            match r {
                Ok(p) => {
                    let (acc2, cookie2) = init_ack_apply(acc, cookie, p);
                    spec_init_ack_params(s.skip(size), acc2, cookie2)
                },
                Err(ParseErrorView::Done) => Some((acc, cookie)),
                Err(ParseErrorView::IllegalFormat) => None,
                Err(ParseErrorView::Unrecognized { report, stop, typ, data }) => {
                    if stop {
                        Some((acc, cookie))
                    } else {
                        spec_init_ack_params(s.skip(size), acc, cookie)
                    }
                },
            }
        }
    }
}

/// What `InitAck::parse` reads from the value of an INIT ACK chunk; an INIT ACK without a
/// cookie is malformed.
pub open spec fn spec_parse_init_ack<F: FakeAddr>(d: Seq<u8>) -> Option<InitAckView<F>> {
    if d.len() < 16 {
        None
    } else {
        match spec_init_ack_params(d.skip(16), init_header::<F>(d), None) {
            Some((acc, Some(cookie))) => Some(
                InitAckView {
                    initiate_tag: acc.initiate_tag,
                    a_rwnd: acc.a_rwnd,
                    outbound_streams: acc.outbound_streams,
                    inbound_streams: acc.inbound_streams,
                    initial_tsn: acc.initial_tsn,
                    cookie,
                    unrecognized: acc.unrecognized,
                    aliases: acc.aliases,
                    cookie_preservative: acc.cookie_preservative,
                    supported_addr_types: acc.supported_addr_types,
                },
            ),
            _ => None,
        }
    }
}

/// The parameter that announces an alias; aliases of the user's own kind are not sent.
pub open spec fn alias_param_encoding<F: FakeAddr>(a: TransportAddress<F>) -> Seq<u8> {
    match a {
        TransportAddress::Fake(_) => seq![],
        TransportAddress::IpV4(x) => ParamView::<F>::IpV4Addr(x).spec_encode(),
        TransportAddress::IpV6(x) => ParamView::<F>::IpV6Addr(x).spec_encode(),
    }
}

/// The parameters that announce a list of aliases.
pub open spec fn alias_params_encoding<F: FakeAddr>(s: Seq<TransportAddress<F>>) -> Seq<u8>
    decreases s.len(),
{
    if s.len() == 0 {
        seq![]
    } else {
        alias_params_encoding(s.drop_last()) + alias_param_encoding(s.last())
    }
}

/// The space the parameter for an alias takes.
pub open spec fn alias_param_size<F: FakeAddr>(a: TransportAddress<F>) -> nat {
    match a {
        TransportAddress::Fake(_) => 0,
        TransportAddress::IpV4(_) => 8,
        TransportAddress::IpV6(_) => 20,
    }
}

pub open spec fn alias_params_size<F: FakeAddr>(s: Seq<TransportAddress<F>>) -> nat
    decreases s.len(),
{
    if s.len() == 0 {
        0
    } else {
        alias_params_size(s.drop_last()) + alias_param_size(s.last())
    }
}

/// The reports of unrecognized parameters.
pub open spec fn unrecognized_encoding(s: Seq<UnrecognizedParamView>) -> Seq<u8>
    decreases s.len(),
{
    if s.len() == 0 {
        seq![]
    } else {
        unrecognized_encoding(s.drop_last()) + s.last().param_encoding()
    }
}

pub open spec fn unrecognized_size(s: Seq<UnrecognizedParamView>) -> nat
    decreases s.len(),
{
    if s.len() == 0 {
        0
    } else {
        unrecognized_size(s.drop_last()) + padded(8 + s.last().data.len())
    }
}

/// The encoding of the optional preservative and supported-types parameters.
pub open spec fn optional_params_encoding<F: FakeAddr>(
    cookie_preservative: Option<u64>,
    supported_addr_types: Option<SupportedAddrTypes>,
) -> Seq<u8> {
    (match cookie_preservative {
        Some(d) => ParamView::<F>::CookiePreservative(d).spec_encode(),
        None => seq![],
    }) + (match supported_addr_types {
        Some(s) => ParamView::<F>::SupportedAddrTypes(s).spec_encode(),
        None => seq![],
    })
}

pub open spec fn optional_params_size(
    cookie_preservative: Option<u64>,
    supported_addr_types: Option<SupportedAddrTypes>,
) -> nat {
    (match cookie_preservative {
        Some(d) => 8nat,
        None => 0nat,
    }) + (match supported_addr_types {
        Some(s) => padded(s.param_size()),
        None => 0nat,
    })
}

/// The fixed fields of an INIT or INIT ACK.
pub open spec fn init_fields_encoding(
    initiate_tag: u32,
    a_rwnd: u32,
    outbound_streams: u16,
    inbound_streams: u16,
    initial_tsn: u32,
) -> Seq<u8> {
    be32(initiate_tag) + be32(a_rwnd) + be16(outbound_streams) + be16(inbound_streams) + be32(
        initial_tsn,
    )
}

impl<FakeContent: FakeAddr> InitChunkView<FakeContent> {
    /// The value of the length field. Unrecognized parameters are not sent.
    pub open spec fn spec_size(self) -> nat {
        4 + 16 + alias_params_size(self.aliases) + optional_params_size(
            self.cookie_preservative,
            self.supported_addr_types,
        )
    }

    /// The bytes that `serialize` writes.
    pub open spec fn spec_encode(self) -> Seq<u8> {
        seq![1u8, 0u8] + be16(self.spec_size() as u16) + init_fields_encoding(
            self.initiate_tag,
            self.a_rwnd,
            self.outbound_streams,
            self.inbound_streams,
            self.initial_tsn,
        ) + alias_params_encoding(self.aliases) + optional_params_encoding::<FakeContent>(
            self.cookie_preservative,
            self.supported_addr_types,
        ) + zeros(padding_for(self.spec_size()))
    }
}

impl<FakeContent: FakeAddr> InitAckView<FakeContent> {
    /// The value of the length field.
    pub open spec fn spec_size(self) -> nat {
        4 + 16 + 4 + padded(self.cookie.spec_encode().len()) + alias_params_size(self.aliases)
            + optional_params_size(self.cookie_preservative, self.supported_addr_types)
            + unrecognized_size(self.unrecognized)
    }

    /// The bytes that `serialize` writes: the cookie first, then aliases, reports of
    /// unrecognized parameters and the optional parameters.
    pub open spec fn spec_encode(self) -> Seq<u8> {
        seq![2u8, 0u8] + be16(self.spec_size() as u16) + init_fields_encoding(
            self.initiate_tag,
            self.a_rwnd,
            self.outbound_streams,
            self.inbound_streams,
            self.initial_tsn,
        ) + self.cookie.param_encoding() + alias_params_encoding(self.aliases)
            + unrecognized_encoding(self.unrecognized) + optional_params_encoding::<FakeContent>(
            self.cookie_preservative,
            self.supported_addr_types,
        ) + zeros(padding_for(self.spec_size()))
    }
}

pub proof fn lemma_alias_params_size_prefix<F: FakeAddr>(s: Seq<TransportAddress<F>>, i: int)
    requires
        0 <= i <= s.len(),
    ensures
        alias_params_size(s.take(i)) <= alias_params_size(s),
    decreases s.len() - i,
{
    if i < s.len() {
        lemma_alias_params_size_prefix(s, i + 1);
        assert(s.take(i + 1).drop_last() =~= s.take(i));
    } else {
        assert(s.take(i) =~= s);
    }
}

pub proof fn lemma_unrecognized_size_prefix(s: Seq<UnrecognizedParamView>, i: int)
    requires
        0 <= i <= s.len(),
    ensures
        unrecognized_size(s.take(i)) <= unrecognized_size(s),
    decreases s.len() - i,
{
    if i < s.len() {
        lemma_unrecognized_size_prefix(s, i + 1);
        assert(s.take(i + 1).drop_last() =~= s.take(i));
    } else {
        assert(s.take(i) =~= s);
    }
}

/// Appends the parameters that announce the aliases.
fn serialize_alias_params<F: FakeAddr>(aliases: &Vec<TransportAddress<F>>, buf: &mut Vec<u8>)
    ensures
        final(buf)@ == old(buf)@ + alias_params_encoding(aliases@),
{
    let mut i: usize = 0;
    assert(aliases@.take(0) =~= seq![]);
    assert(old(buf)@ + alias_params_encoding(aliases@.take(0)) =~= old(buf)@);
    while i < aliases.len()
        invariant
            i <= aliases@.len(),
            buf@ == old(buf)@ + alias_params_encoding(aliases@.take(i as int)),
        decreases aliases@.len() - i,
    {
        match &aliases[i] {
            TransportAddress::Fake(_) => {},
            TransportAddress::IpV4(addr) => Param::<F>::IpV4Addr(*addr).serialize(buf),
            TransportAddress::IpV6(addr) => Param::<F>::IpV6Addr(*addr).serialize(buf),
        }
        i = i + 1;
        assert(aliases@.take(i as int).drop_last() =~= aliases@.take(i - 1));
        assert(buf@ =~= old(buf)@ + alias_params_encoding(aliases@.take(i as int)));
    }
    assert(aliases@.take(i as int) =~= aliases@);
}

/// The space the parameters for the aliases take.
fn alias_params_len<F: FakeAddr>(aliases: &Vec<TransportAddress<F>>, bound: Ghost<nat>) -> (n: usize)
    requires
        alias_params_size(aliases@) <= bound@,
        bound@ <= usize::MAX,
    ensures
        n == alias_params_size(aliases@),
{
    let mut size: usize = 0;
    let mut i: usize = 0;
    assert(aliases@.take(0) =~= seq![]);
    while i < aliases.len()
        invariant
            i <= aliases@.len(),
            size == alias_params_size(aliases@.take(i as int)),
            alias_params_size(aliases@) <= bound@,
            bound@ <= usize::MAX,
        decreases aliases@.len() - i,
    {
        proof {
            lemma_alias_params_size_prefix(aliases@, i + 1);
            assert(aliases@.take(i + 1).drop_last() =~= aliases@.take(i as int));
        }
        match &aliases[i] {
            TransportAddress::Fake(_) => {},
            TransportAddress::IpV4(_) => {
                size = size + 8;
            },
            TransportAddress::IpV6(_) => {
                size = size + 20;
            },
        }
        i = i + 1;
    }
    assert(aliases@.take(i as int) =~= aliases@);
    size
}

/// The size of the alias parameters, however large.
fn alias_params_total<F: FakeAddr>(aliases: &Vec<TransportAddress<F>>) -> (n: u128)
    ensures
        n == alias_params_size(aliases@),
        n <= 20 * (usize::MAX as int),
{
    let mut size: u128 = 0;
    let mut i: usize = 0;
    assert(aliases@.take(0) =~= seq![]);
    while i < aliases.len()
        invariant
            i <= aliases@.len(),
            size == alias_params_size(aliases@.take(i as int)),
            size <= 20 * i,
        decreases aliases@.len() - i,
    {
        proof {
            assert(aliases@.take(i + 1).drop_last() =~= aliases@.take(i as int));
        }
        match &aliases[i] {
            TransportAddress::Fake(_) => {},
            TransportAddress::IpV4(_) => {
                size = size + 8;
            },
            TransportAddress::IpV6(_) => {
                size = size + 20;
            },
        }
        i = i + 1;
    }
    assert(aliases@.take(i as int) =~= aliases@);
    size
}

/// Appends the optional parameters.
fn serialize_optional_params<F: FakeAddr>(
    cookie_preservative: Option<u64>,
    supported_addr_types: Option<SupportedAddrTypes>,
    buf: &mut Vec<u8>,
)
    ensures
        final(buf)@ == old(buf)@ + optional_params_encoding::<F>(
            cookie_preservative,
            supported_addr_types,
        ),
{
    if let Some(duration) = cookie_preservative {
        Param::<F>::CookiePreservative(duration).serialize(buf);
    }
    let ghost mid = buf@;
    if let Some(support) = supported_addr_types {
        Param::<F>::SupportedAddrTypes(support).serialize(buf);
    }
    assert(buf@ =~= old(buf)@ + optional_params_encoding::<F>(
        cookie_preservative,
        supported_addr_types,
    ));
}

fn optional_params_len(
    cookie_preservative: Option<u64>,
    supported_addr_types: Option<SupportedAddrTypes>,
) -> (n: usize)
    ensures
        n == optional_params_size(cookie_preservative, supported_addr_types),
        n <= 16,
{
    let mut size: usize = 0;
    if cookie_preservative.is_some() {
        size = size + 8;
    }
    if let Some(support) = supported_addr_types {
        let mut s: usize = 4;
        if support.ipv4 {
            s = s + 2;
        }
        if support.ipv6 {
            s = s + 2;
        }
        size = size + padded_len(s);
    }
    size
}

/// Appends the fixed fields.
fn serialize_init_fields(
    initiate_tag: u32,
    a_rwnd: u32,
    outbound_streams: u16,
    inbound_streams: u16,
    initial_tsn: u32,
    buf: &mut Vec<u8>,
)
    ensures
        final(buf)@ == old(buf)@ + init_fields_encoding(
            initiate_tag,
            a_rwnd,
            outbound_streams,
            inbound_streams,
            initial_tsn,
        ),
{
    put_u32(buf, initiate_tag);
    put_u32(buf, a_rwnd);
    put_u16(buf, outbound_streams);
    put_u16(buf, inbound_streams);
    put_u32(buf, initial_tsn);
    assert(buf@ =~= old(buf)@ + init_fields_encoding(
        initiate_tag,
        a_rwnd,
        outbound_streams,
        inbound_streams,
        initial_tsn,
    ));
}

/// Reads the fixed fields of an INIT or INIT ACK.
fn parse_init_header<F: FakeAddr>(data: &[u8]) -> (r: InitChunk<F>)
    requires
        data@.len() >= 16,
    ensures
        r@ == init_header::<F>(data@),
{
    let initiate_tag = read_u32(data, 0);
    let a_rwnd = read_u32(data, 4);
    let outbound_streams = read_u16(data, 8);
    let inbound_streams = read_u16(data, 10);
    let initial_tsn = read_u32(data, 12);
    let r = InitChunk {
        initiate_tag,
        a_rwnd,
        outbound_streams,
        inbound_streams,
        initial_tsn,
        unrecognized: Vec::new(),
        aliases: Vec::new(),
        cookie_preservative: None,
        supported_addr_types: None,
    };
    assert(r@.unrecognized =~= seq![]);
    assert(r@.aliases =~= seq![]);
    r
}

impl<FakeContent: FakeAddr> InitChunk<FakeContent> {
    pub open spec fn wf(&self) -> bool {
        self@.spec_size() + 8 <= usize::MAX
    }

    /// Reads an INIT from the value of the chunk.
    pub fn parse(data: &[u8]) -> (r: Option<Self>)
        ensures
            match r {
                Some(c) => spec_parse_init::<FakeContent>(data@) == Some(c@),
                None => spec_parse_init::<FakeContent>(data@) is None,
            },
    {
        if data.len() < 16 {
            return None;
        }
        let mut this = parse_init_header::<FakeContent>(data);
        let mut pos: usize = 16;
        while pos < data.len()
            invariant_except_break
                16 <= pos <= data@.len(),
                spec_parse_init::<FakeContent>(data@) == spec_init_params(
                    data@.skip(pos as int),
                    this@,
                ),
            invariant
                data@.skip(data@.len() as int) =~= Seq::<u8>::empty(),
            ensures
                spec_parse_init::<FakeContent>(data@) == Some(this@),
            decreases data@.len() - pos,
        {
            let rest = vstd::slice::slice_subrange(data, pos, data.len());
            let ghost s = data@.skip(pos as int);
            assert(rest@ =~= s);
            let (size, param) = Param::<FakeContent>::parse(rest);
            let ghost old_this = this@;
            assert(s.skip(size as int) =~= data@.skip(pos + size));
            match param {
                Ok(param) => {
                    let ghost pv = param@;
                    match param {
                        Param::IpV4Addr(addr) => {
                            this.aliases.push(TransportAddress::IpV4(addr));
                        },
                        Param::IpV6Addr(addr) => {
                            this.aliases.push(TransportAddress::IpV6(addr));
                        },
                        Param::SupportedAddrTypes(support) => {
                            this.supported_addr_types = Some(support);
                        },
                        Param::HostNameDeprecated => {},
                        Param::CookiePreservative(duration) => {
                            this.cookie_preservative = Some(duration);
                        },
                        _ => {},
                    }
                    assert(this@ =~= init_apply(old_this, pv));
                },
                Err(ParseError::Done) => {
                    break ;
                },
                Err(ParseError::IllegalFormat) => {
                    return None;
                },
                Err(ParseError::Unrecognized { report, stop, data: unrec_data, typ }) => {
                    if report {
                        let ghost pv = UnrecognizedParamView { typ, data: unrec_data@ };
                        this.unrecognized.push(UnrecognizedParam { typ, data: unrec_data });
                        assert(unrecognized_view(this.unrecognized@) =~= old_this.unrecognized.push(
                            pv,
                        ));
                    }
                    if stop {
                        break ;
                    }
                },
            }
            pos = pos + size;
        }
        Some(this)
    }

    /// The value of the length field.
    pub fn serialized_size(&self) -> (n: usize)
        requires
            self.wf(),
        ensures
            n == self@.spec_size(),
    {
        let a = alias_params_len(&self.aliases, Ghost(self@.spec_size()));
        let o = optional_params_len(self.cookie_preservative, self.supported_addr_types);
        4 + 16 + a + o
    }
    /// Whether the sizes of the chunk fit the machine: `wf`.
    pub fn fits(&self) -> (r: bool)
        ensures
            r == self.wf(),
    {
        let a = alias_params_total(&self.aliases);
        let o = optional_params_len(self.cookie_preservative, self.supported_addr_types);
        4 + 16 + a + o as u128 + 8 <= usize::MAX as u128
    }

    /// Appends the chunk. Reports of unrecognized parameters are not sent in an INIT.
    pub fn serialize(&self, buf: &mut Vec<u8>)
        requires
            self.wf(),
        ensures
            final(buf)@ == old(buf)@ + self@.spec_encode(),
    {
        put_u8(buf, 1);
        put_u8(buf, 0);
        let size = self.serialized_size();
        put_u16(buf, size as u16);
        serialize_init_fields(
            self.initiate_tag,
            self.a_rwnd,
            self.outbound_streams,
            self.inbound_streams,
            self.initial_tsn,
            buf,
        );
        serialize_alias_params(&self.aliases, buf);
        serialize_optional_params::<FakeContent>(
            self.cookie_preservative,
            self.supported_addr_types,
            buf,
        );
        put_zeros(buf, padding_needed(size));
        assert(buf@ =~= old(buf)@ + self@.spec_encode());
    }
}

impl<FakeContent: FakeAddr> InitAck<FakeContent> {
    pub open spec fn wf(&self) -> bool {
        &&& self@.spec_size() + 8 <= usize::MAX
        &&& self.cookie.wf()
    }

    /// Reads an INIT ACK from the value of the chunk; it must hold a cookie.
    pub fn parse(data: &[u8]) -> (r: Option<Self>)
        ensures
            match r {
                Some(c) => spec_parse_init_ack::<FakeContent>(data@) == Some(c@),
                None => spec_parse_init_ack::<FakeContent>(data@) is None,
            },
    {
        if data.len() < 16 {
            return None;
        }
        let mut this = parse_init_header::<FakeContent>(data);
        let mut cookie: Option<StateCookie<FakeContent>> = None;
        let mut pos: usize = 16;
        while pos < data.len()
            invariant_except_break
                16 <= pos <= data@.len(),
                spec_init_ack_params(data@.skip(16), init_header::<FakeContent>(data@), None)
                    == spec_init_ack_params(
                    data@.skip(pos as int),
                    this@,
                    cookie_view(cookie),
                ),
            invariant
                data@.skip(data@.len() as int) =~= Seq::<u8>::empty(),
                data@.len() >= 16,
            ensures
                spec_init_ack_params(data@.skip(16), init_header::<FakeContent>(data@), None)
                    == Some((this@, cookie_view(cookie))),
            decreases data@.len() - pos,
        {
            let rest = vstd::slice::slice_subrange(data, pos, data.len());
            let ghost s = data@.skip(pos as int);
            assert(rest@ =~= s);
            let (size, param) = Param::<FakeContent>::parse(rest);
            let ghost old_this = this@;
            let ghost old_cookie = cookie_view(cookie);
            assert(s.skip(size as int) =~= data@.skip(pos + size));
            match param {
                Ok(param) => {
                    let ghost pv = param@;
                    match param {
                        Param::IpV4Addr(addr) => {
                            this.aliases.push(TransportAddress::IpV4(addr));
                        },
                        Param::IpV6Addr(addr) => {
                            this.aliases.push(TransportAddress::IpV6(addr));
                        },
                        Param::SupportedAddrTypes(support) => {
                            this.supported_addr_types = Some(support);
                        },
                        Param::HostNameDeprecated => {},
                        Param::CookiePreservative(duration) => {
                            this.cookie_preservative = Some(duration);
                        },
                        Param::Unrecognized(p) => {
                            let ghost u = p@;
                            this.unrecognized.push(p);
                            assert(unrecognized_view(this.unrecognized@) =~= old_this.unrecognized.push(
                                u,
                            ));
                        },
                        Param::StateCookie(c) => {
                            cookie = Some(c);
                        },
                    }
                    assert((this@, cookie_view(cookie)) == init_ack_apply(old_this, old_cookie, pv)) by {
                        assert(this@ =~= init_ack_apply(old_this, old_cookie, pv).0);
                    }
                },
                Err(ParseError::Done) => {
                    break ;
                },
                Err(ParseError::IllegalFormat) => {
                    return None;
                },
                Err(ParseError::Unrecognized { report, stop, data: unrec_data, typ }) => {
                    if stop {
                        break ;
                    }
                },
            }
            pos = pos + size;
        }
        let cookie = match cookie {
            Some(c) => c,
            None => {
                return None;
            },
        };
        Some(
            InitAck {
                initiate_tag: this.initiate_tag,
                a_rwnd: this.a_rwnd,
                outbound_streams: this.outbound_streams,
                inbound_streams: this.inbound_streams,
                initial_tsn: this.initial_tsn,
                cookie,
                aliases: this.aliases,
                unrecognized: this.unrecognized,
                cookie_preservative: this.cookie_preservative,
                supported_addr_types: this.supported_addr_types,
            },
        )
    }

    /// Whether the sizes of the chunk fit the machine: `wf`.
    pub fn fits(&self) -> (r: bool)
        ensures
            r == self.wf(),
    {
        if !self.cookie.fits() {
            return false;
        }
        let c = self.cookie.encoded_len();
        let a = alias_params_total(&self.aliases);
        let o = optional_params_len(self.cookie_preservative, self.supported_addr_types);
        let u = match unrecognized_total(&self.unrecognized) {
            Some(u) => u,
            None => {
                return false;
            },
        };
        4 + 16 + 4 + (c + 3) / 4 * 4 + a + o as u128 + u + 8 <= usize::MAX as u128
    }

    /// The value of the length field.
    pub fn serialized_size(&self) -> (n: usize)
        requires
            self.wf(),
        ensures
            n == self@.spec_size(),
    {
        let c = self.cookie.serialized_size();
        let a = alias_params_len(&self.aliases, Ghost(self@.spec_size()));
        let o = optional_params_len(self.cookie_preservative, self.supported_addr_types);
        let u = unrecognized_len(&self.unrecognized, Ghost(self@.spec_size()));
        4 + 16 + 4 + padded_len(c) + a + o + u
    }

    /// Appends the chunk.
    #[verifier::rlimit(40)]
    pub fn serialize(&self, buf: &mut Vec<u8>)
        requires
            self.wf(),
        ensures
            final(buf)@ == old(buf)@ + self@.spec_encode(),
    {
        put_u8(buf, 2);
        put_u8(buf, 0);
        let size = self.serialized_size();
        put_u16(buf, size as u16);
        serialize_init_fields(
            self.initiate_tag,
            self.a_rwnd,
            self.outbound_streams,
            self.inbound_streams,
            self.initial_tsn,
            buf,
        );
        self.cookie.serialize_as_param(buf);
        serialize_alias_params(&self.aliases, buf);
        serialize_unrecognized(&self.unrecognized, Ghost(self@.spec_size()), buf);
        serialize_optional_params::<FakeContent>(
            self.cookie_preservative,
            self.supported_addr_types,
            buf,
        );
        put_zeros(buf, padding_needed(size));
        assert(buf@ =~= old(buf)@ + self@.spec_encode());
    }
}

/// The value of a cookie found so far.
pub open spec fn cookie_view<F: FakeAddr>(c: Option<StateCookie<F>>) -> Option<StateCookieView<F>> {
    match c {
        Some(c) => Some(c@),
        None => None,
    }
}

/// The space the reports of unrecognized parameters take.
fn unrecognized_len(v: &Vec<UnrecognizedParam>, bound: Ghost<nat>) -> (n: usize)
    requires
        unrecognized_size(unrecognized_view(v@)) <= bound@,
        bound@ <= usize::MAX,
    ensures
        n == unrecognized_size(unrecognized_view(v@)),
{
    let ghost s = unrecognized_view(v@);
    let mut size: usize = 0;
    let mut i: usize = 0;
    assert(s.take(0) =~= seq![]);
    while i < v.len()
        invariant
            i <= v@.len(),
            s == unrecognized_view(v@),
            size == unrecognized_size(s.take(i as int)),
            unrecognized_size(s) <= bound@,
            bound@ <= usize::MAX,
        decreases v@.len() - i,
    {
        proof {
            lemma_unrecognized_size_prefix(s, i + 1);
            assert(s.take(i + 1).drop_last() =~= s.take(i as int));
            crate::packet::param::lemma_padding((8 + s[i as int].data.len()) as nat);
        }
        let len = v[i].data.len();
        size = size + padded_len(8 + len);
        i = i + 1;
    }
    assert(s.take(i as int) =~= s);
    size
}

/// The size of the reports of unrecognized parameters if it is at most `usize::MAX`.
fn unrecognized_total(v: &Vec<UnrecognizedParam>) -> (r: Option<u128>)
    ensures
        match r {
            Some(n) => n == unrecognized_size(unrecognized_view(v@)) && n <= usize::MAX,
            None => unrecognized_size(unrecognized_view(v@)) > usize::MAX,
        },
{
    let ghost s = unrecognized_view(v@);
    let mut size: u128 = 0;
    let mut i: usize = 0;
    assert(s.take(0) =~= seq![]);
    while i < v.len()
        invariant
            i <= v@.len(),
            s == unrecognized_view(v@),
            size == unrecognized_size(s.take(i as int)),
            size <= usize::MAX,
        decreases v@.len() - i,
    {
        proof {
            assert(s.take(i + 1).drop_last() =~= s.take(i as int));
        }
        let x: u128 = 8 + v[i].data.len() as u128;
        let p: u128 = (x + 3) / 4 * 4;
        size = size + p;
        if size > usize::MAX as u128 {
            proof {
                lemma_unrecognized_size_prefix(s, i + 1);
            }
            return None;
        }
        i = i + 1;
    }
    assert(s.take(i as int) =~= s);
    Some(size)
}

/// Appends the reports of unrecognized parameters.
fn serialize_unrecognized(v: &Vec<UnrecognizedParam>, bound: Ghost<nat>, buf: &mut Vec<u8>)
    requires
        unrecognized_size(unrecognized_view(v@)) <= bound@,
        bound@ + 8 <= usize::MAX,
    ensures
        final(buf)@ == old(buf)@ + unrecognized_encoding(unrecognized_view(v@)),
{
    let ghost s = unrecognized_view(v@);
    let mut i: usize = 0;
    assert(s.take(0) =~= seq![]);
    assert(old(buf)@ + unrecognized_encoding(s.take(0)) =~= old(buf)@);
    while i < v.len()
        invariant
            i <= v@.len(),
            s == unrecognized_view(v@),
            buf@ == old(buf)@ + unrecognized_encoding(s.take(i as int)),
            unrecognized_size(s) <= bound@,
            bound@ + 8 <= usize::MAX,
        decreases v@.len() - i,
    {
        proof {
            lemma_unrecognized_size_prefix(s, i + 1);
            assert(s.take(i + 1).drop_last() =~= s.take(i as int));
            crate::packet::param::lemma_padding((8 + s[i as int].data.len()) as nat);
            assert(s.take(i + 1).last() == s[i as int]);
            assert(s[i as int] == v@[i as int]@);
        }
        v[i].serialize_as_param(buf);
        i = i + 1;
        assert(buf@ =~= old(buf)@ + unrecognized_encoding(s.take(i as int)));
    }
    assert(s.take(i as int) =~= s);
}

/// A cookie preservative fits the 32 bits it is sent in.
pub open spec fn preservative_fits(p: Option<u64>) -> bool {
    match p {
        Some(d) => d <= u32::MAX,
        None => true,
    }
}

impl<FakeContent: FakeAddr> InitChunkView<FakeContent> {
    /// The INITs that read back: all aliases are sent, the preservative fits and the
    /// length fits its field.
    pub open spec fn round_trips(self) -> bool {
        &&& no_fake(self.aliases)
        &&& preservative_fits(self.cookie_preservative)
        &&& self.spec_size() <= u16::MAX
    }

    /// What reading the INIT back gives: unrecognized parameters are not sent.
    pub open spec fn as_read(self) -> InitChunkView<FakeContent> {
        InitChunkView { unrecognized: seq![], ..self }
    }
}

impl<FakeContent: FakeAddr> InitAckView<FakeContent> {
    /// The INIT ACKs that read back: all aliases are sent, the preservative fits and the
    /// length fits its field.
    pub open spec fn round_trips(self) -> bool {
        &&& no_fake(self.aliases)
        &&& preservative_fits(self.cookie_preservative)
        &&& self.spec_size() <= u16::MAX
    }

    /// What reading the INIT ACK back gives: the cookie comes back opaque.
    pub open spec fn as_read(self) -> InitAckView<FakeContent> {
        InitAckView { cookie: StateCookieView::Opaque(self.cookie.spec_encode()), ..self }
    }
}

/// The parameter that announces a sent alias.
pub open spec fn alias_param<F: FakeAddr>(a: TransportAddress<F>) -> ParamView<F> {
    match a {
        TransportAddress::IpV6(x) => ParamView::IpV6Addr(x),
        TransportAddress::IpV4(x) => ParamView::IpV4Addr(x),
        TransportAddress::Fake(_) => ParamView::HostNameDeprecated,
    }
}

proof fn lemma_init_param_step<F: FakeAddr>(p: ParamView<F>, rest: Seq<u8>, acc: InitChunkView<F>)
    requires
        p.round_trips(),
    ensures
        spec_init_params(p.spec_encode() + rest, acc) == spec_init_params(
            rest,
            init_apply(acc, p.as_read()),
        ),
{
    lemma_param_roundtrip(p, rest);
    let e = p.spec_encode();
    lemma_padding(p.spec_size());
    assert((e + rest).skip(e.len() as int) =~= rest);
}

proof fn lemma_init_ack_param_step<F: FakeAddr>(
    p: ParamView<F>,
    rest: Seq<u8>,
    acc: InitChunkView<F>,
    cookie: Option<StateCookieView<F>>,
)
    requires
        p.round_trips(),
    ensures
        spec_init_ack_params(p.spec_encode() + rest, acc, cookie) == spec_init_ack_params(
            rest,
            init_ack_apply(acc, cookie, p.as_read()).0,
            init_ack_apply(acc, cookie, p.as_read()).1,
        ),
{
    lemma_param_roundtrip(p, rest);
    let e = p.spec_encode();
    lemma_padding(p.spec_size());
    assert((e + rest).skip(e.len() as int) =~= rest);
}

proof fn lemma_alias_params_len<F: FakeAddr>(s: Seq<TransportAddress<F>>)
    ensures
        alias_params_encoding(s).len() == alias_params_size(s),
    decreases s.len(),
{
    if s.len() > 0 {
        lemma_alias_params_len(s.drop_last());
        match s.last() {
            TransportAddress::IpV4(x) => lemma_param_roundtrip(ParamView::<F>::IpV4Addr(x), seq![]),
            TransportAddress::IpV6(x) => lemma_param_roundtrip(ParamView::<F>::IpV6Addr(x), seq![]),
            _ => {},
        }
    }
}

proof fn lemma_unrecognized_len(s: Seq<UnrecognizedParamView>)
    ensures
        unrecognized_encoding(s).len() == unrecognized_size(s),
    decreases s.len(),
{
    if s.len() > 0 {
        lemma_unrecognized_len(s.drop_last());
        let u = s.last();
        lemma_be16(8);
        lemma_be16((8 + u.data.len()) as u16);
        lemma_be16(u.typ);
        lemma_be16((4 + u.data.len()) as u16);
        lemma_padding(8 + u.data.len());
        lemma_padding(u.data.len());
    }
}

proof fn lemma_optional_params_len<F: FakeAddr>(
    cookie_preservative: Option<u64>,
    supported_addr_types: Option<SupportedAddrTypes>,
)
    requires
        preservative_fits(cookie_preservative),
    ensures
        optional_params_encoding::<F>(cookie_preservative, supported_addr_types).len()
            == optional_params_size(cookie_preservative, supported_addr_types),
{
    if let Some(d) = cookie_preservative {
        lemma_param_roundtrip(ParamView::<F>::CookiePreservative(d), seq![]);
    }
    if let Some(t) = supported_addr_types {
        lemma_param_roundtrip(ParamView::<F>::SupportedAddrTypes(t), seq![]);
    }
}

proof fn lemma_init_aliases<F: FakeAddr>(s: Seq<TransportAddress<F>>, rest: Seq<u8>, acc: InitChunkView<F>)
    requires
        no_fake(s),
    ensures
        spec_init_params(alias_params_encoding(s) + rest, acc) == spec_init_params(
            rest,
            InitChunkView { aliases: acc.aliases + s, ..acc },
        ),
    decreases s.len(),
{
    if s.len() == 0 {
        assert(alias_params_encoding(s) + rest =~= rest);
        assert(acc.aliases + s =~= acc.aliases);
    } else {
        let init = s.drop_last();
        let last = s.last();
        let p = alias_param(last);
        assert(!(s[s.len() - 1] is Fake));
        assert(p.spec_encode() == alias_param_encoding(last));
        assert(alias_params_encoding(s) + rest =~= alias_params_encoding(init) + (p.spec_encode()
            + rest));
        assert(no_fake(init)) by {
            assert forall|i: int| 0 <= i < init.len() implies !(#[trigger] init[i] is Fake) by {
                assert(init[i] == s[i]);
            }
        }
        lemma_init_aliases(init, p.spec_encode() + rest, acc);
        let acc2 = InitChunkView { aliases: acc.aliases + init, ..acc };
        lemma_init_param_step(p, rest, acc2);
        assert(init_apply(acc2, p.as_read()) == InitChunkView { aliases: acc.aliases + s, ..acc }) by {
            assert(acc.aliases + init.push(last) =~= acc.aliases + s);
            assert((acc.aliases + init).push(last) =~= acc.aliases + s);
        }
    }
}

proof fn lemma_init_ack_aliases<F: FakeAddr>(
    s: Seq<TransportAddress<F>>,
    rest: Seq<u8>,
    acc: InitChunkView<F>,
    cookie: Option<StateCookieView<F>>,
)
    requires
        no_fake(s),
    ensures
        spec_init_ack_params(alias_params_encoding(s) + rest, acc, cookie) == spec_init_ack_params(
            rest,
            InitChunkView { aliases: acc.aliases + s, ..acc },
            cookie,
        ),
    decreases s.len(),
{
    if s.len() == 0 {
        assert(alias_params_encoding(s) + rest =~= rest);
        assert(acc.aliases + s =~= acc.aliases);
    } else {
        let init = s.drop_last();
        let last = s.last();
        let p = alias_param(last);
        assert(!(s[s.len() - 1] is Fake));
        assert(p.spec_encode() == alias_param_encoding(last));
        assert(alias_params_encoding(s) + rest =~= alias_params_encoding(init) + (p.spec_encode()
            + rest));
        assert(no_fake(init)) by {
            assert forall|i: int| 0 <= i < init.len() implies !(#[trigger] init[i] is Fake) by {
                assert(init[i] == s[i]);
            }
        }
        lemma_init_ack_aliases(init, p.spec_encode() + rest, acc, cookie);
        let acc2 = InitChunkView { aliases: acc.aliases + init, ..acc };
        lemma_init_ack_param_step(p, rest, acc2, cookie);
        assert(init_ack_apply(acc2, cookie, p.as_read()).0 == InitChunkView {
            aliases: acc.aliases + s,
            ..acc
        }) by {
            assert((acc.aliases + init).push(last) =~= acc.aliases + s);
        }
    }
}

proof fn lemma_init_ack_unrecognized<F: FakeAddr>(
    s: Seq<UnrecognizedParamView>,
    rest: Seq<u8>,
    acc: InitChunkView<F>,
    cookie: Option<StateCookieView<F>>,
)
    requires
        unrecognized_size(s) <= u16::MAX,
    ensures
        spec_init_ack_params(unrecognized_encoding(s) + rest, acc, cookie) == spec_init_ack_params(
            rest,
            InitChunkView { unrecognized: acc.unrecognized + s, ..acc },
            cookie,
        ),
    decreases s.len(),
{
    if s.len() == 0 {
        assert(unrecognized_encoding(s) + rest =~= rest);
        assert(acc.unrecognized + s =~= acc.unrecognized);
    } else {
        let init = s.drop_last();
        let u = s.last();
        let p = ParamView::<F>::Unrecognized(u);
        lemma_padding(8 + u.data.len());
        assert(unrecognized_encoding(s) + rest =~= unrecognized_encoding(init) + (p.spec_encode()
            + rest));
        lemma_init_ack_unrecognized(init, p.spec_encode() + rest, acc, cookie);
        let acc2 = InitChunkView { unrecognized: acc.unrecognized + init, ..acc };
        lemma_init_ack_param_step(p, rest, acc2, cookie);
        assert(init_ack_apply(acc2, cookie, p.as_read()).0 == InitChunkView {
            unrecognized: acc.unrecognized + s,
            ..acc
        }) by {
            assert((acc.unrecognized + init).push(u) =~= acc.unrecognized + s);
        }
    }
}

proof fn lemma_init_optional<F: FakeAddr>(
    cookie_preservative: Option<u64>,
    supported_addr_types: Option<SupportedAddrTypes>,
    rest: Seq<u8>,
    acc: InitChunkView<F>,
)
    requires
        preservative_fits(cookie_preservative),
    ensures
        spec_init_params(
            optional_params_encoding::<F>(cookie_preservative, supported_addr_types) + rest,
            acc,
        ) == spec_init_params(
            rest,
            InitChunkView {
                cookie_preservative: match cookie_preservative {
                    Some(d) => Some(d),
                    None => acc.cookie_preservative,
                },
                supported_addr_types: match supported_addr_types {
                    Some(t) => Some(t),
                    None => acc.supported_addr_types,
                },
                ..acc
            },
        ),
{
    let pe = match cookie_preservative {
        Some(d) => ParamView::<F>::CookiePreservative(d).spec_encode(),
        None => seq![],
    };
    let te = match supported_addr_types {
        Some(t) => ParamView::<F>::SupportedAddrTypes(t).spec_encode(),
        None => seq![],
    };
    assert(optional_params_encoding::<F>(cookie_preservative, supported_addr_types) + rest
        =~= pe + (te + rest));
    let acc1 = match cookie_preservative {
        Some(d) => InitChunkView { cookie_preservative: Some(d), ..acc },
        None => acc,
    };
    if let Some(d) = cookie_preservative {
        lemma_init_param_step(ParamView::<F>::CookiePreservative(d), te + rest, acc);
    } else {
        assert(pe + (te + rest) =~= te + rest);
    }
    if let Some(t) = supported_addr_types {
        lemma_init_param_step(ParamView::<F>::SupportedAddrTypes(t), rest, acc1);
    } else {
        assert(te + rest =~= rest);
    }
}

proof fn lemma_init_ack_optional<F: FakeAddr>(
    cookie_preservative: Option<u64>,
    supported_addr_types: Option<SupportedAddrTypes>,
    rest: Seq<u8>,
    acc: InitChunkView<F>,
    cookie: Option<StateCookieView<F>>,
)
    requires
        preservative_fits(cookie_preservative),
    ensures
        spec_init_ack_params(
            optional_params_encoding::<F>(cookie_preservative, supported_addr_types) + rest,
            acc,
            cookie,
        ) == spec_init_ack_params(
            rest,
            InitChunkView {
                cookie_preservative: match cookie_preservative {
                    Some(d) => Some(d),
                    None => acc.cookie_preservative,
                },
                supported_addr_types: match supported_addr_types {
                    Some(t) => Some(t),
                    None => acc.supported_addr_types,
                },
                ..acc
            },
            cookie,
        ),
{
    let pe = match cookie_preservative {
        Some(d) => ParamView::<F>::CookiePreservative(d).spec_encode(),
        None => seq![],
    };
    let te = match supported_addr_types {
        Some(t) => ParamView::<F>::SupportedAddrTypes(t).spec_encode(),
        None => seq![],
    };
    assert(optional_params_encoding::<F>(cookie_preservative, supported_addr_types) + rest
        =~= pe + (te + rest));
    let acc1 = match cookie_preservative {
        Some(d) => InitChunkView { cookie_preservative: Some(d), ..acc },
        None => acc,
    };
    if let Some(d) = cookie_preservative {
        lemma_init_ack_param_step(ParamView::<F>::CookiePreservative(d), te + rest, acc, cookie);
    } else {
        assert(pe + (te + rest) =~= te + rest);
    }
    if let Some(t) = supported_addr_types {
        lemma_init_ack_param_step(ParamView::<F>::SupportedAddrTypes(t), rest, acc1, cookie);
    } else {
        assert(te + rest =~= rest);
    }
}

/// The fixed fields read back.
proof fn lemma_init_fields<F: FakeAddr>(
    initiate_tag: u32,
    a_rwnd: u32,
    outbound_streams: u16,
    inbound_streams: u16,
    initial_tsn: u32,
    rest: Seq<u8>,
)
    ensures
        ({
            let d = init_fields_encoding(
                initiate_tag,
                a_rwnd,
                outbound_streams,
                inbound_streams,
                initial_tsn,
            ) + rest;
            &&& d.len() == 16 + rest.len()
            &&& d.skip(16) == rest
            &&& init_header::<F>(d) == InitChunkView::<F> {
                initiate_tag,
                a_rwnd,
                outbound_streams,
                inbound_streams,
                initial_tsn,
                unrecognized: seq![],
                aliases: seq![],
                cookie_preservative: None,
                supported_addr_types: None,
            }
        }),
{
    let d = init_fields_encoding(initiate_tag, a_rwnd, outbound_streams, inbound_streams, initial_tsn)
        + rest;
    lemma_be32(initiate_tag);
    lemma_be32(a_rwnd);
    lemma_be16(outbound_streams);
    lemma_be16(inbound_streams);
    lemma_be32(initial_tsn);
    let t = be16(inbound_streams) + be32(initial_tsn) + rest;
    assert(d =~= seq![] + be32(initiate_tag) + (be32(a_rwnd) + be16(outbound_streams) + t));
    lemma_u32_at(seq![], initiate_tag, be32(a_rwnd) + be16(outbound_streams) + t);
    assert(d =~= be32(initiate_tag) + be32(a_rwnd) + (be16(outbound_streams) + t));
    lemma_u32_at(be32(initiate_tag), a_rwnd, be16(outbound_streams) + t);
    assert(d =~= (be32(initiate_tag) + be32(a_rwnd)) + be16(outbound_streams) + t);
    lemma_u16_at(be32(initiate_tag) + be32(a_rwnd), outbound_streams, t);
    let h = be32(initiate_tag) + be32(a_rwnd) + be16(outbound_streams);
    assert(d =~= h + be16(inbound_streams) + (be32(initial_tsn) + rest));
    lemma_u16_at(h, inbound_streams, be32(initial_tsn) + rest);
    assert(d =~= (h + be16(inbound_streams)) + be32(initial_tsn) + rest);
    lemma_u32_at(h + be16(inbound_streams), initial_tsn, rest);
    assert(d.skip(16) =~= rest);
}

/// An INIT written by `serialize` reads back as itself, but for the unrecognized
/// parameters, which are not sent.
#[verifier::spinoff_prover]
#[verifier::rlimit(40)]
pub proof fn lemma_init_roundtrip<F: FakeAddr>(c: InitChunkView<F>)
    requires
        c.round_trips(),
    ensures
        ({
            let v = init_fields_encoding(
                c.initiate_tag,
                c.a_rwnd,
                c.outbound_streams,
                c.inbound_streams,
                c.initial_tsn,
            ) + alias_params_encoding(c.aliases) + optional_params_encoding::<F>(
                c.cookie_preservative,
                c.supported_addr_types,
            );
            &&& v.len() + 4 == c.spec_size()
            &&& spec_parse_init::<F>(v) == Some(c.as_read())
        }),
{
    let a = alias_params_encoding(c.aliases);
    let o = optional_params_encoding::<F>(c.cookie_preservative, c.supported_addr_types);
    let v = init_fields_encoding(
        c.initiate_tag,
        c.a_rwnd,
        c.outbound_streams,
        c.inbound_streams,
        c.initial_tsn,
    ) + a + o;
    lemma_alias_params_len(c.aliases);
    lemma_optional_params_len::<F>(c.cookie_preservative, c.supported_addr_types);
    assert(v =~= init_fields_encoding(
        c.initiate_tag,
        c.a_rwnd,
        c.outbound_streams,
        c.inbound_streams,
        c.initial_tsn,
    ) + (a + o));
    lemma_init_fields::<F>(
        c.initiate_tag,
        c.a_rwnd,
        c.outbound_streams,
        c.inbound_streams,
        c.initial_tsn,
        a + o,
    );
    let h = init_header::<F>(v);
    lemma_init_aliases(c.aliases, o, h);
    let h2 = InitChunkView { aliases: h.aliases + c.aliases, ..h };
    assert(o =~= o + seq![]);
    lemma_init_optional::<F>(c.cookie_preservative, c.supported_addr_types, seq![], h2);
    assert(h.aliases + c.aliases =~= c.aliases);
}

/// The parameters of an INIT ACK read back into the fixed fields `h`.
#[verifier::spinoff_prover]
#[verifier::rlimit(40)]
proof fn lemma_init_ack_params_roundtrip<F: FakeAddr>(c: InitAckView<F>, h: InitChunkView<F>)
    requires
        c.round_trips(),
        h.unrecognized == Seq::<UnrecognizedParamView>::empty(),
        h.aliases == Seq::<TransportAddress<F>>::empty(),
        h.cookie_preservative is None,
        h.supported_addr_types is None,
    ensures
        spec_init_ack_params(
            c.cookie.param_encoding() + (alias_params_encoding(c.aliases) + (unrecognized_encoding(
                c.unrecognized,
            ) + optional_params_encoding::<F>(c.cookie_preservative, c.supported_addr_types))),
            h,
            None,
        ) == Some(
            (
                InitChunkView {
                    unrecognized: c.unrecognized,
                    aliases: c.aliases,
                    cookie_preservative: c.cookie_preservative,
                    supported_addr_types: c.supported_addr_types,
                    ..h
                },
                Some(StateCookieView::<F>::Opaque(c.cookie.spec_encode())),
            ),
        ),
{
    let a = alias_params_encoding(c.aliases);
    let u = unrecognized_encoding(c.unrecognized);
    let o = optional_params_encoding::<F>(c.cookie_preservative, c.supported_addr_types);
    let kp = ParamView::<F>::StateCookie(c.cookie);
    lemma_param_roundtrip(kp, seq![]);
    lemma_init_ack_param_step(kp, a + (u + o), h, None);
    let ck = Some(StateCookieView::<F>::Opaque(c.cookie.spec_encode()));
    lemma_init_ack_aliases(c.aliases, u + o, h, ck);
    let h2 = InitChunkView { aliases: h.aliases + c.aliases, ..h };
    lemma_init_ack_unrecognized(c.unrecognized, o, h2, ck);
    let h3 = InitChunkView { unrecognized: h2.unrecognized + c.unrecognized, ..h2 };
    assert(o =~= o + seq![]);
    lemma_init_ack_optional::<F>(c.cookie_preservative, c.supported_addr_types, seq![], h3, ck);
    assert(h.aliases + c.aliases =~= c.aliases);
    assert(h2.unrecognized + c.unrecognized =~= c.unrecognized);
}

#[verifier::spinoff_prover]
#[verifier::rlimit(40)]
proof fn lemma_init_ack_value_len<F: FakeAddr>(c: InitAckView<F>)
    requires
        c.round_trips(),
    ensures
        c.cookie.param_encoding().len() + alias_params_encoding(c.aliases).len()
            + unrecognized_encoding(c.unrecognized).len() + optional_params_encoding::<F>(
            c.cookie_preservative,
            c.supported_addr_types,
        ).len() + 20 == c.spec_size(),
{
    let n = c.cookie.spec_encode().len();
    lemma_alias_params_len(c.aliases);
    lemma_unrecognized_len(c.unrecognized);
    lemma_optional_params_len::<F>(c.cookie_preservative, c.supported_addr_types);
    lemma_padding(n);
    lemma_padding(4 + n);
    lemma_be16(7);
    lemma_be16((4 + n) as u16);
    assert(c.cookie.param_encoding().len() == 4 + n + padding_for(4 + n));
    assert(padding_for(4 + n) == padding_for(n));
}

/// An INIT ACK written by `serialize` reads back as itself, its cookie opaque.
#[verifier::spinoff_prover]
#[verifier::rlimit(60)]
pub proof fn lemma_init_ack_roundtrip<F: FakeAddr>(c: InitAckView<F>)
    requires
        c.round_trips(),
    ensures
        ({
            let v = init_fields_encoding(
                c.initiate_tag,
                c.a_rwnd,
                c.outbound_streams,
                c.inbound_streams,
                c.initial_tsn,
            ) + c.cookie.param_encoding() + alias_params_encoding(c.aliases) + unrecognized_encoding(
                c.unrecognized,
            ) + optional_params_encoding::<F>(c.cookie_preservative, c.supported_addr_types);
            &&& v.len() + 4 == c.spec_size()
            &&& spec_parse_init_ack::<F>(v) == Some(c.as_read())
        }),
{
    let k = c.cookie.param_encoding();
    let a = alias_params_encoding(c.aliases);
    let u = unrecognized_encoding(c.unrecognized);
    let o = optional_params_encoding::<F>(c.cookie_preservative, c.supported_addr_types);
    let f = init_fields_encoding(
        c.initiate_tag,
        c.a_rwnd,
        c.outbound_streams,
        c.inbound_streams,
        c.initial_tsn,
    );
    let v = f + k + a + u + o;
    let tail = k + (a + (u + o));
    assert(v =~= f + tail);
    lemma_init_ack_value_len(c);
    lemma_init_fields::<F>(
        c.initiate_tag,
        c.a_rwnd,
        c.outbound_streams,
        c.inbound_streams,
        c.initial_tsn,
        tail,
    );
    let h = init_header::<F>(v);
    lemma_init_ack_params_roundtrip(c, h);
}

} // verus!
