//! The state cookie that a listening endpoint hands out in its INIT ACK and gets back in the
//! COOKIE ECHO, so that it keeps no state for half-open associations.
use std::collections::hash_map::DefaultHasher;
use std::hash::Hasher;
use vstd::prelude::*;
use vstd::std_specs::hash::DefaultHasherAdditionalSpecFns;

use crate::addr::{FakeAddr, TransportAddress};
use crate::packet::param::{padding_for, padding_needed, PARAM_HEADER_SIZE, PARAM_STATE_COOKIE};
use crate::wire::{
    be128, be16, be32, be64, copy_range, lemma_be128, lemma_be16, lemma_be32, lemma_be64,
    lemma_u128_at, lemma_u16_at, lemma_u32_at, lemma_u64_at, put_slice, put_u128, put_u16,
    put_u32, put_u64, put_u8, put_zeros, read_u128, read_u16, read_u32, read_u64, u128_at,
    u16_at, u32_at, u64_at, zeros,
};

verus! {

/// A state cookie: one that this endpoint made, or one made by the peer that is only
/// carried around.
#[derive(Debug, PartialEq, Eq)]
pub enum StateCookie<FakeContent: FakeAddr> {
    Ours(Cookie<FakeContent>),
    Opaque(Vec<u8>),
}

/// What a cookie made by this endpoint holds: all that is needed to set up the association
/// once the peer echoes it, and a MAC over it.
#[derive(Debug, PartialEq, Eq)]
pub struct Cookie<FakeContent: FakeAddr> {
    pub mac: u64,
    pub init_address: TransportAddress<FakeContent>,
    pub peer_port: u16,
    pub local_port: u16,
    pub aliases: Vec<TransportAddress<FakeContent>>,
    pub local_verification_tag: u32,
    pub peer_verification_tag: u32,
    pub local_initial_tsn: u32,
    pub peer_initial_tsn: u32,
    pub incoming_streams: u16,
    pub outgoing_streams: u16,
    pub peer_arwnd: u32,
}

/// The value of a [`Cookie`].
pub struct CookieView<FakeContent: FakeAddr> {
    pub mac: u64,
    pub init_address: TransportAddress<FakeContent>,
    pub peer_port: u16,
    pub local_port: u16,
    pub aliases: Seq<TransportAddress<FakeContent>>,
    pub local_verification_tag: u32,
    pub peer_verification_tag: u32,
    pub local_initial_tsn: u32,
    pub peer_initial_tsn: u32,
    pub incoming_streams: u16,
    pub outgoing_streams: u16,
    pub peer_arwnd: u32,
}

/// The value of a [`StateCookie`].
pub enum StateCookieView<FakeContent: FakeAddr> {
    Ours(CookieView<FakeContent>),
    Opaque(Seq<u8>),
}

impl<FakeContent: FakeAddr> View for Cookie<FakeContent> {
    type V = CookieView<FakeContent>;

    open spec fn view(&self) -> CookieView<FakeContent> {
        CookieView {
            mac: self.mac,
            init_address: self.init_address,
            peer_port: self.peer_port,
            local_port: self.local_port,
            aliases: self.aliases@,
            local_verification_tag: self.local_verification_tag,
            peer_verification_tag: self.peer_verification_tag,
            local_initial_tsn: self.local_initial_tsn,
            peer_initial_tsn: self.peer_initial_tsn,
            incoming_streams: self.incoming_streams,
            outgoing_streams: self.outgoing_streams,
            peer_arwnd: self.peer_arwnd,
        }
    }
}

impl<FakeContent: FakeAddr> View for StateCookie<FakeContent> {
    type V = StateCookieView<FakeContent>;

    open spec fn view(&self) -> StateCookieView<FakeContent> {
        match self {
            StateCookie::Ours(c) => StateCookieView::Ours(c@),
            StateCookie::Opaque(d) => StateCookieView::Opaque(d@),
        }
    }
}

/// The encoding of the address the association was set up from.
pub open spec fn init_address_encoding<F: FakeAddr>(a: TransportAddress<F>) -> Seq<u8> {
    match a {
        TransportAddress::Fake(f) => seq![0u8] + f.spec_encode(),
        TransportAddress::IpV4(x) => seq![1u8] + be32(x),
        TransportAddress::IpV6(x) => seq![2u8] + be128(x),
    }
}

/// The encoding of one alias; addresses of the user's own kind are left out.
pub open spec fn alias_encoding<F: FakeAddr>(a: TransportAddress<F>) -> Seq<u8> {
    match a {
        TransportAddress::Fake(_) => seq![],
        TransportAddress::IpV4(x) => seq![1u8] + be32(x),
        TransportAddress::IpV6(x) => seq![2u8] + be128(x),
    }
}

/// The encoding of a list of aliases, one after the other.
pub open spec fn aliases_encoding<F: FakeAddr>(s: Seq<TransportAddress<F>>) -> Seq<u8>
    decreases s.len(),
{
    if s.len() == 0 {
        seq![]
    } else {
        alias_encoding(s[0]) + aliases_encoding(s.drop_first())
    }
}

/// Whether no address in the list is of the user's own kind.
pub open spec fn no_fake<F: FakeAddr>(s: Seq<TransportAddress<F>>) -> bool {
    forall|i: int| 0 <= i < s.len() ==> !(s[i] is Fake)
}

impl<FakeContent: FakeAddr> CookieView<FakeContent> {
    /// The encoding of everything but the MAC.
    pub open spec fn body_encoding(self) -> Seq<u8> {
        be16(self.peer_port) + be16(self.local_port) + be32(self.peer_verification_tag) + be32(
            self.local_verification_tag,
        ) + be32(self.peer_initial_tsn) + be32(self.local_initial_tsn) + be16(
            self.incoming_streams,
        ) + be16(self.outgoing_streams) + be32(self.peer_arwnd) + init_address_encoding(
            self.init_address,
        ) + aliases_encoding(self.aliases)
    }

    /// The encoding of the cookie: the MAC, then the body.
    pub open spec fn spec_encode(self) -> Seq<u8> {
        be64(self.mac) + self.body_encoding()
    }
}

/// The aliases read from `s`, each a one-byte kind (1 for IPv4, 2 for IPv6) and the address,
/// until fewer than five bytes are left.
pub open spec fn spec_parse_aliases<F: FakeAddr>(s: Seq<u8>) -> Option<Seq<TransportAddress<F>>>
    decreases s.len(),
{
    if s.len() < 5 {
        Some(seq![])
    } else if s[0] == 1 {
        match spec_parse_aliases(s.skip(5)) {
            Some(rest) => Some(seq![TransportAddress::IpV4(u32_at(s, 1))] + rest),
            None => None,
        }
    } else if s[0] == 2 {
        if s.len() < 17 {
            None
        } else {
            match spec_parse_aliases(s.skip(17)) {
                Some(rest) => Some(seq![TransportAddress::IpV6(u128_at(s, 1))] + rest),
                None => None,
            }
        }
    } else {
        None
    }
}

/// The address the association was set up from, read at offset 36, and where the aliases
/// start.
pub open spec fn spec_parse_init_address<F: FakeAddr>(d: Seq<u8>) -> Option<
    (TransportAddress<F>, int),
> {
    let rest = d.skip(37);
    if d[36] == 0 {
        match F::spec_decode(rest) {
            Some((f, n)) => Some((TransportAddress::Fake(f), 37 + n as int)),
            None => None,
        }
    } else if d[36] == 1 {
        if rest.len() < 4 {
            None
        } else {
            Some((TransportAddress::IpV4(u32_at(d, 37)), 41))
        }
    } else if d[36] == 2 {
        if rest.len() < 16 {
            None
        } else {
            Some((TransportAddress::IpV6(u128_at(d, 37)), 53))
        }
    } else {
        None
    }
}

/// What `Cookie::parse` reads from `d`.
pub open spec fn spec_parse_cookie<F: FakeAddr>(d: Seq<u8>) -> Option<CookieView<F>> {
    if d.len() < 37 {
        None
    } else {
        match spec_parse_init_address::<F>(d) {
            None => None,
            Some((init_address, pos)) => match spec_parse_aliases::<F>(d.skip(pos)) {
                None => None,
                Some(aliases) => Some(
                    CookieView {
                        mac: u64_at(d, 0),
                        peer_port: u16_at(d, 8),
                        local_port: u16_at(d, 10),
                        peer_verification_tag: u32_at(d, 12),
                        local_verification_tag: u32_at(d, 16),
                        peer_initial_tsn: u32_at(d, 20),
                        local_initial_tsn: u32_at(d, 24),
                        incoming_streams: u16_at(d, 28),
                        outgoing_streams: u16_at(d, 30),
                        peer_arwnd: u32_at(d, 32),
                        init_address,
                        aliases,
                    },
                ),
            },
        }
    }
}

impl<FakeContent: FakeAddr> StateCookieView<FakeContent> {
    /// The bytes of the cookie.
    pub open spec fn spec_encode(self) -> Seq<u8> {
        match self {
            StateCookieView::Opaque(d) => d,
            StateCookieView::Ours(c) => c.spec_encode(),
        }
    }

    /// The encoding fits the machine's sizes.
    pub open spec fn wf(self) -> bool {
        self.spec_encode().len() + 8 <= usize::MAX
    }

    /// The cookie as a parameter: type 7, length, the cookie and padding.
    pub open spec fn param_encoding(self) -> Seq<u8> {
        let size = 4 + self.spec_encode().len();
        be16(7) + be16(size as u16) + self.spec_encode() + zeros(padding_for(size))
    }
}

pub proof fn lemma_aliases_encoding_push<F: FakeAddr>(s: Seq<TransportAddress<F>>, a: TransportAddress<F>)
    ensures
        aliases_encoding(s.push(a)) == aliases_encoding(s) + alias_encoding(a),
    decreases s.len(),
{
    if s.len() == 0 {
        assert(s.push(a).drop_first() =~= seq![]);
        assert(s.push(a)[0] == a);
        assert(aliases_encoding(s.push(a).drop_first()) == Seq::<u8>::empty());
        assert(aliases_encoding(s) == Seq::<u8>::empty());
        assert(aliases_encoding(s.push(a)) =~= aliases_encoding(s) + alias_encoding(a));
    } else {
        lemma_aliases_encoding_push(s.drop_first(), a);
        assert(s.push(a).drop_first() =~= s.drop_first().push(a));
        assert(aliases_encoding(s.push(a)) =~= aliases_encoding(s) + alias_encoding(a));
    }
}

pub proof fn lemma_aliases_encoding_prefix_len<F: FakeAddr>(s: Seq<TransportAddress<F>>, i: int)
    requires
        0 <= i <= s.len(),
    ensures
        aliases_encoding(s.take(i)).len() <= aliases_encoding(s).len(),
    decreases s.len() - i,
{
    if i < s.len() {
        lemma_aliases_encoding_prefix_len(s, i + 1);
        assert(s.take(i + 1) =~= s.take(i).push(s[i]));
        lemma_aliases_encoding_push(s.take(i), s[i]);
    } else {
        assert(s.take(i) =~= s);
    }
}

/// Reading back encoded aliases gives them back, whatever shorter tail follows.
pub proof fn lemma_parse_aliases_roundtrip<F: FakeAddr>(s: Seq<TransportAddress<F>>, tail: Seq<u8>)
    requires
        no_fake(s),
        tail.len() < 5,
    ensures
        spec_parse_aliases::<F>(aliases_encoding(s) + tail) == Some(s),
    decreases s.len(),
{
    if s.len() == 0 {
        assert(aliases_encoding(s) + tail =~= tail);
        assert(s =~= seq![]);
    } else {
        let rest = s.drop_first();
        assert(no_fake(rest)) by {
            assert forall|i: int| 0 <= i < rest.len() implies !(rest[i] is Fake) by {
                assert(rest[i] == s[i + 1]);
            }
        }
        lemma_parse_aliases_roundtrip(rest, tail);
        let enc = aliases_encoding(s) + tail;
        let tail_enc = aliases_encoding(rest) + tail;
        assert(!(s[0] is Fake));
        match s[0] {
            TransportAddress::IpV4(x) => {
                lemma_be32(x);
                assert(enc =~= seq![1u8] + be32(x) + tail_enc);
                lemma_u32_at(seq![1u8], x, tail_enc);
                assert(enc.skip(5) =~= tail_enc);
                assert(seq![TransportAddress::IpV4(x)] + rest =~= s);
            },
            TransportAddress::IpV6(x) => {
                lemma_be128(x);
                assert(enc =~= seq![2u8] + be128(x) + tail_enc);
                lemma_u128_at(seq![2u8], x, tail_enc);
                assert(enc.skip(17) =~= tail_enc);
                assert(seq![TransportAddress::IpV6(x)] + rest =~= s);
            },
            TransportAddress::Fake(_) => {},
        }
    }
}

/// Reads the aliases at `d[start..]`.
fn parse_aliases<F: FakeAddr>(d: &[u8], start: usize) -> (r: Option<Vec<TransportAddress<F>>>)
    requires
        start <= d@.len(),
    ensures
        match r {
            Some(v) => spec_parse_aliases::<F>(d@.skip(start as int)) == Some(v@),
            None => spec_parse_aliases::<F>(d@.skip(start as int)) is None,
        },
{
    let mut aliases: Vec<TransportAddress<F>> = Vec::new();
    let mut pos = start;
    while d.len() - pos >= 5
        invariant
            start <= pos <= d@.len(),
            spec_parse_aliases::<F>(d@.skip(start as int)) == match spec_parse_aliases::<F>(
                d@.skip(pos as int),
            ) {
                Some(rest) => Some(aliases@ + rest),
                None => None,
            },
        decreases d@.len() - pos,
    {
        let ghost s = d@.skip(pos as int);
        let tag = d[pos];
        if tag == 1 {
            let a = read_u32(d, pos + 1);
            proof {
                assert(s.skip(5) =~= d@.skip(pos + 5));
                assert(u32_at(s, 1) == a) by {
                    assert(s.subrange(1, 5) =~= d@.subrange(pos + 1, pos + 5));
                }
            }
            aliases.push(TransportAddress::IpV4(a));
            pos = pos + 5;
            proof {
                match spec_parse_aliases::<F>(d@.skip(pos as int)) {
                    Some(rest) => {
                        assert(aliases@ + rest =~= aliases@.drop_last() + (seq![
                            TransportAddress::IpV4(a),
                        ] + rest));
                    },
                    None => {},
                }
            }
        } else if tag == 2 {
            if d.len() - pos < 17 {
                return None;
            }
            let a = read_u128(d, pos + 1);
            proof {
                assert(s.skip(17) =~= d@.skip(pos + 17));
                assert(u128_at(s, 1) == a) by {
                    assert(s.subrange(1, 17) =~= d@.subrange(pos + 1, pos + 17));
                }
            }
            aliases.push(TransportAddress::IpV6(a));
            pos = pos + 17;
            proof {
                match spec_parse_aliases::<F>(d@.skip(pos as int)) {
                    Some(rest) => {
                        assert(aliases@ + rest =~= aliases@.drop_last() + (seq![
                            TransportAddress::IpV6(a),
                        ] + rest));
                    },
                    None => {},
                }
            }
        } else {
            return None;
        }
    }
    proof {
        assert(aliases@ + seq![] =~= aliases@);
    }
    Some(aliases)
}

/// Appends the encoding of an alias.
fn serialize_alias<F: FakeAddr>(a: &TransportAddress<F>, buf: &mut Vec<u8>)
    ensures
        final(buf)@ == old(buf)@ + alias_encoding(*a),
{
    match a {
        TransportAddress::Fake(_) => {
            assert(old(buf)@ + alias_encoding(*a) =~= old(buf)@);
        },
        TransportAddress::IpV4(x) => {
            put_u8(buf, 1);
            put_u32(buf, *x);
            assert(buf@ =~= old(buf)@ + alias_encoding(*a));
        },
        TransportAddress::IpV6(x) => {
            put_u8(buf, 2);
            put_u128(buf, *x);
            assert(buf@ =~= old(buf)@ + alias_encoding(*a));
        },
    }
}

/// The length of the encoding of an alias.
fn alias_size<F: FakeAddr>(a: &TransportAddress<F>) -> (n: usize)
    ensures
        n == alias_encoding(*a).len(),
        n <= 17,
{
    match a {
        TransportAddress::Fake(_) => 0,
        TransportAddress::IpV4(x) => {
            proof {
                lemma_be32(*x);
            }
            5
        },
        TransportAddress::IpV6(x) => {
            proof {
                lemma_be128(*x);
            }
            17
        },
    }
}

/// The MAC of a cookie whose body is `body` under the secret `secret`: the standard
/// library's default hasher fed the body, then the secret.
pub open spec fn spec_mac(body: Seq<u8>, secret: Seq<u8>) -> u64 {
    DefaultHasher::spec_finish(seq![body, secret])
}

impl<FakeContent: FakeAddr> StateCookie<FakeContent> {
    /// A cookie read from the wire is opaque until it is looked into.
    pub fn parse(data: Vec<u8>) -> (r: Self)
        ensures
            r@ == StateCookieView::<FakeContent>::Opaque(data@),
    {
        StateCookie::Opaque(data)
    }

    pub open spec fn wf(&self) -> bool {
        self@.wf()
    }

    /// The number of bytes of the cookie, however large.
    pub fn encoded_len(&self) -> (n: u128)
        ensures
            n == self@.spec_encode().len(),
            n <= 20 * (usize::MAX as int),
    {
        match self {
            StateCookie::Opaque(data) => data.len() as u128,
            StateCookie::Ours(cookie) => cookie.encoded_len(),
        }
    }

    /// Whether the encoding fits the machine's sizes: `wf`.
    pub fn fits(&self) -> (r: bool)
        ensures
            r == self.wf(),
    {
        self.encoded_len() + 8 <= usize::MAX as u128
    }

    /// The number of bytes of the cookie.
    pub fn serialized_size(&self) -> (n: usize)
        requires
            self.wf(),
        ensures
            n == self@.spec_encode().len(),
    {
        match self {
            StateCookie::Opaque(data) => data.len(),
            StateCookie::Ours(cookie) => cookie.serialized_size(),
        }
    }

    /// Appends the cookie as a parameter of an INIT ACK.
    pub fn serialize_as_param(&self, buf: &mut Vec<u8>)
        requires
            self.wf(),
        ensures
            final(buf)@ == old(buf)@ + self@.param_encoding(),
    {
        let size = PARAM_HEADER_SIZE + self.serialized_size();
        put_u16(buf, PARAM_STATE_COOKIE);
        put_u16(buf, size as u16);
        self.serialize(buf);
        put_zeros(buf, padding_needed(size));
        assert(buf@ =~= old(buf)@ + self@.param_encoding());
    }

    /// Appends the bytes of the cookie.
    pub fn serialize(&self, buf: &mut Vec<u8>)
        requires
            self.wf(),
        ensures
            final(buf)@ == old(buf)@ + self@.spec_encode(),
    {
        match self {
            StateCookie::Opaque(data) => put_slice(buf, data.as_slice()),
            StateCookie::Ours(cookie) => cookie.serialize(buf),
        }
    }

    /// Reads an opaque cookie as one of ours, if it is one; the cookie is ours afterwards
    /// exactly when this returns `Some`, and then it is what is returned.
    pub fn make_ours(&mut self) -> (r: Option<&Cookie<FakeContent>>)
        requires
            match *old(self) {
                StateCookie::Opaque(d) => d@.len() < 33 || d@.len() > 36,
                _ => true,
            },
        ensures
            match *old(self) {
                StateCookie::Ours(c) => *final(self) == *old(self) && r == Some(&c),
                StateCookie::Opaque(d) => match spec_parse_cookie::<FakeContent>(d@) {
                    Some(cv) => r is Some && r.unwrap()@ == cv && final(self)@ == StateCookieView::Ours(cv),
                    None => r is None && *final(self) == *old(self),
                },
            },
    {
        let parsed = match self {
            StateCookie::Ours(_) => None,
            StateCookie::Opaque(data) => Some(Cookie::parse(data.as_slice())),
        };
        match parsed {
            None => {},
            Some(None) => {
                return None;
            },
            Some(Some(c)) => {
                *self = StateCookie::Ours(c);
            },
        }
        match self {
            StateCookie::Ours(c) => Some(c),
            StateCookie::Opaque(_) => None,
        }
    }
}

impl<FakeContent: FakeAddr> Cookie<FakeContent> {
    /// The encoding fits the machine's sizes.
    pub open spec fn wf(&self) -> bool {
        self@.spec_encode().len() + 8 <= usize::MAX
    }

    /// Appends everything but the MAC.
    fn serialize_body(&self, buf: &mut Vec<u8>)
        ensures
            final(buf)@ == old(buf)@ + self@.body_encoding(),
    {
        put_u16(buf, self.peer_port);
        put_u16(buf, self.local_port);
        put_u32(buf, self.peer_verification_tag);
        put_u32(buf, self.local_verification_tag);
        put_u32(buf, self.peer_initial_tsn);
        put_u32(buf, self.local_initial_tsn);
        put_u16(buf, self.incoming_streams);
        put_u16(buf, self.outgoing_streams);
        put_u32(buf, self.peer_arwnd);
        match &self.init_address {
            TransportAddress::Fake(addr) => {
                put_u8(buf, 0);
                addr.serialize(buf);
            },
            TransportAddress::IpV4(addr) => {
                put_u8(buf, 1);
                put_u32(buf, *addr);
            },
            TransportAddress::IpV6(addr) => {
                put_u8(buf, 2);
                put_u128(buf, *addr);
            },
        }
        let ghost head = buf@;
        assert(head =~= old(buf)@ + be16(self.peer_port) + be16(self.local_port) + be32(
            self.peer_verification_tag,
        ) + be32(self.local_verification_tag) + be32(self.peer_initial_tsn) + be32(
            self.local_initial_tsn,
        ) + be16(self.incoming_streams) + be16(self.outgoing_streams) + be32(self.peer_arwnd)
            + init_address_encoding(self.init_address));
        let mut i: usize = 0;
        assert(self.aliases@.take(0) =~= seq![]);
        assert(head + aliases_encoding(self.aliases@.take(0)) =~= head);
        while i < self.aliases.len()
            invariant
                i <= self.aliases@.len(),
                buf@ == head + aliases_encoding(self.aliases@.take(i as int)),
            decreases self.aliases@.len() - i,
        {
            serialize_alias(&self.aliases[i], buf);
            proof {
                assert(self.aliases@.take(i + 1) =~= self.aliases@.take(i as int).push(
                    self.aliases@[i as int],
                ));
                lemma_aliases_encoding_push(self.aliases@.take(i as int), self.aliases@[i as int]);
            }
            i = i + 1;
        }
        assert(self.aliases@.take(i as int) =~= self.aliases@);
        assert(buf@ =~= old(buf)@ + self@.body_encoding());
    }

    /// A keyed MAC over the cookie's contents (all but the MAC itself) and the local
    /// secret.
    pub fn calc_mac(&self, local_secret: &[u8]) -> (r: u64)
        ensures
            r == spec_mac(self@.body_encoding(), local_secret@),
    {
        let mut body: Vec<u8> = Vec::new();
        self.serialize_body(&mut body);
        let mut hasher = DefaultHasher::new();
        hasher.write(body.as_slice());
        hasher.write(local_secret);
        assert(hasher@ =~= seq![self@.body_encoding(), local_secret@]);
        hasher.finish()
    }

    /// The number of bytes of the encoding, however large.
    pub fn encoded_len(&self) -> (n: u128)
        ensures
            n == self@.spec_encode().len(),
            n <= 20 * (usize::MAX as int),
    {
        proof {
            lemma_be16(0);
            lemma_be32(0);
            lemma_be64(self.mac);
            lemma_be16(self.peer_port);
            lemma_be16(self.local_port);
            lemma_be32(self.peer_verification_tag);
            lemma_be32(self.local_verification_tag);
            lemma_be32(self.peer_initial_tsn);
            lemma_be32(self.local_initial_tsn);
            lemma_be16(self.incoming_streams);
            lemma_be16(self.outgoing_streams);
            lemma_be32(self.peer_arwnd);
        }
        let ghost fixed = 36 + init_address_encoding(self.init_address).len();
        let mut size: u128 = 36;
        match &self.init_address {
            TransportAddress::Fake(addr) => {
                let n = addr.serialized_size();
                size = size + 1 + n as u128;
            },
            TransportAddress::IpV4(x) => {
                proof {
                    lemma_be32(*x);
                }
                size = size + 5;
            },
            TransportAddress::IpV6(x) => {
                proof {
                    lemma_be128(*x);
                }
                size = size + 17;
            },
        }
        assert(size == fixed);
        assert(self@.spec_encode().len() == fixed + aliases_encoding(self.aliases@).len());
        let mut i: usize = 0;
        assert(self.aliases@.take(0) =~= seq![]);
        while i < self.aliases.len()
            invariant
                i <= self.aliases@.len(),
                fixed <= 37 + usize::MAX,
                size == fixed + aliases_encoding(self.aliases@.take(i as int)).len(),
                size <= fixed + 17 * i,
                self@.spec_encode().len() == fixed + aliases_encoding(self.aliases@).len(),
            decreases self.aliases@.len() - i,
        {
            proof {
                assert(self.aliases@.take(i + 1) =~= self.aliases@.take(i as int).push(
                    self.aliases@[i as int],
                ));
                lemma_aliases_encoding_push(self.aliases@.take(i as int), self.aliases@[i as int]);
            }
            let n = alias_size(&self.aliases[i]);
            size = size + n as u128;
            i = i + 1;
        }
        assert(self.aliases@.take(i as int) =~= self.aliases@);
        size
    }

    /// The number of bytes of the encoding.
    pub fn serialized_size(&self) -> (n: usize)
        requires
            self.wf(),
        ensures
            n == self@.spec_encode().len(),
    {
        proof {
            lemma_be16(0);
            lemma_be32(0);
            lemma_be64(self.mac);
            lemma_be16(self.peer_port);
            lemma_be16(self.local_port);
            lemma_be32(self.peer_verification_tag);
            lemma_be32(self.local_verification_tag);
            lemma_be32(self.peer_initial_tsn);
            lemma_be32(self.local_initial_tsn);
            lemma_be16(self.incoming_streams);
            lemma_be16(self.outgoing_streams);
            lemma_be32(self.peer_arwnd);
        }
        let ghost fixed = 36 + init_address_encoding(self.init_address).len();
        let mut size: usize = 36;
        match &self.init_address {
            TransportAddress::Fake(addr) => {
                size = size + 1;
                let n = addr.serialized_size();
                assert(self@.spec_encode().len() == fixed + aliases_encoding(self.aliases@).len());
                size = size + n;
            },
            TransportAddress::IpV4(x) => {
                proof {
                    lemma_be32(*x);
                }
                size = size + 5;
            },
            TransportAddress::IpV6(x) => {
                proof {
                    lemma_be128(*x);
                }
                size = size + 17;
            },
        }
        assert(size == fixed);
        assert(self@.spec_encode().len() == fixed + aliases_encoding(self.aliases@).len());
        let mut i: usize = 0;
        assert(self.aliases@.take(0) =~= seq![]);
        while i < self.aliases.len()
            invariant
                i <= self.aliases@.len(),
                size == fixed + aliases_encoding(self.aliases@.take(i as int)).len(),
                self@.spec_encode().len() == fixed + aliases_encoding(self.aliases@).len(),
                self@.spec_encode().len() + 8 <= usize::MAX,
            decreases self.aliases@.len() - i,
        {
            proof {
                assert(self.aliases@.take(i + 1) =~= self.aliases@.take(i as int).push(
                    self.aliases@[i as int],
                ));
                lemma_aliases_encoding_push(self.aliases@.take(i as int), self.aliases@[i as int]);
                lemma_aliases_encoding_prefix_len(self.aliases@, i + 1);
            }
            let n = alias_size(&self.aliases[i]);
            size = size + n;
            i = i + 1;
        }
        assert(self.aliases@.take(i as int) =~= self.aliases@);
        size
    }

    /// Appends the encoding of the cookie: the MAC, then the rest.
    pub fn serialize(&self, buf: &mut Vec<u8>)
        ensures
            final(buf)@ == old(buf)@ + self@.spec_encode(),
    {
        put_u64(buf, self.mac);
        self.serialize_body(buf);
        assert(buf@ =~= old(buf)@ + self@.spec_encode());
    }

    /// Reads a cookie that this endpoint made.
    pub fn parse(data: &[u8]) -> (r: Option<Self>)
        requires
            data@.len() < 33 || data@.len() > 36,
        ensures
            match r {
                Some(c) => spec_parse_cookie::<FakeContent>(data@) == Some(c@),
                None => spec_parse_cookie::<FakeContent>(data@) is None,
            },
    {
        if data.len() < 33 {
            return None;
        }
        let mac = read_u64(data, 0);
        let peer_port = read_u16(data, 8);
        let local_port = read_u16(data, 10);
        let peer_verification_tag = read_u32(data, 12);
        let local_verification_tag = read_u32(data, 16);
        let peer_initial_tsn = read_u32(data, 20);
        let local_initial_tsn = read_u32(data, 24);
        let incoming_streams = read_u16(data, 28);
        let outgoing_streams = read_u16(data, 30);
        let peer_arwnd = read_u32(data, 32);
        let tag = data[36];
        let ghost rest = data@.skip(37);
        let pos: usize;
        let init_address = if tag == 0 {
            let tail = vstd::slice::slice_subrange(data, 37, data.len());
            assert(tail@ =~= rest);
            match FakeContent::parse(tail) {
                Ok((addr, n)) => {
                    proof {
                        FakeContent::lemma_decode_len(rest);
                    }
                    pos = 37 + n;
                    TransportAddress::Fake(addr)
                },
                Err(_) => {
                    return None;
                },
            }
        } else if tag == 1 {
            if data.len() - 37 < 4 {
                return None;
            }
            pos = 41;
            TransportAddress::IpV4(read_u32(data, 37))
        } else if tag == 2 {
            if data.len() - 37 < 16 {
                return None;
            }
            pos = 53;
            TransportAddress::IpV6(read_u128(data, 37))
        } else {
            return None;
        };
        assert(spec_parse_init_address::<FakeContent>(data@) == Some((init_address, pos as int)));
        let aliases = match parse_aliases(data, pos) {
            Some(a) => a,
            None => {
                return None;
            },
        };
        Some(
            Cookie {
                mac,
                peer_port,
                local_port,
                peer_verification_tag,
                local_verification_tag,
                peer_initial_tsn,
                local_initial_tsn,
                incoming_streams,
                outgoing_streams,
                init_address,
                aliases,
                peer_arwnd,
            },
        )
    }
}

/// A cookie that this endpoint made reads back from its encoding, provided none of its
/// aliases is of the user's own kind (those are not written).
pub proof fn lemma_cookie_roundtrip<F: FakeAddr>(c: CookieView<F>)
    requires
        no_fake(c.aliases),
    ensures
        spec_parse_cookie::<F>(c.spec_encode()) == Some(c),
{
    let d = c.spec_encode();
    let al = aliases_encoding(c.aliases);
    lemma_be64(c.mac);
    lemma_be16(c.peer_port);
    lemma_be16(c.local_port);
    lemma_be32(c.peer_verification_tag);
    lemma_be32(c.local_verification_tag);
    lemma_be32(c.peer_initial_tsn);
    lemma_be32(c.local_initial_tsn);
    lemma_be16(c.incoming_streams);
    lemma_be16(c.outgoing_streams);
    lemma_be32(c.peer_arwnd);
    assert(d.subrange(0, 8) =~= be64(c.mac));
    assert(d.subrange(8, 10) =~= be16(c.peer_port));
    assert(d.subrange(10, 12) =~= be16(c.local_port));
    assert(d.subrange(12, 16) =~= be32(c.peer_verification_tag));
    assert(d.subrange(16, 20) =~= be32(c.local_verification_tag));
    assert(d.subrange(20, 24) =~= be32(c.peer_initial_tsn));
    assert(d.subrange(24, 28) =~= be32(c.local_initial_tsn));
    assert(d.subrange(28, 30) =~= be16(c.incoming_streams));
    assert(d.subrange(30, 32) =~= be16(c.outgoing_streams));
    assert(d.subrange(32, 36) =~= be32(c.peer_arwnd));
    lemma_parse_aliases_roundtrip::<F>(c.aliases, seq![]);
    assert(al + seq![] =~= al);
    match c.init_address {
        TransportAddress::Fake(f) => {
            F::lemma_decode_encode(f, al);
            assert(d[36] == 0);
            assert(d.skip(37) =~= f.spec_encode() + al);
            assert(d.skip((37 + f.spec_encode().len()) as int) =~= al);
        },
        TransportAddress::IpV4(x) => {
            lemma_be32(x);
            assert(d[36] == 1);
            assert(d.subrange(37, 41) =~= be32(x));
            assert(d.skip(41) =~= al);
        },
        TransportAddress::IpV6(x) => {
            lemma_be128(x);
            assert(d[36] == 2);
            assert(d.subrange(37, 53) =~= be128(x));
            assert(d.skip(53) =~= al);
        },
    }
}

} // verus!
