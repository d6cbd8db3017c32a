use rusctp::packet::cookie::{Cookie, StateCookie};
use rusctp::packet::data::DataChunk;
use rusctp::packet::init::{InitAck, InitChunk};
use rusctp::packet::param::{padded_len, Param};
use rusctp::packet::sack::SelectiveAck;
use rusctp::packet::{Chunk, Sequence, SupportedAddrTypes, Tsn, UnrecognizedParam};
use rusctp::{FakeAddr, SocketAddress, TransportAddress};
use std::cmp::Ordering;

#[test]
fn sequence_compare() {
    // Normal ordering should work as expected
    assert_eq!(Ordering::Less, Sequence(1).cmp(&Sequence(2)));
    assert_eq!(Ordering::Greater, Sequence(2).cmp(&Sequence(1)));
    assert_eq!(Ordering::Equal, Sequence(1).cmp(&Sequence(1)));

    // But inside the wrap radius we should have wrapping compare
    assert_eq!(Ordering::Less, Sequence(u16::MAX).cmp(&Sequence(1)));
    assert_eq!(Ordering::Greater, Sequence(1).cmp(&Sequence(u16::MAX)));
}

#[test]
fn tsn_compare() {
    // Normal ordering should work as expected
    assert_eq!(Ordering::Less, Tsn(1).cmp(&Tsn(2)));
    assert_eq!(Ordering::Greater, Tsn(2).cmp(&Tsn(1)));
    assert_eq!(Ordering::Equal, Tsn(1).cmp(&Tsn(1)));

    // But inside the wrap radius we should have wrapping compare
    assert_eq!(Ordering::Less, Tsn(u32::MAX).cmp(&Tsn(1)));
    assert_eq!(Ordering::Greater, Tsn(1).cmp(&Tsn(u32::MAX)));
}

fn chunk_roundtrip(chunk: Chunk<u64>) {
    let mut buf: Vec<u8> = Vec::new();
    chunk.serialize(&mut buf);
    assert_eq!(buf.len(), padded_len(chunk.serialized_size()));
    let size = u16::from_be_bytes([buf[2], buf[3]]) as usize;
    assert_eq!(chunk.serialized_size(), size);

    let (size, deserialized) = Chunk::<u64>::parse(&buf);
    assert_eq!(size, padded_len(chunk.serialized_size()));

    let deserialized = deserialized.unwrap();
    assert_eq!(chunk, deserialized);
}

#[test]
fn packet_roundtrip() {
    chunk_roundtrip(Chunk::Data(DataChunk {
        tsn: Tsn(1234),
        stream_id: 1234,
        stream_seq_num: Sequence(1234),
        ppid: 1234,
        buf: vec![1, 2, 3, 4, 5, 6],
        immediate: true,
        unordered: false,
        begin: true,
        end: false,
    }));
    chunk_roundtrip(Chunk::Init(InitChunk {
        initiate_tag: 1234,
        a_rwnd: 1234,
        outbound_streams: 1234,
        inbound_streams: 1234,
        initial_tsn: 1234,
        unrecognized: vec![], // intentionally won't get serialized
        aliases: vec![TransportAddress::IpV4(10)],
        cookie_preservative: Some(400),
        supported_addr_types: Some(SupportedAddrTypes {
            ipv4: true,
            ipv6: false,
        }),
    }));

    chunk_roundtrip(Chunk::InitAck(InitAck {
        initiate_tag: 1234,
        a_rwnd: 1234,
        outbound_streams: 1234,
        inbound_streams: 1234,
        initial_tsn: 1234,
        unrecognized: vec![UnrecognizedParam {
            typ: 100,
            data: vec![0, 100, 0, 4],
        }],
        aliases: vec![TransportAddress::IpV4(10)],
        cookie_preservative: Some(400),
        supported_addr_types: Some(SupportedAddrTypes {
            ipv4: true,
            ipv6: false,
        }),
        cookie: StateCookie::Opaque(vec![100, 101, 102, 255, 0]),
    }));

    chunk_roundtrip(Chunk::StateCookie(StateCookie::Opaque(vec![
        100, 101, 102, 255, 0,
    ])));

    chunk_roundtrip(Chunk::StateCookieAck);

    chunk_roundtrip(Chunk::SAck(SelectiveAck {
        cum_tsn: Tsn(1234),
        a_rwnd: 1234,
        blocks: vec![(1, 2), (3, 4)],
        duplicated_tsn: vec![1, 2, 3, 4],
    }));
}

#[test]
fn cookie_roundtrip() {
    let cookie = Cookie {
        mac: 0,
        init_address: TransportAddress::Fake(12345u64),
        peer_port: 12334,
        local_port: 12335,
        aliases: vec![
            TransportAddress::IpV4(12345),
            TransportAddress::IpV6(12345),
            TransportAddress::IpV4(123451),
            TransportAddress::IpV6(123451),
        ],
        local_verification_tag: 1234,
        peer_verification_tag: 5467,
        local_initial_tsn: 9012,
        peer_initial_tsn: 3456,
        incoming_streams: 1234,
        outgoing_streams: 1234,
        peer_arwnd: 1234,
    };

    let mut buf: Vec<u8> = Vec::new();
    cookie.serialize(&mut buf);
    assert_eq!(buf.len(), cookie.serialized_size());
    let parsed = Cookie::parse(&buf).unwrap();
    assert_eq!(cookie, parsed);
}

fn param_roundtrip_of(param: Param<u64>) {
    let mut buf: Vec<u8> = Vec::new();
    param.serialize(&mut buf);
    assert_eq!(buf.len(), padded_len(param.serialized_size()));
    let size = u16::from_be_bytes([buf[2], buf[3]]) as usize;
    assert_eq!(param.serialized_size(), size);

    let (size, deserialized) = Param::<u64>::parse(&buf);
    assert_eq!(size, padded_len(param.serialized_size()));

    let mut deserialized = deserialized.unwrap();
    if matches!(param, Param::StateCookie(StateCookie::Ours(_))) {
        if let Param::StateCookie(ref mut cookie) = deserialized {
            cookie.make_ours().unwrap();
        }
    }
    assert_eq!(param, deserialized);
}

#[test]
fn param_roundtrip() {
    param_roundtrip_of(Param::IpV4Addr(127001));
    param_roundtrip_of(Param::IpV6Addr(1234567));
    param_roundtrip_of(Param::CookiePreservative(1000));
    param_roundtrip_of(Param::SupportedAddrTypes(SupportedAddrTypes {
        ipv4: false,
        ipv6: false,
    }));
    param_roundtrip_of(Param::SupportedAddrTypes(SupportedAddrTypes {
        ipv4: true,
        ipv6: false,
    }));
    param_roundtrip_of(Param::SupportedAddrTypes(SupportedAddrTypes {
        ipv4: false,
        ipv6: true,
    }));
    param_roundtrip_of(Param::SupportedAddrTypes(SupportedAddrTypes {
        ipv4: true,
        ipv6: true,
    }));
    param_roundtrip_of(Param::Unrecognized(UnrecognizedParam {
        typ: 100,
        data: vec![0, 100, 0, 4],
    }));
    param_roundtrip_of(Param::StateCookie(StateCookie::Opaque(vec![
        1, 2, 3, 4, 5, 6, 7, 8, 9,
    ])));
    param_roundtrip_of(Param::StateCookie(StateCookie::Ours(Cookie {
        mac: 1234,
        init_address: TransportAddress::IpV6(1234),
        peer_port: 1234,
        local_port: 1234,
        aliases: vec![
            TransportAddress::IpV4(1234),
            TransportAddress::IpV4(12341),
            TransportAddress::IpV6(1234),
            TransportAddress::IpV6(12341),
        ],
        local_verification_tag: 1234,
        peer_verification_tag: 1234,
        local_initial_tsn: 1234,
        peer_initial_tsn: 1234,
        incoming_streams: 1234,
        outgoing_streams: 1234,
        peer_arwnd: 1234,
    })));
}

#[test]
fn socket_address_roundtrip() {
    let v4 = SocketAddress::V4 { ip: 0x7f00_0001, port: 5000 };
    let mut buf = Vec::new();
    v4.serialize(&mut buf);
    assert_eq!(buf, vec![0, 0x7f, 0, 0, 1, 0x13, 0x88]);
    assert_eq!(v4.serialized_size(), 7);
    assert_eq!(SocketAddress::parse(&buf), Ok((v4, 7)));

    let v6 = SocketAddress::V6 { ip: 1, port: 80, flowinfo: 2, scope_id: 3 };
    let mut buf = Vec::new();
    v6.serialize(&mut buf);
    assert_eq!(buf.len(), 27);
    assert_eq!(v6.serialized_size(), 27);
    assert_eq!(buf[0], 1);
    assert_eq!(buf[16], 1);
    assert_eq!(&buf[17..19], &[0, 80]);
    buf.push(0xff);
    assert_eq!(SocketAddress::parse(&buf), Ok((v6, 27)));
    assert!(v6.same_as(&v6));
    assert!(!v6.same_as(&v4));

    assert_eq!(
        SocketAddress::parse(&[0, 1, 2]),
        Err(rusctp::packet::ParseError::IllegalFormat)
    );
    assert_eq!(
        SocketAddress::parse(&[2, 0, 0, 0, 0, 0, 0]),
        Err(rusctp::packet::ParseError::IllegalFormat)
    );
    assert_eq!(SocketAddress::parse(&[]), Err(rusctp::packet::ParseError::IllegalFormat));
}
