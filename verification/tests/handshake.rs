use rusctp::assoc::{
    Association, PollDataResult, PollSendResult, RxNotification, TxNotification,
};
use rusctp::endpoint::is_packet_cut_short;
use rusctp::packet::cookie::StateCookie;
use rusctp::packet::{Chunk, Packet};
use rusctp::{AssocId, Sctp, Settings, TransportAddress};

const NOW: u64 = 5_000_000_000;

fn settings(secret: &[u8]) -> Settings {
    Settings {
        cookie_secret: secret.to_vec(),
        incoming_streams: 10,
        outgoing_streams: 10,
        in_buffer_limit: 100 * 1024,
        out_buffer_limit: 100 * 1024,
        pmtu: 1500,
    }
}

fn packet_bytes(header: &Packet, chunks: &[Chunk<u64>]) -> Vec<u8> {
    let mut body: Vec<u8> = Vec::new();
    for chunk in chunks {
        chunk.serialize(&mut body);
    }
    let mut buf: Vec<u8> = Vec::new();
    header.serialize(&mut buf, &body);
    buf.extend_from_slice(&body);
    buf
}

/// Sends everything `from` wants to send right away to `to`, which sees it coming from
/// `from_addr`.
fn deliver_immediate(from: &mut Sctp<u64>, to: &mut Sctp<u64>, from_addr: u64) -> usize {
    let mut n = 0;
    while let Some((_addr, header, chunk)) = from.next_send_immediate() {
        to.receive_data(packet_bytes(&header, &[chunk]), TransportAddress::Fake(from_addr), NOW);
        n += 1;
    }
    n
}

/// Hands the endpoint's notifications to the association.
fn pump_endpoint(sctp: &mut Sctp<u64>, assoc: &mut Association<u64>) {
    for (id, n) in sctp.tx_notifications() {
        assert_eq!(id, assoc.id());
        assoc.tx_mut().notification(n, NOW);
    }
    for (id, RxNotification::Chunk(c)) in sctp.rx_notifications() {
        assert_eq!(id, assoc.id());
        assoc.rx_mut().notification(RxNotification::Chunk(c), NOW);
    }
    let (rx, tx) = assoc.split_mut();
    for n in rx.tx_notifications() {
        tx.notification(n, NOW);
    }
}

/// Sends what the association has to send, control chunks first, one chunk per packet.
fn send_from_assoc(assoc: &mut Association<u64>, to: &mut Sctp<u64>, from_addr: u64) -> usize {
    let mut n = 0;
    loop {
        let tx = assoc.tx_mut();
        let chunk = match tx.poll_signal_to_send(1000, 0, NOW) {
            PollSendResult::Ready(c) => c,
            _ => match tx.poll_data_to_send(1000, 0, NOW) {
                PollSendResult::Ready(d) => Chunk::Data(d),
                _ => return n,
            },
        };
        let header = tx.packet_header();
        to.receive_data(packet_bytes(&header, &[chunk]), TransportAddress::Fake(from_addr), NOW);
        n += 1;
    }
}

fn connect() -> (Sctp<u64>, Association<u64>, Sctp<u64>, Association<u64>) {
    let mut client: Sctp<u64> = Sctp::new(settings(b"client secret"));
    let mut server: Sctp<u64> = Sctp::new(settings(b"server secret"));

    // INIT, with a fixed tag and first TSN
    client.init_association_with(TransportAddress::Fake(2), 5000, 5001, 0x1234, 1000);
    assert!(client.has_next_send_immediate());
    assert_eq!(deliver_immediate(&mut client, &mut server, 1), 1);
    assert!(!client.has_next_send_immediate());
    // INIT ACK
    assert_eq!(deliver_immediate(&mut server, &mut client, 2), 1);
    // COOKIE ECHO
    assert_eq!(deliver_immediate(&mut client, &mut server, 1), 1);
    let mut server_assoc = server.new_assoc().expect("the server sets up the association");
    assert!(server.new_assoc().is_none());
    pump_endpoint(&mut server, &mut server_assoc);
    // COOKIE ACK
    assert_eq!(send_from_assoc(&mut server_assoc, &mut client, 2), 1);
    let client_assoc = client.new_assoc().expect("the client sets up the association");
    (client, client_assoc, server, server_assoc)
}

#[test]
fn handshake_sets_up_both_ends() {
    let (_client, client_assoc, _server, server_assoc) = connect();
    assert_eq!(client_assoc.id(), AssocId(2));
    assert_eq!(server_assoc.id(), AssocId(2));
    assert_eq!(client_assoc.tx().packet_header().from, 5001);
    assert_eq!(client_assoc.tx().packet_header().to, 5000);
    assert_eq!(server_assoc.tx().packet_header().from, 5000);
    assert_eq!(server_assoc.tx().packet_header().to, 5001);
}

#[test]
fn data_crosses_an_association() {
    let (mut client, mut client_assoc, mut server, mut server_assoc) = connect();
    client_assoc
        .tx_mut()
        .try_send_data(b"hello".to_vec(), 3, 42, false, false)
        .unwrap();
    assert_eq!(send_from_assoc(&mut client_assoc, &mut server, 1), 1);
    pump_endpoint(&mut server, &mut server_assoc);
    match server_assoc.rx_mut().poll_data() {
        PollDataResult::Data(ev) => {
            assert_eq!(ev.stream, 3);
            assert_eq!(ev.ppid, 42);
            assert_eq!(ev.data.len(), 1);
            assert_eq!(ev.data[0].buf, b"hello".to_vec());
        }
        other => panic!("expected data, got {:?}", other),
    }
    // The server acknowledges the data and the client lets go of it.
    assert_eq!(client_assoc.tx().current_in_flight(), 5);
    assert!(send_from_assoc(&mut server_assoc, &mut client, 2) >= 1);
    pump_endpoint(&mut client, &mut client_assoc);
    assert_eq!(client_assoc.tx().current_in_flight(), 0);
}

#[test]
fn a_forged_cookie_is_refused() {
    let mut client: Sctp<u64> = Sctp::new(settings(b"client secret"));
    let mut server: Sctp<u64> = Sctp::new(settings(b"server secret"));
    client.init_association(TransportAddress::Fake(2), 5000, 5001);
    deliver_immediate(&mut client, &mut server, 1);
    deliver_immediate(&mut server, &mut client, 2);
    // A different endpoint with another secret gets the COOKIE ECHO.
    let mut other: Sctp<u64> = Sctp::new(settings(b"another secret"));
    deliver_immediate(&mut client, &mut other, 1);
    assert!(other.new_assoc().is_none());
    assert!(!other.has_next_send_immediate());
    assert!(other.tx_notifications().is_empty());
}

#[test]
fn a_corrupted_packet_is_dropped() {
    let mut client: Sctp<u64> = Sctp::new(settings(b"client secret"));
    let mut server: Sctp<u64> = Sctp::new(settings(b"server secret"));
    client.init_association(TransportAddress::Fake(2), 5000, 5001);
    let (_addr, header, chunk) = client.next_send_immediate().unwrap();
    let mut bytes = packet_bytes(&header, &[chunk]);
    let last = bytes.len() - 1;
    bytes[last] ^= 0x55;
    server.receive_data(bytes, TransportAddress::Fake(1), NOW);
    assert!(!server.has_next_send_immediate());
}

#[test]
fn abort_forgets_the_association() {
    let (mut client, mut client_assoc, mut server, mut server_assoc) = connect();
    let header = client_assoc.tx().packet_header();
    server.receive_data(packet_bytes(&header, &[Chunk::Abort]), TransportAddress::Fake(1), NOW);
    let notes = server.rx_notifications();
    assert_eq!(notes.len(), 1);
    assert!(matches!(notes[0], (AssocId(2), RxNotification::Chunk(Chunk::Abort))));
    server_assoc
        .rx_mut()
        .notification(RxNotification::Chunk(Chunk::Abort), NOW);
    assert!(matches!(
        server_assoc.rx_mut().poll_data(),
        PollDataResult::Error(_)
    ));
    // Data for the forgotten association goes nowhere.
    client_assoc
        .tx_mut()
        .try_send_data(b"late".to_vec(), 0, 0, false, false)
        .unwrap();
    send_from_assoc(&mut client_assoc, &mut server, 1);
    assert!(server.rx_notifications().is_empty());
    let _ = &mut client;
}

#[test]
fn heartbeat_is_answered_right_away() {
    let (_client, client_assoc, mut server, _server_assoc) = connect();
    let header = client_assoc.tx().packet_header();
    server.receive_data(
        packet_bytes(&header, &[Chunk::HeartBeat(vec![1, 2, 3, 4])]),
        TransportAddress::Fake(1),
        NOW,
    );
    let (addr, reply, chunk) = server.next_send_immediate().unwrap();
    assert_eq!(addr, TransportAddress::Fake(1));
    assert_eq!(reply.from, 5000);
    assert_eq!(reply.to, 5001);
    assert_eq!(chunk, Chunk::HeartBeatAck(vec![1, 2, 3, 4]));
}

#[test]
fn unknown_chunk_is_reported() {
    let (_client, client_assoc, mut server, _server_assoc) = connect();
    let header = client_assoc.tx().packet_header();
    // Type 0xC0: unknown, the two high bits ask to skip it and report it.
    let mut body = vec![0xC0, 0, 0, 4];
    let mut buf: Vec<u8> = Vec::new();
    header.serialize(&mut buf, &body);
    buf.append(&mut body);
    server.receive_data(buf, TransportAddress::Fake(1), NOW);
    let (_addr, _reply, chunk) = server.next_send_immediate().unwrap();
    assert_eq!(chunk, Chunk::OpError);
}

#[test]
fn notifications_pass_from_endpoint_to_halves() {
    let (_client, _client_assoc, _server, server_assoc) = connect();
    let (rx, tx) = server_assoc.split();
    assert_eq!(rx.id(), tx.id());
    let _ = TxNotification::<u64>::Abort;
}

#[test]
fn cookie_cut_short_is_refused() {
    let header = Packet::new(5000, 5001, 0);
    for (len, short) in [(32usize, false), (33, true), (36, true), (37, false)] {
        let bytes = packet_bytes(
            &header,
            &[Chunk::StateCookie(StateCookie::Opaque(vec![0; len]))],
        );
        assert_eq!(is_packet_cut_short::<u64>(&bytes), short);
        let mut sctp: Sctp<u64> = Sctp::new(settings(b"secret"));
        assert_eq!(sctp.try_receive_data(bytes, TransportAddress::Fake(1), NOW), !short);
    }
    // A damaged checksum makes the packet no packet at all.
    let mut bytes = packet_bytes(&header, &[Chunk::StateCookie(StateCookie::Opaque(vec![0; 34]))]);
    bytes[8] ^= 1;
    assert!(!is_packet_cut_short::<u64>(&bytes));
    assert!(Settings::is_ok(&settings(b"s")));
    let mut bad = settings(b"s");
    bad.pmtu = 11;
    assert!(!bad.is_ok());
}
