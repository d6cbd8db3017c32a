use rusctp::assoc::init::HandleSpecialResult;
use rusctp::assoc::rx::handles;
use rusctp::assoc::srtt::Srtt;
use rusctp::assoc::tx::accepts;
use rusctp::assoc::tx::congestion::{CongestionState, PerDestinationInfo};
use rusctp::assoc::tx::pmtu::PmtuProbe;
use rusctp::assoc::tx::timeouts::find_next_timer;
use rusctp::assoc::{
    AssocTxSettings, AssociationRx, AssociationTx, PollDataResult, PollSendResult, RxNotification,
    SendErrorKind, ShutdownState, Timer, TxNotification,
};
use rusctp::packet::cookie::Cookie;
use rusctp::packet::data::DataChunk;
use rusctp::packet::sack::SelectiveAck;
use rusctp::packet::{Chunk, Packet, ParseError, Sequence, Tsn};
use rusctp::{AssocId, TransportAddress};

const NOW: u64 = 1_000_000_000;
const MS: u64 = 1_000_000;

#[test]
fn rto_from_a_measurement() {
    let mut srtt = Srtt::new();
    assert_eq!(srtt.rto_duration(), 3000 * MS);
    srtt.tsn_sent(Tsn(1), NOW);
    // A second TSN is not timed while the first is.
    srtt.tsn_sent(Tsn(2), NOW + 10 * MS);
    srtt.tsn_acked(Tsn(1), NOW + 50 * MS);
    // srtt = 50 ms, rttvar = 25 ms, rto = srtt + 4 * rttvar
    assert_eq!(srtt.srtt, 50 * MS);
    assert_eq!(srtt.rttvar, (25 * MS) as i64);
    assert_eq!(srtt.rto_duration(), 150 * MS);
    // Backing off doubles it, up to 200 ms.
    srtt.rto_expired();
    assert_eq!(srtt.rto_duration(), 200 * MS);
}

#[test]
fn rto_second_measurement() {
    let mut srtt = Srtt::new();
    srtt.tsn_sent(Tsn(1), 0);
    srtt.tsn_acked(Tsn(1), 80 * MS);
    srtt.tsn_sent(Tsn(2), 100 * MS);
    srtt.tsn_acked(Tsn(3), 140 * MS);
    // rttvar = 3/4 * 40 + (80 - 40) / 4 = 40 ms; srtt = 7/8 * 80 + 40 / 8 = 75 ms
    assert_eq!(srtt.rttvar, (40 * MS) as i64);
    assert_eq!(srtt.srtt, 75 * MS);
    assert_eq!(srtt.rto_duration(), 200 * MS);
}

#[test]
fn rto_variation_uses_the_distance() {
    let mut srtt = Srtt::new();
    srtt.tsn_sent(Tsn(1), NOW);
    srtt.tsn_acked(Tsn(1), NOW + 10 * MS);
    assert_eq!(srtt.rto_duration(), 30 * MS);
    srtt.tsn_sent(Tsn(2), NOW + 20 * MS);
    srtt.tsn_acked(Tsn(2), NOW + 70 * MS);
    // rttvar = 3/4 * 5 ms + |10 ms - 50 ms| / 4 = 13.75 ms; srtt = 7/8 * 10 + 50 / 8 = 15 ms
    assert_eq!(srtt.rttvar, 13_750_000);
    assert_eq!(srtt.srtt, 15 * MS);
    assert_eq!(srtt.rto_duration(), 70 * MS);
}

#[test]
fn congestion_window_rules() {
    let mut c = PerDestinationInfo::new(1500);
    assert_eq!(c.pmcds, 1488);
    // min(4 * 1488, max(2 * 1488, 4404))
    assert_eq!(c.cwnd, 4404);
    assert_eq!(c.state(), CongestionState::SlowStart);
    // Slow start grows by max(2 * pmcds, bytes acked) when the window was used up.
    c.bytes_acked(0, 1000, 5000);
    assert_eq!(c.cwnd, 4404 + 2976);
    // A window not used up does not grow.
    c.bytes_acked(0, 1000, 10);
    assert_eq!(c.cwnd, 4404 + 2976);

    c.enter_fast_recovery();
    assert_eq!(c.ssthresh, (4404 + 2976) / 2);
    assert_eq!(c.cwnd, 4404);
    assert_eq!(c.state(), CongestionState::FastRecovery);
    c.bytes_acked(0, 0, 0);
    assert_eq!(c.state(), CongestionState::FastRecovery);
    c.bytes_acked(0, 10, 0);
    assert_eq!(c.state(), CongestionState::SlowStart);

    c.rto_expired();
    assert_eq!(c.state(), CongestionState::LossRecovery);
    assert_eq!(c.ssthresh, 2202);
    assert_eq!(c.cwnd, 4404);
    c.bytes_acked(0, 10, 0);
    // Slow start reaches the threshold and turns to congestion avoidance.
    c.bytes_acked(0, 10, 0);
    assert_eq!(c.cwnd, 2202);
    assert_eq!(c.state(), CongestionState::CongestionAvoidance);
}

#[test]
fn pmtu_probing() {
    let mut p = PmtuProbe::new();
    assert_eq!(p.get_pmtu(), 1200);
    assert!(!p.probe_in_flight());
    assert_eq!(p.next_probe_size(), 3248);
    assert!(p.probe_in_flight());
    p.probe_timed_out();
    assert_eq!(p.last_tested_size, 3248 - 2176);
    assert_eq!(p.next_probe(NOW), NOW + 2000 * MS);
    p.probe_success(1500);
    assert_eq!(p.get_pmtu(), 1500);
    assert_eq!(p.next_probe(NOW), NOW + 100 * MS);
    p.probe_success(1400);
    assert_eq!(p.get_pmtu(), 1500);
}

#[test]
fn earliest_timer() {
    let t = find_next_timer(&[None, Some(Timer::new(5, 1)), Some(Timer::new(3, 2))]).unwrap();
    assert_eq!(t.at(), 3);
    assert_eq!(t, Timer::new(3, 2));
    assert!(find_next_timer(&[None, None]).is_none());
    // Of timers at the same time, the first wins.
    let t = find_next_timer(&[Some(Timer::new(7, 1)), Some(Timer::new(7, 2))]).unwrap();
    assert_eq!(t, Timer::new(7, 1));
}

#[test]
fn poll_send_result_helpers() {
    let r: PollSendResult<u32> = PollSendResult::from_option(Some(3));
    assert!(r.is_some() && !r.is_none() && !r.is_err());
    assert_eq!(r.map(|x| x + 1).unwrap(), 4);
    let e: PollSendResult<u32> = PollSendResult::from_option(None);
    assert!(e.is_none());
    assert_eq!(e.or_else(|| PollSendResult::Ready(9)).expect("filled"), 9);
    let c: PollSendResult<u32> = PollSendResult::Closed;
    assert!(c.is_err());
    assert_eq!(c.some(), None);
    assert_eq!(PollSendResult::Ready(1u8).some(), Some(1));
}

fn chunk(tsn: u32, stream: u16, seq: u16, buf: &[u8], begin: bool, end: bool) -> DataChunk {
    DataChunk {
        tsn: Tsn(tsn),
        stream_id: stream,
        stream_seq_num: Sequence(seq),
        ppid: 7,
        buf: buf.to_vec(),
        immediate: false,
        unordered: false,
        begin,
        end,
    }
}

fn sack_of(n: &TxNotification<u64>) -> &SelectiveAck {
    match n {
        TxNotification::Send(Chunk::SAck(s)) => s,
        other => panic!("expected a SACK, got {:?}", other),
    }
}

#[test]
fn reordered_data_is_delivered_in_order() {
    let mut rx: AssociationRx<u64> = AssociationRx::new(AssocId(1), Tsn(2), 4, 1000);
    rx.handle_data_chunk(chunk(3, 0, 1, b"two", true, true));
    let notes = rx.tx_notifications();
    assert_eq!(notes.len(), 1);
    let sack = sack_of(&notes[0]);
    assert_eq!(sack.cum_tsn, Tsn(1));
    assert_eq!(sack.a_rwnd, 1000 - 3);
    assert_eq!(sack.blocks, vec![(2, 2)]);
    assert!(sack.duplicated_tsn.is_empty());
    assert!(matches!(rx.poll_data(), PollDataResult::NoneAvailable));

    // The same chunk again is held already: no new SACK.
    rx.handle_data_chunk(chunk(3, 0, 1, b"two", true, true));
    assert!(rx.tx_notifications().is_empty());

    rx.handle_data_chunk(chunk(2, 0, 0, b"one", true, true));
    let notes = rx.tx_notifications();
    let sack = sack_of(&notes[0]);
    assert_eq!(sack.cum_tsn, Tsn(3));
    assert!(sack.blocks.is_empty());
    assert_eq!(sack.a_rwnd, 1000 - 6);
    assert_eq!(rx.poll_data().unwrap().data[0].buf, b"one".to_vec());
    assert_eq!(rx.poll_data().unwrap().data[0].buf, b"two".to_vec());
    assert!(matches!(rx.poll_data(), PollDataResult::NoneAvailable));

    // An old chunk is dropped.
    rx.handle_data_chunk(chunk(2, 0, 0, b"one", true, true));
    assert!(rx.tx_notifications().is_empty());
}

#[test]
fn gap_blocks_cover_runs() {
    let mut rx: AssociationRx<u64> = AssociationRx::new(AssocId(1), Tsn(10), 4, 1000);
    for tsn in [12u32, 13, 15] {
        rx.handle_data_chunk(chunk(tsn, 0, tsn as u16, b"x", true, true));
    }
    let notes = rx.tx_notifications();
    let sack = sack_of(&notes[2]);
    assert_eq!(sack.cum_tsn, Tsn(9));
    assert_eq!(sack.blocks, vec![(3, 4), (6, 6)]);
}

#[test]
fn fragments_are_reassembled() {
    let mut rx: AssociationRx<u64> = AssociationRx::new(AssocId(1), Tsn(2), 4, 1000);
    rx.handle_data_chunk(chunk(2, 1, 5, b"ab", true, false));
    assert!(matches!(rx.poll_data(), PollDataResult::NoneAvailable));
    rx.handle_data_chunk(chunk(3, 1, 5, b"cd", false, true));
    let ev = rx.poll_data().unwrap();
    assert_eq!(ev.stream, 1);
    assert_eq!(ev.data.len(), 2);
    assert_eq!(ev.data[0].buf, b"ab".to_vec());
    assert_eq!(ev.data[1].buf, b"cd".to_vec());
}

#[test]
fn receive_buffer_limit() {
    let mut rx: AssociationRx<u64> = AssociationRx::new(AssocId(1), Tsn(2), 4, 3);
    rx.handle_data_chunk(chunk(2, 0, 0, b"toolong", true, true));
    assert!(rx.tx_notifications().is_empty());
    assert!(matches!(rx.poll_data(), PollDataResult::NoneAvailable));
    // A chunk for an unknown stream is dropped but acknowledged.
    rx.handle_data_chunk(chunk(2, 9, 0, b"ab", true, true));
    assert_eq!(rx.tx_notifications().len(), 1);
    assert!(matches!(rx.poll_data(), PollDataResult::NoneAvailable));
}

#[test]
fn rx_notifications_of_chunks() {
    let mut rx: AssociationRx<u64> = AssociationRx::new(AssocId(1), Tsn(2), 4, 100);
    let n = RxNotification::Chunk(Chunk::<u64>::Data(chunk(2, 3, 0, b"a", true, true)));
    assert_eq!(n.get_stream_id(), Some(3));
    assert_eq!(RxNotification::Chunk(Chunk::<u64>::Abort).get_stream_id(), None);
    rx.notification(RxNotification::Chunk(Chunk::HeartBeat(vec![9])), NOW);
    rx.notification(RxNotification::Chunk(Chunk::HeartBeatAck(vec![8])), NOW);
    let notes = rx.tx_notifications();
    assert!(matches!(&notes[0], TxNotification::Send(Chunk::HeartBeatAck(d)) if *d == vec![9]));
    assert!(matches!(&notes[1], TxNotification::HeartBeatAck(d, t) if *d == vec![8] && *t == NOW));
    rx.notification(RxNotification::Chunk(Chunk::Abort), NOW);
    assert!(matches!(rx.poll_data(), PollDataResult::Error(_)));
    assert!(matches!(rx.tx_notifications()[0], TxNotification::Abort));
}

fn tx(out_streams: u16) -> AssociationTx<u64> {
    AssociationTx::new_without_heartbeat(
        AssocId(0),
        AssocTxSettings {
            primary_path: TransportAddress::Fake(0),
            peer_verification_tag: 7,
            local_port: 1,
            peer_port: 2,
            init_tsn: Tsn(1),
            out_streams,
            out_buffer_limit: 100,
            peer_arwnd: 1000,
            pmtu: 1500,
        },
        NOW,
    )
}

#[test]
fn send_errors() {
    let mut t = tx(1);
    let e = t.try_send_data(vec![1], 1, 0, false, false).unwrap_err();
    assert!(matches!(e.kind, SendErrorKind::UnknownStream));
    assert_eq!(e.data, vec![1]);
    t.initiate_shutdown();
    let e = t.try_send_data(vec![2], 0, 0, false, false).unwrap_err();
    assert!(matches!(e.kind, SendErrorKind::Closed));
}

#[test]
fn shutdown_handshake() {
    let mut a_tx = tx(1);
    let mut a_rx: AssociationRx<u64> = AssociationRx::new(AssocId(0), Tsn(1), 1, 100);
    let mut b_tx = tx(1);
    let mut b_rx: AssociationRx<u64> = AssociationRx::new(AssocId(0), Tsn(1), 1, 100);

    a_tx.initiate_shutdown();
    let shutdown = a_tx.poll_signal_to_send(1000, 0, NOW).unwrap();
    assert_eq!(shutdown, Chunk::ShutDown(Tsn(0)));
    assert!(a_tx.poll_signal_to_send(1000, 0, NOW).is_none());

    b_rx.notification(RxNotification::Chunk(shutdown), NOW);
    for n in b_rx.tx_notifications() {
        b_tx.notification(n, NOW);
    }
    let ack = b_tx.poll_signal_to_send(1000, 0, NOW).unwrap();
    assert_eq!(ack, Chunk::ShutDownAck);

    a_rx.notification(RxNotification::Chunk(ack), NOW);
    for n in a_rx.tx_notifications() {
        a_tx.notification(n, NOW);
    }
    assert!(a_tx.shutdown_complete());
    let complete = a_tx.poll_signal_to_send(1000, 0, NOW).unwrap();
    assert_eq!(complete, Chunk::ShutDownComplete { reflected: false });
    assert!(a_tx.poll_signal_to_send(1000, 0, NOW).is_err());

    assert!(!b_tx.shutdown_complete());
    b_rx.notification(RxNotification::Chunk(complete), NOW);
    for n in b_rx.tx_notifications() {
        b_tx.notification(n, NOW);
    }
    assert!(b_tx.shutdown_complete());
    assert!(ShutdownState::is_completely_shutdown(Some(&ShutdownState::Complete)));
    assert!(!ShutdownState::is_completely_shutdown(None));
}

#[test]
fn shutdown_waits_for_data_in_flight() {
    let mut t = tx(1);
    t.try_send_data(vec![1, 2, 3], 0, 0, false, false).unwrap();
    let d = t.poll_data_to_send(1000, 0, NOW).unwrap();
    t.initiate_shutdown();
    assert!(t.poll_signal_to_send(1000, 0, NOW).is_none());
    t.notification(
        TxNotification::SAck(
            SelectiveAck { cum_tsn: d.tsn, a_rwnd: 1000, blocks: vec![], duplicated_tsn: vec![] },
            NOW,
        ),
        NOW,
    );
    assert_eq!(t.current_in_flight(), 0);
    assert_eq!(t.poll_signal_to_send(1000, 0, NOW).unwrap(), Chunk::ShutDown(Tsn(0)));
}

#[test]
fn fast_retransmit_after_gap_reports() {
    let mut t = tx(1);
    for _ in 0..4 {
        t.try_send_data(vec![0; 10], 0, 0, false, false).unwrap();
    }
    let first = t.poll_data_to_send(1000, 0, NOW).unwrap();
    for _ in 0..3 {
        t.poll_data_to_send(1000, 0, NOW).unwrap();
    }
    // The peer got TSN 1 and TSN 3 (as the block [2, 3) from the cumulative TSN 1),
    // twice: the second report enters fast recovery and TSN 2 goes again.
    for _ in 0..3 {
        t.notification(
            TxNotification::SAck(
                SelectiveAck {
                    cum_tsn: first.tsn,
                    a_rwnd: 1000,
                    blocks: vec![(2, 3)],
                    duplicated_tsn: vec![],
                },
                NOW,
            ),
            NOW,
        );
    }
    let again = t.poll_data_to_send(1000, 0, NOW).unwrap();
    assert_eq!(again.tsn, Tsn(2));
    // It goes only once.
    assert!(t.poll_data_to_send(1000, 0, NOW).is_none());
}

#[test]
fn heartbeat_probes_the_path() {
    let mut t = AssociationTx::<u64>::new(
        AssocId(0),
        AssocTxSettings {
            primary_path: TransportAddress::Fake(0),
            peer_verification_tag: 7,
            local_port: 1,
            peer_port: 2,
            init_tsn: Tsn(1),
            out_streams: 1,
            out_buffer_limit: 100,
            peer_arwnd: 1000,
            pmtu: 1500,
        },
        NOW,
    );
    let timer = t.next_timeout().unwrap();
    assert_eq!(timer.at(), NOW + 10 * MS);
    t.handle_timeout(timer);
    // The probe goes alone into a packet, whatever its size.
    match t.poll_signal_to_send(100, 0, NOW).unwrap() {
        Chunk::HeartBeat(d) => assert_eq!(d.len(), 3248),
        other => panic!("expected a heartbeat, got {:?}", other),
    }
    t.notification(TxNotification::HeartBeatAck(vec![0; 3248], NOW), NOW);
    assert_eq!(t.next_timeout().unwrap().at(), NOW + 100 * MS);
}

#[test]
fn chunk_parse_errors() {
    assert!(matches!(Chunk::<u64>::parse(&[]), (0, Err(ParseError::Done))));
    assert!(matches!(Chunk::<u64>::parse(&[0, 0, 0, 2]), (4, Err(ParseError::IllegalFormat))));
    assert!(matches!(
        Chunk::<u64>::parse(&[0xFF, 0, 0, 4]),
        (4, Err(ParseError::Unrecognized { report: true, stop: false }))
    ));
    assert!(matches!(
        Chunk::<u64>::parse(&[0x3F, 0, 0, 4]),
        (4, Err(ParseError::Unrecognized { report: false, stop: true }))
    ));
    assert!(Chunk::<u64>::is_init(&[1, 0, 0, 4]));
    assert!(!Chunk::<u64>::is_init(&[1, 0]));
    assert!(Chunk::<u64>::is_cookie_ack(&Chunk::<u64>::cookie_ack_bytes()));
}

#[test]
fn packet_header_checksum() {
    let header = Packet::new(1, 2, 3);
    let mut buf = Vec::new();
    header.serialize(&mut buf, &[6, 0, 0, 4]);
    buf.extend_from_slice(&[6, 0, 0, 4]);
    assert_eq!(Packet::parse(&buf), Some(header));
    assert_eq!(header.verification_tag(), 3);
    buf[5] ^= 1;
    assert_eq!(Packet::parse(&buf), None);
    assert_eq!(Packet::parse(&buf[..11]), None);
}

#[test]
fn cookie_mac_depends_on_secret_and_contents() {
    let mut cookie = Cookie::<u64> {
        mac: 0,
        init_address: TransportAddress::IpV4(1),
        peer_port: 1,
        local_port: 2,
        aliases: vec![],
        local_verification_tag: 3,
        peer_verification_tag: 4,
        local_initial_tsn: 5,
        peer_initial_tsn: 6,
        incoming_streams: 7,
        outgoing_streams: 8,
        peer_arwnd: 9,
    };
    let a = cookie.calc_mac(b"one");
    assert_eq!(a, cookie.calc_mac(b"one"));
    assert_ne!(a, cookie.calc_mac(b"two"));
    cookie.mac = 77;
    assert_eq!(a, cookie.calc_mac(b"one"));
    cookie.peer_arwnd = 10;
    assert_ne!(a, cookie.calc_mac(b"one"));
}

#[test]
fn handled_or_error() {
    assert!(!HandleSpecialResult::<()>::NotRecognized.handled_or_error());
    assert!(HandleSpecialResult::Handled(1).handled_or_error());
    assert!(HandleSpecialResult::<()>::Error.handled_or_error());
}

#[test]
fn notifications_are_tested_before_they_are_taken() {
    let mut rx: AssociationRx<u64> = AssociationRx::new(AssocId(1), Tsn(2), 4, 1000);
    assert!(handles::<u64>(&Chunk::Abort));
    assert!(!handles::<u64>(&Chunk::StateCookieAck));
    let refused = rx.try_notification(RxNotification::Chunk(Chunk::StateCookieAck), NOW);
    assert!(matches!(refused, Err(RxNotification::Chunk(Chunk::StateCookieAck))));
    assert!(rx.try_notification(RxNotification::Chunk(Chunk::HeartBeat(vec![1, 2])), NOW).is_ok());
    let n = rx.tx_notifications();
    assert_eq!(n.len(), 1);

    let mut t = tx(1);
    let data = chunk(0, 0, 0, &[1], true, true);
    assert!(!accepts(&TxNotification::<u64>::Send(Chunk::Data(chunk(0, 0, 0, &[1], true, true)))));
    assert!(t.try_notification(TxNotification::Send(Chunk::Data(data)), NOW).is_err());
    assert!(accepts(&TxNotification::<u64>::Send(Chunk::ShutDownAck)));
    let late: TxNotification<u64> = TxNotification::SAck(
        SelectiveAck { cum_tsn: Tsn(0), a_rwnd: 10, blocks: vec![], duplicated_tsn: vec![] },
        u64::MAX,
    );
    assert!(!accepts(&late));
    assert!(!t.shutdown_complete());
    assert!(t.try_notification(TxNotification::PeerShutdownComplete, NOW).is_ok());
    assert!(t.shutdown_complete());
    // Once gone, a request to shut down does not bring it back.
    assert!(t.try_notification(TxNotification::Shutdown, NOW).is_ok());
    assert!(t.shutdown_complete());
}

#[test]
fn pmtu_known_size_never_shrinks() {
    let mut p = PmtuProbe::new();
    assert_eq!(p.get_pmtu(), 1200);
    let size = p.next_probe_size();
    assert_eq!(size, 3248);
    p.probe_success(size);
    assert_eq!(p.get_pmtu(), 3248);
    p.next_probe_size();
    p.probe_timed_out();
    assert_eq!(p.get_pmtu(), 3248);
    p.probe_success(1500);
    assert_eq!(p.get_pmtu(), 3248);
}

#[test]
fn stream_sequence_numbers_count_per_stream() {
    let mut t = tx(2);
    t.try_send_data(vec![1], 0, 0, false, false).unwrap();
    t.try_send_data(vec![2], 1, 0, false, false).unwrap();
    t.try_send_data(vec![3], 0, 0, false, true).unwrap();
    let mut seen = Vec::new();
    for _ in 0..3 {
        let c = t.poll_data_to_send(1000, 0, NOW).unwrap();
        assert!(c.begin && c.end);
        seen.push((c.buf[0], c.stream_id, c.stream_seq_num));
    }
    assert_eq!(
        seen,
        vec![(1, 0, Sequence(0)), (2, 1, Sequence(0)), (3, 0, Sequence(1))]
    );
}

#[test]
fn message_just_below_the_path_mtu_is_held_back() {
    let mut t: AssociationTx<u64> = AssociationTx::new_without_heartbeat(
        AssocId(0),
        AssocTxSettings {
            primary_path: TransportAddress::Fake(0),
            peer_verification_tag: 7,
            local_port: 1,
            peer_port: 2,
            init_tsn: Tsn(1),
            out_streams: 1,
            out_buffer_limit: 10_000,
            peer_arwnd: 100_000,
            pmtu: 1500,
        },
        NOW,
    );
    // The path MTU known to work starts at 1200 bytes. 1190 bytes do not fit the 1184 bytes
    // of payload room, and are not larger than the path MTU, so they are neither sent nor
    // split; the message after them waits too.
    t.try_send_data(vec![0; 1190], 0, 0, false, false).unwrap();
    t.try_send_data(vec![1; 10], 0, 0, false, false).unwrap();
    assert!(t.poll_data_to_send(1500, 0, NOW).is_none());
    // A message larger than the path MTU is split at the payload room.
    let mut u: AssociationTx<u64> = AssociationTx::new_without_heartbeat(
        AssocId(0),
        AssocTxSettings {
            primary_path: TransportAddress::Fake(0),
            peer_verification_tag: 7,
            local_port: 1,
            peer_port: 2,
            init_tsn: Tsn(1),
            out_streams: 1,
            out_buffer_limit: 10_000,
            peer_arwnd: 100_000,
            pmtu: 1500,
        },
        NOW,
    );
    u.try_send_data(vec![2; 1300], 0, 0, false, false).unwrap();
    let first = u.poll_data_to_send(1500, 0, NOW).unwrap();
    assert_eq!(first.buf.len(), 1184);
    assert!(first.begin && !first.end);
}
