use rusctp::assoc::{
    AssocTxSettings, AssociationRx, AssociationTx, RxNotification, SendError, SendErrorKind,
    TxNotification,
};
use rusctp::packet::data::DataChunk;
use rusctp::packet::sack::SelectiveAck;
use rusctp::packet::{Chunk, Sequence, Tsn};
use rusctp::{AssocId, TransportAddress};

/// A point in time, in nanoseconds.
const NOW: u64 = 1_000_000_000;

fn data_chunk(tsn: u32, seq: u16, ppid: u32, unordered: bool) -> DataChunk {
    DataChunk {
        tsn: Tsn(tsn),
        stream_id: 1,
        stream_seq_num: Sequence(seq),
        ppid,
        buf: Vec::new(),
        immediate: false,
        unordered,
        begin: true,
        end: true,
    }
}

#[test]
fn unordered_delivery() {
    let mut rx: AssociationRx<u64> = AssociationRx::new(AssocId(0), Tsn(1), 10, 100000000);

    rx.notification(RxNotification::Chunk(Chunk::Data(data_chunk(1, 1, 1, false))), NOW);
    rx.notification(RxNotification::Chunk(Chunk::Data(data_chunk(2, 2, 2, false))), NOW);
    rx.notification(RxNotification::Chunk(Chunk::Data(data_chunk(3, 2000, 100, true))), NOW);

    let r1 = rx.poll_data().unwrap();
    assert_eq!(100, r1.ppid);
    let r2 = rx.poll_data().unwrap();
    assert_eq!(1, r2.ppid);
    let r3 = rx.poll_data().unwrap();
    assert_eq!(2, r3.ppid);
}

fn test_tx(peer_arwnd: u32) -> AssociationTx<u64> {
    AssociationTx::new_without_heartbeat(
        AssocId(0),
        AssocTxSettings {
            primary_path: TransportAddress::Fake(0),
            peer_verification_tag: 1234,
            local_port: 1,
            peer_port: 2,
            init_tsn: Tsn(1),
            out_streams: 1,
            out_buffer_limit: 100,
            peer_arwnd,
            pmtu: 10000,
        },
        NOW,
    )
}

fn send_ten_bytes(tx: &mut AssociationTx<u64>) -> Result<(), SendError> {
    tx.try_send_data(vec![0, 1, 2, 3, 4, 5, 6, 7, 8, 9], 0, 0, false, false)
}

fn buffer_full(r: Result<(), SendError>) -> bool {
    matches!(
        r,
        Err(SendError {
            data: _,
            kind: SendErrorKind::BufferFull
        })
    )
}

#[test]
fn buffer_limits() {
    let mut tx = test_tx(10000000);
    for _ in 0..10 {
        assert!(send_ten_bytes(&mut tx).is_ok());
    }
    // This should now fail as the buffer is full
    assert!(buffer_full(send_ten_bytes(&mut tx)));

    let packet = tx
        .poll_data_to_send(100, 0, NOW)
        .expect("Should return the first packet");
    tx.poll_data_to_send(100, 0, NOW)
        .expect("Should return the second packet");
    tx.poll_data_to_send(100, 0, NOW)
        .expect("Should return the third packet");

    assert_eq!(tx.current_in_flight(), 30);
    assert!(buffer_full(send_ten_bytes(&mut tx)));
    assert!(buffer_full(send_ten_bytes(&mut tx)));
    assert!(buffer_full(send_ten_bytes(&mut tx)));

    tx.notification(
        TxNotification::SAck(
            SelectiveAck {
                cum_tsn: packet.tsn,
                a_rwnd: 1000000, // Whatever we just want to have a big receive window here
                blocks: vec![(2, 2)],
                duplicated_tsn: vec![],
            },
            NOW,
        ),
        NOW,
    );
    assert_eq!(tx.current_in_flight(), 20);
    tx.notification(
        TxNotification::SAck(
            SelectiveAck {
                cum_tsn: packet.tsn.increase(),
                a_rwnd: 1000000, // Whatever we just want to have a big receive window here
                blocks: vec![(2, 2)],
                duplicated_tsn: vec![],
            },
            NOW,
        ),
        NOW,
    );
    assert_eq!(tx.current_in_flight(), 10);
    assert!(send_ten_bytes(&mut tx).is_ok());
    assert!(send_ten_bytes(&mut tx).is_ok());
    assert!(buffer_full(send_ten_bytes(&mut tx)));
}

#[test]
fn arwnd_limits() {
    let mut tx = test_tx(20);
    // prep packets
    for _ in 0..10 {
        assert!(send_ten_bytes(&mut tx).is_ok());
    }

    assert!(tx.poll_data_to_send(100, 0, NOW).is_some());
    assert!(tx.poll_data_to_send(100, 0, NOW).is_some());
    assert!(tx.poll_data_to_send(100, 0, NOW).is_none());

    tx.notification(
        TxNotification::SAck(
            SelectiveAck {
                cum_tsn: Tsn(100), // Whatever we dont care about out buffer size here
                a_rwnd: 20,
                blocks: vec![],
                duplicated_tsn: vec![],
            },
            NOW,
        ),
        NOW,
    );

    assert!(tx.poll_data_to_send(100, 0, NOW).is_some());
    assert!(tx.poll_data_to_send(100, 0, NOW).is_some());
    assert!(tx.poll_data_to_send(100, 0, NOW).is_none());
}

#[test]
fn rto_timeout() {
    let mut tx = test_tx(20);
    // prep packet
    assert!(send_ten_bytes(&mut tx).is_ok());

    // take first, this is the "original" transmission
    let first = tx.poll_data_to_send(100, 0, NOW).unwrap();
    // shouldn't retransmit before timeout has run out
    assert!(tx.poll_data_to_send(100, 0, NOW).is_none());

    // time it out
    let timeout = tx.next_timeout().unwrap();
    tx.handle_timeout(timeout);

    // now we should get a retransmission
    let second = tx.poll_data_to_send(100, 0, NOW).unwrap();
    // which is equal to the original transmission
    assert_eq!(first, second);
    // shouldn't retransmit before timeout has run out again
    assert!(tx.poll_data_to_send(100, 0, NOW).is_none());

    // give it an old timeout, this should be ignored
    tx.handle_timeout(timeout);
    assert!(tx.poll_data_to_send(100, 0, NOW).is_none());

    // timeout for real this time
    tx.handle_timeout(tx.next_timeout().unwrap());
    // now we should get a retransmission
    let third = tx.poll_data_to_send(100, 0, NOW).unwrap();
    // which is equal to the other transmissions
    assert_eq!(second, third);
}
