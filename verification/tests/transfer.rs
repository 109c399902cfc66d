use tftp::engine::{Action, Phase, Receiver, Sender};
use tftp::netascii::{NaDecoder, NaEncoder};
use tftp::packet::{decode, encode};
use tftp::error_code::ErrorCode;
use tftp::packet::{Ack, Data, Packet};

fn expect_data(a: &Action) -> &Data {
    match a {
        Action::Send(Packet::Data(d)) => d,
        _ => panic!("expected a data packet, got {:?}", a),
    }
}

#[test]
fn test_sender_walks_blocks_in_lock_step() {
    let data: Vec<u8> = (0..20u8).collect();
    let mut s = Sender::new(data.clone(), 8, 5);
    let first = s.current_data();
    assert_eq!(first, Packet::Data(Data { block: 1, payload: data[0..8].to_vec() }));

    let a = s.on_ack(4242, 1);
    let d = expect_data(&a);
    assert_eq!(d.block, 2);
    assert_eq!(d.payload, data[8..16].to_vec());

    let a = s.on_ack(4242, 2);
    let d = expect_data(&a);
    assert_eq!(d.block, 3);
    assert_eq!(d.payload, data[16..20].to_vec());

    // The short block was acknowledged: the transfer is complete.
    let a = s.on_ack(4242, 3);
    assert_eq!(a, Action::Idle);
    assert_eq!(s.phase, Phase::Completed);
}

#[test]
fn test_sender_sends_empty_final_block_on_exact_multiple() {
    let data: Vec<u8> = (0..8u8).collect();
    let mut s = Sender::new(data, 8, 5);
    let a = s.on_ack(9, 1);
    let d = expect_data(&a);
    assert_eq!(d.block, 2);
    assert_eq!(d.payload, Vec::<u8>::new());
    let a = s.on_ack(9, 2);
    assert_eq!(a, Action::Idle);
    assert_eq!(s.phase, Phase::Completed);
}

#[test]
fn test_sender_retry_budget_exhaustion() {
    // After exactly the configured number of retransmissions, each
    // byte-identical to the first transmission, the sender fails.
    let data: Vec<u8> = (0..10u8).collect();
    let mut s = Sender::new(data, 8, 3);
    let first = s.current_data();
    let first_bytes = tftp::packet::encode(first);
    for _ in 0..3 {
        let a = s.on_timeout();
        match a {
            Action::Send(p) => assert_eq!(tftp::packet::encode(p), first_bytes),
            _ => panic!("expected a retransmission"),
        }
        assert_eq!(s.phase, Phase::Transferring);
    }
    let a = s.on_timeout();
    assert_eq!(a, Action::Idle);
    assert_eq!(s.phase, Phase::Failed);
}

#[test]
fn test_sender_ignores_duplicate_ack() {
    let data: Vec<u8> = (0..20u8).collect();
    let mut s = Sender::new(data, 8, 5);
    let _ = s.on_ack(7, 1);
    // A duplicate of the previous acknowledgement changes nothing.
    let a = s.on_ack(7, 1);
    assert_eq!(a, Action::Idle);
    assert_eq!(s.block, 2);
    assert_eq!(s.phase, Phase::Transferring);
    // An acknowledgement from the future is a protocol error.
    let a = s.on_ack(7, 9);
    match a {
        Action::Send(Packet::Error(e)) => assert_eq!(e.code, ErrorCode::UnknownTid),
        _ => panic!("expected an error packet"),
    }
    assert_eq!(s.phase, Phase::Failed);
}

#[test]
fn test_sender_rejects_foreign_tid() {
    let data: Vec<u8> = (0..20u8).collect();
    let mut s = Sender::new(data, 8, 5);
    let _ = s.on_ack(7, 1);
    // A packet from another port is answered with UnknownTid and the
    // session state does not move.
    let a = s.on_ack(8, 2);
    match a {
        Action::Reply(tid, Packet::Error(e)) => {
            assert_eq!(tid, 8);
            assert_eq!(e.code, ErrorCode::UnknownTid);
        },
        _ => panic!("expected a reply to the stranger"),
    }
    assert_eq!(s.block, 2);
    assert_eq!(s.phase, Phase::Transferring);
}

#[test]
fn test_receiver_assembles_blocks() {
    let mut r = Receiver::new(8, 5);
    let a = r.on_data(99, &Data { block: 1, payload: (0..8u8).collect() });
    assert_eq!(a, Action::Send(Packet::Ack(Ack { block: 1 })));
    let a = r.on_data(99, &Data { block: 2, payload: vec![8, 9] });
    assert_eq!(a, Action::Send(Packet::Ack(Ack { block: 2 })));
    assert_eq!(r.phase, Phase::Completed);
    assert_eq!(r.into_output(), (0..10u8).collect::<Vec<u8>>());
}

#[test]
fn test_receiver_reacks_duplicate_without_duplicating_output() {
    // A lost acknowledgement makes the peer resend Data(n): the receiver
    // acknowledges it again and appends nothing.
    let mut r = Receiver::new(8, 5);
    let payload: Vec<u8> = (0..8u8).collect();
    let a = r.on_data(99, &Data { block: 1, payload: payload.clone() });
    assert_eq!(a, Action::Send(Packet::Ack(Ack { block: 1 })));
    let a = r.on_data(99, &Data { block: 1, payload: payload.clone() });
    assert_eq!(a, Action::Send(Packet::Ack(Ack { block: 1 })));
    assert_eq!(r.output, payload);
    assert_eq!(r.phase, Phase::Transferring);
    assert_eq!(r.expected, 2);
}

#[test]
fn test_receiver_fails_on_block_from_the_future() {
    let mut r = Receiver::new(8, 5);
    let a = r.on_data(99, &Data { block: 3, payload: vec![1] });
    match a {
        Action::Send(Packet::Error(e)) => assert_eq!(e.code, ErrorCode::UnknownTid),
        _ => panic!("expected an error packet"),
    }
    assert_eq!(r.phase, Phase::Failed);
}

#[test]
fn test_receiver_fails_on_oversized_block() {
    let mut r = Receiver::new(8, 5);
    let a = r.on_data(99, &Data { block: 1, payload: (0..9u8).collect() });
    match a {
        Action::Send(Packet::Error(e)) => assert_eq!(e.code, ErrorCode::IllegalOperation),
        _ => panic!("expected an error packet"),
    }
    assert_eq!(r.phase, Phase::Failed);
}

#[test]
fn test_receiver_timeout_reacks_then_fails() {
    let mut r = Receiver::new(8, 2);
    let _ = r.on_data(99, &Data { block: 1, payload: (0..8u8).collect() });
    for _ in 0..2 {
        let a = r.on_timeout();
        assert_eq!(a, Action::Send(Packet::Ack(Ack { block: 1 })));
    }
    let a = r.on_timeout();
    assert_eq!(a, Action::Idle);
    assert_eq!(r.phase, Phase::Failed);
}

#[test]
fn test_peer_error_fails_the_session() {
    let mut s = Sender::new(vec![1, 2, 3], 8, 5);
    let a = s.on_error(70);
    assert_eq!(a, Action::Idle);
    assert_eq!(s.phase, Phase::Failed);

    let mut r = Receiver::new(8, 5);
    let a = r.on_error(70);
    assert_eq!(a, Action::Idle);
    assert_eq!(r.phase, Phase::Failed);
}

#[test]
fn test_end_to_end_transfer_over_the_codec() {
    // A complete netascii transfer, engine to engine, every packet going
    // through the wire codec: the received text equals the sent text.
    let text = b"The quick brown fox\njumps over the lazy dog\n\nwith a bare \r in it\n".to_vec();
    let mut enc = NaEncoder::new();
    let mut wire_text = enc.push(&text);
    wire_text.extend(enc.finish());

    let mut snd = Sender::new(wire_text, 16, 5);
    let mut rcv = Receiver::new(16, 5);
    let mut in_flight = encode(snd.current_data());
    let mut hops = 0;
    loop {
        hops += 1;
        assert!(hops < 100, "transfer did not converge");
        let p = decode(&in_flight).unwrap();
        match p {
            Packet::Data(d) => match rcv.on_data(1001, &d) {
                Action::Send(reply) => in_flight = encode(reply),
                a => panic!("receiver fell silent: {:?}", a),
            },
            Packet::Ack(a) => match snd.on_ack(2002, a.block) {
                Action::Send(next) => in_flight = encode(next),
                Action::Idle => break,
                a => panic!("sender fell silent: {:?}", a),
            },
            other => panic!("unexpected packet {:?}", other),
        }
    }
    assert_eq!(snd.phase, Phase::Completed);
    assert_eq!(rcv.phase, Phase::Completed);
    let mut dec = NaDecoder::new();
    let mut back = dec.push(&rcv.into_output());
    back.extend(dec.finish());
    assert_eq!(back, text);
}

#[test]
fn test_block_numbers_wrap_around() {
    let mut r = Receiver::new(8, 5);
    r.expected = 65535;
    let _ = r.on_data(99, &Data { block: 65535, payload: (0..8u8).collect() });
    assert_eq!(r.expected, 0);
    // The duplicate of block 65535 is still re-acknowledged after the wrap.
    let a = r.on_data(99, &Data { block: 65535, payload: (0..8u8).collect() });
    assert_eq!(a, Action::Send(Packet::Ack(Ack { block: 65535 })));
    assert_eq!(r.output.len(), 8);
}
