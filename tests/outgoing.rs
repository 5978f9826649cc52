use interledger::crypto::unpack_frames;
use interledger::frames::{decode_frames, read_new_address, read_stream_money};
use interledger::outgoing::{build_prepare, reply_of};
use interledger::packet::{decode, encode, Fulfill, Packet, Reject};
use interledger::receiver::Receiver;
use interledger::sender::{Action, Reply, SendState};

const SECRET: [u8; 32] = [8u8; 32];

fn prepare(amount: u64, sequence: u64, handshake: bool) -> interledger::packet::Prepare {
    build_prepare(
        &SECRET,
        &[sequence as u8; 12],
        b"example.receiver",
        b"20300101000000000",
        b"example.sender",
        amount,
        sequence,
        handshake,
    )
}

#[test]
fn built_prepare_carries_frames() {
    let p = prepare(77, 5, true);
    let plain = unpack_frames(&SECRET, &p.data).unwrap();
    assert_eq!(&plain[..8], &5u64.to_be_bytes());
    let frames = decode_frames(&plain[8..]).unwrap();
    assert_eq!(frames.len(), 2);
    assert_eq!(read_new_address(&frames[0]), Some(b"example.sender".to_vec()));
    assert_eq!(read_stream_money(&frames[1]), Some((1, 77)));
    let q = prepare(77, 6, false);
    let frames = decode_frames(&unpack_frames(&SECRET, &q.data).unwrap()[8..]).unwrap();
    assert_eq!(frames.len(), 1);
}

#[test]
fn receiver_fulfills_built_prepare() {
    let mut r = Receiver::new(SECRET.to_vec(), b"example.receiver".to_vec());
    let p = prepare(40, 1, false);
    let wire = encode(&Packet::Prepare(p.clone()));
    let p2 = match decode(&wire).unwrap() {
        Packet::Prepare(p) => p,
        _ => unreachable!(),
    };
    let response = r.handle_prepare(&p2);
    assert!(matches!(reply_of(&p, &response), Reply::Fulfill { valid: true }));
    assert_eq!(r.received, 40);
}

#[test]
fn foreign_receiver_rejects() {
    let mut r = Receiver::new(vec![1u8; 32], b"example.receiver".to_vec());
    let p = prepare(40, 1, false);
    let response = r.handle_prepare(&p);
    match reply_of(&p, &response) {
        Reply::Reject { code, max_amount_hint } => {
            assert_eq!(&code, b"F06");
            assert_eq!(max_amount_hint, None);
        }
        other => panic!("unexpected {:?}", other),
    }
}

#[test]
fn reply_of_reads_f08_hint() {
    let p = prepare(50, 1, false);
    let mut data = Vec::new();
    data.extend(100u64.to_be_bytes());
    data.extend(40u64.to_be_bytes());
    let j = Packet::Reject(Reject { code: b"F08".to_vec(), triggered_by: vec![], message: vec![], data });
    match reply_of(&p, &j) {
        Reply::Reject { code, max_amount_hint } => {
            assert_eq!(&code, b"F08");
            assert_eq!(max_amount_hint, Some(20));
        }
        other => panic!("unexpected {:?}", other),
    }
    let bad = Packet::Fulfill(Fulfill { fulfillment: vec![0; 32], data: vec![] });
    assert!(matches!(reply_of(&p, &bad), Reply::Fulfill { valid: false }));
    assert!(matches!(reply_of(&p, &Packet::Prepare(p.clone())), Reply::Fulfill { valid: false }));
}

#[test]
fn end_to_end_payment() {
    let mut receiver = Receiver::new(SECRET.to_vec(), b"example.receiver".to_vec());
    let (mut state, mut action) = SendState::new(100);
    let mut handshake = true;
    loop {
        match action {
            Action::Send { amount, sequence, .. } => {
                let p = prepare(amount, sequence, handshake);
                handshake = false;
                let response = receiver.handle_prepare(&p);
                action = state.on_reply(reply_of(&p, &response));
            }
            _ => break,
        }
    }
    assert_eq!(action, Action::Done { delivered: 100, sent: 100 });
    assert_eq!(receiver.received, 100);
}

#[test]
fn receiver_learns_sender_address() {
    let mut r = Receiver::new(SECRET.to_vec(), b"example.receiver".to_vec());
    assert!(r.remote_address.is_empty());
    let plain = prepare(10, 2, false);
    r.handle_prepare(&plain);
    assert!(r.remote_address.is_empty());
    let hello = prepare(0, 0, true);
    assert!(matches!(r.handle_prepare(&hello), Packet::Fulfill(_)));
    assert_eq!(r.remote_address, b"example.sender".to_vec());
}

#[test]
fn rejected_packet_teaches_nothing() {
    let mut r = Receiver::new(SECRET.to_vec(), b"example.receiver".to_vec());
    let mut hello = prepare(0, 0, true);
    hello.execution_condition = vec![0; 32];
    assert!(matches!(r.handle_prepare(&hello), Packet::Reject(_)));
    assert!(r.remote_address.is_empty());
}
