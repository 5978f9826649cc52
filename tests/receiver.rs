use interledger::crypto::{
    condition_for, condition_from_fulfillment, encryption_key, fulfillment_for,
    fulfillment_matches, pack_frames, unpack_frames, AuthenticationError,
};
use interledger::frames::{encode_frames, new_address, stream_money};
use interledger::packet::{Packet, Prepare};
use interledger::receiver::Receiver;

const SECRET: [u8; 32] = [3u8; 32];
const NONCE: [u8; 12] = [9u8; 12];

/// The data of packet `sequence`: its number, then a money frame for `amount`.
fn stream_plaintext(sequence: u64, amount: u64) -> Vec<u8> {
    let mut plain = sequence.to_be_bytes().to_vec();
    plain.extend(encode_frames(&[stream_money(1, amount)]));
    plain
}

fn prepare_with(secret: &[u8], plain: &[u8], amount: u64) -> Prepare {
    let data = pack_frames(secret, &NONCE, plain);
    Prepare {
        amount,
        expires_at: b"20300101000000000".to_vec(),
        execution_condition: condition_for(secret, &data),
        destination: b"example.receiver".to_vec(),
        data,
    }
}

fn prepare_for(secret: &[u8], sequence: u64, amount: u64) -> Prepare {
    prepare_with(secret, &stream_plaintext(sequence, amount), amount)
}

fn receiver() -> Receiver {
    Receiver::new(SECRET.to_vec(), b"example.receiver".to_vec())
}

fn reject_code(p: &Packet) -> Vec<u8> {
    match p {
        Packet::Reject(r) => r.code.clone(),
        other => panic!("expected a Reject, got {:?}", other),
    }
}

#[test]
fn fulfills_authentic_prepare() {
    let mut r = receiver();
    let p = prepare_for(&SECRET, 1, 40);
    match r.handle_prepare(&p) {
        Packet::Fulfill(f) => {
            assert_eq!(f.fulfillment.len(), 32);
            assert!(fulfillment_matches(&f.fulfillment, &p.execution_condition));
            assert_eq!(f.fulfillment, fulfillment_for(&SECRET, &p.data));
        }
        other => panic!("expected a Fulfill, got {:?}", other),
    }
    assert_eq!(r.received, 40);
}

#[test]
fn redelivery_is_idempotent() {
    let mut r = receiver();
    let p = prepare_for(&SECRET, 1, 40);
    let first = r.handle_prepare(&p);
    let second = r.handle_prepare(&p);
    match (first, second) {
        (Packet::Fulfill(a), Packet::Fulfill(b)) => {
            assert_eq!(a.fulfillment, b.fulfillment);
            assert_eq!(a.data, b.data);
        }
        other => panic!("expected two Fulfills, got {:?}", other),
    }
    assert_eq!(r.received, 40);
    let q = prepare_for(&SECRET, 2, 2);
    assert!(matches!(r.handle_prepare(&q), Packet::Fulfill(_)));
    assert_eq!(r.received, 42);
}

#[test]
fn unauthenticated_data_is_rejected() {
    let mut r = receiver();
    let mut p = prepare_for(&[5u8; 32], 1, 40);
    // the condition matches the data, but the data was sealed under another key
    p.execution_condition = condition_for(&SECRET, &p.data);
    assert_eq!(reject_code(&r.handle_prepare(&p)), b"F06".to_vec());
    // tampered data, whatever the condition
    let mut q = prepare_for(&SECRET, 1, 40);
    q.data[20] ^= 1;
    assert_eq!(reject_code(&r.handle_prepare(&q)), b"F06".to_vec());
    q.execution_condition = condition_for(&SECRET, &q.data);
    assert_eq!(reject_code(&r.handle_prepare(&q)), b"F06".to_vec());
    // data too short to hold a nonce
    q.data = vec![1, 2, 3];
    assert_eq!(reject_code(&r.handle_prepare(&q)), b"F06".to_vec());
    assert_eq!(r.received, 0);
}

#[test]
fn wrong_condition_is_rejected() {
    let mut r = receiver();
    let mut p = prepare_for(&SECRET, 1, 40);
    p.execution_condition = vec![0u8; 32];
    let resp = r.handle_prepare(&p);
    assert_eq!(reject_code(&resp), b"F05".to_vec());
    match resp {
        Packet::Reject(j) => assert_eq!(j.triggered_by, b"example.receiver".to_vec()),
        _ => unreachable!(),
    }
    assert_eq!(r.received, 0);
}

#[test]
fn decide_on_given_values() {
    let mut r = receiver();
    let p = Prepare {
        amount: 5,
        expires_at: b"20300101000000000".to_vec(),
        execution_condition: vec![1u8; 32],
        destination: b"example.receiver".to_vec(),
        data: vec![],
    };
    assert_eq!(reject_code(&r.decide(&p, false, true, &[7u8; 32], &[1u8; 32], None)), b"F06".to_vec());
    assert_eq!(reject_code(&r.decide(&p, true, true, &[7u8; 32], &[2u8; 32], None)), b"F05".to_vec());
    assert_eq!(reject_code(&r.decide(&p, true, false, &[7u8; 32], &[1u8; 32], None)), b"F99".to_vec());
    match r.decide(&p, true, true, &[7u8; 32], &[1u8; 32], Some(b"example.s".to_vec())) {
        Packet::Fulfill(f) => assert_eq!(f.fulfillment, vec![7u8; 32]),
        other => panic!("expected a Fulfill, got {:?}", other),
    }
    assert_eq!(r.received, 5);
    assert_eq!(r.remote_address, b"example.s".to_vec());
    let mut big = p.clone();
    big.execution_condition = vec![4u8; 32];
    big.amount = u64::MAX;
    assert_eq!(reject_code(&r.decide(&big, true, true, &[7u8; 32], &[4u8; 32], None)), b"F08".to_vec());
    assert_eq!(r.received, 5);
}

#[test]
fn frames_round_trip() {
    let data = pack_frames(&SECRET, &NONCE, b"hello frames");
    assert_eq!(data.len(), 12 + 12 + 16);
    assert_eq!(&data[..12], &NONCE);
    assert_ne!(&data[12..24], b"hello frames");
    assert_eq!(unpack_frames(&SECRET, &data), Ok(b"hello frames".to_vec()));
    assert_eq!(unpack_frames(&[1u8; 32], &data), Err(AuthenticationError));
}

#[test]
fn sha256_known_value() {
    let empty = condition_from_fulfillment(&[]);
    let hex: String = empty.iter().map(|b| format!("{:02x}", b)).collect();
    assert_eq!(hex, "e3b0c44298fc1c149afbf4c8996fb92427ae41e4649b934ca495991b7852b855");
}

#[test]
fn derived_keys_differ_from_inputs() {
    let k = encryption_key(&SECRET);
    assert_eq!(k.len(), 32);
    assert_ne!(k, SECRET.to_vec());
    let f = fulfillment_for(&SECRET, b"data");
    assert_eq!(f.len(), 32);
    assert_ne!(f, k);
    assert_eq!(condition_for(&SECRET, b"data"), condition_from_fulfillment(&f));
}

#[test]
fn expired_prepare_is_not_fulfilled() {
    let mut r = receiver();
    let p = prepare_for(&SECRET, 1, 40);
    let late = r.handle_prepare_at(&p, b"20300101000000000");
    assert_eq!(reject_code(&late), b"R00".to_vec());
    assert_eq!(r.received, 0);
    assert!(matches!(r.handle_prepare_at(&p, b"20291231235959999"), Packet::Fulfill(_)));
    assert_eq!(r.received, 40);
}

#[test]
fn receive_max_is_enforced() {
    let mut r = receiver();
    r.set_receive_max(50);
    let p = prepare_for(&SECRET, 1, 40);
    assert!(matches!(r.handle_prepare(&p), Packet::Fulfill(_)));
    let q = prepare_for(&SECRET, 2, 20);
    assert_eq!(reject_code(&r.handle_prepare(&q)), b"F08".to_vec());
    assert_eq!(r.received, 40);
    let small = prepare_for(&SECRET, 3, 10);
    assert!(matches!(r.handle_prepare(&small), Packet::Fulfill(_)));
    assert_eq!(r.received, 50);
}

#[test]
fn unreadable_frames_are_rejected() {
    let mut r = receiver();
    // authentic data whose plaintext is not a frame sequence
    let p = prepare_with(&SECRET, b"12345678 not frames", 40);
    assert_eq!(reject_code(&r.handle_prepare(&p)), b"F06".to_vec());
    // authentic data too short to hold the sequence number
    let q = prepare_with(&SECRET, b"short", 40);
    assert_eq!(reject_code(&r.handle_prepare(&q)), b"F06".to_vec());
    assert_eq!(r.received, 0);
    assert!(r.remote_address.is_empty());
}

#[test]
fn money_needs_a_money_frame() {
    let mut r = receiver();
    let mut plain = 9u64.to_be_bytes().to_vec();
    plain.extend(encode_frames(&[new_address(b"example.sender")]));
    let p = prepare_with(&SECRET, &plain, 40);
    assert_eq!(reject_code(&r.handle_prepare(&p)), b"F99".to_vec());
    assert_eq!(r.received, 0);
    assert!(r.remote_address.is_empty());
    // without money, a packet needs no money frame
    let hello = prepare_with(&SECRET, &plain, 0);
    assert!(matches!(r.handle_prepare(&hello), Packet::Fulfill(_)));
    assert_eq!(r.remote_address, b"example.sender".to_vec());
    // a money frame with no share does not carry the money
    let mut zero = 10u64.to_be_bytes().to_vec();
    zero.extend(encode_frames(&[stream_money(1, 0)]));
    assert_eq!(reject_code(&r.handle_prepare(&prepare_with(&SECRET, &zero, 5))), b"F99".to_vec());
}
