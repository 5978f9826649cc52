use interledger::packet::{
    decode, encode, Fulfill, InvalidPacketError, Packet, Prepare, Reject, FULFILL_TYPE,
    PREPARE_TYPE,
};

fn sample_prepare(data_len: usize) -> Prepare {
    Prepare {
        amount: 107,
        expires_at: b"20171224161432279".to_vec(),
        execution_condition: vec![0x11; 32],
        destination: b"example.alice".to_vec(),
        data: vec![0x42; data_len],
    }
}

fn as_prepare(p: Packet) -> Prepare {
    match p {
        Packet::Prepare(p) => p,
        other => panic!("expected a Prepare, got {:?}", other),
    }
}

#[test]
fn prepare_round_trip() {
    let p = sample_prepare(5);
    let bytes = encode(&Packet::Prepare(p.clone()));
    assert_eq!(bytes[0], PREPARE_TYPE);
    let back = as_prepare(decode(&bytes).unwrap());
    assert_eq!(back.amount, 107);
    assert_eq!(back.expires_at, p.expires_at);
    assert_eq!(back.execution_condition, p.execution_condition);
    assert_eq!(back.destination, p.destination);
    assert_eq!(back.data, p.data);
}

#[test]
fn prepare_round_trip_long_data() {
    for len in [0usize, 127, 128, 255, 256, 1000, 32767] {
        let p = sample_prepare(len);
        let bytes = encode(&Packet::Prepare(p.clone()));
        let back = as_prepare(decode(&bytes).unwrap());
        assert_eq!(back.data.len(), len);
        assert_eq!(back.data, p.data);
    }
}

#[test]
fn prepare_amount_is_big_endian() {
    let mut p = sample_prepare(0);
    p.amount = 0x0102030405060708;
    let bytes = encode(&Packet::Prepare(p));
    // tag, one-byte length, then the amount
    assert_eq!(&bytes[2..10], &[1, 2, 3, 4, 5, 6, 7, 8]);
}

#[test]
fn fulfill_exact_bytes() {
    let f = Fulfill { fulfillment: vec![7; 32], data: vec![1, 2] };
    let bytes = encode(&Packet::Fulfill(f));
    let mut expected = vec![FULFILL_TYPE, 35];
    expected.extend(vec![7u8; 32]);
    expected.extend(vec![2u8, 1, 2]);
    assert_eq!(bytes, expected);
}

#[test]
fn length_prefix_forms() {
    let f = Fulfill { fulfillment: vec![0; 32], data: vec![9; 200] };
    let bytes = encode(&Packet::Fulfill(f));
    // body is 32 + 2 + 200 = 234 bytes: 0x81 form for the envelope, 0x81 form for data
    assert_eq!(&bytes[0..3], &[FULFILL_TYPE, 0x81, 234]);
    assert_eq!(&bytes[35..37], &[0x81, 200]);
    let f = Fulfill { fulfillment: vec![0; 32], data: vec![9; 300] };
    let bytes = encode(&Packet::Fulfill(f));
    assert_eq!(&bytes[0..4], &[FULFILL_TYPE, 0x82, 0x01, 0x4f]);
}

#[test]
fn reject_round_trip() {
    let r = Reject {
        code: b"F08".to_vec(),
        triggered_by: b"example.connector".to_vec(),
        message: b"too much".to_vec(),
        data: vec![0, 1, 2, 3],
    };
    let bytes = encode(&Packet::Reject(r.clone()));
    match decode(&bytes).unwrap() {
        Packet::Reject(back) => {
            assert_eq!(back.code, r.code);
            assert_eq!(back.triggered_by, r.triggered_by);
            assert_eq!(back.message, r.message);
            assert_eq!(back.data, r.data);
        }
        other => panic!("expected a Reject, got {:?}", other),
    }
}

#[test]
fn reject_with_empty_triggered_by() {
    let r = Reject { code: b"T00".to_vec(), triggered_by: vec![], message: vec![], data: vec![] };
    let bytes = encode(&Packet::Reject(r));
    assert!(matches!(decode(&bytes), Ok(Packet::Reject(_))));
}

#[test]
fn short_buffers_fail() {
    assert_eq!(decode(&[]).unwrap_err(), InvalidPacketError);
    for tag in 0..=255u8 {
        assert!(decode(&[tag]).is_err());
    }
}

#[test]
fn truncated_packets_fail() {
    let bytes = encode(&Packet::Prepare(sample_prepare(10)));
    for cut in 0..bytes.len() {
        assert!(decode(&bytes[..cut]).is_err());
    }
}

#[test]
fn trailing_bytes_fail() {
    let mut bytes = encode(&Packet::Prepare(sample_prepare(10)));
    bytes.push(0);
    assert!(decode(&bytes).is_err());
}

#[test]
fn unknown_type_fails() {
    let mut bytes = encode(&Packet::Prepare(sample_prepare(3)));
    bytes[0] = 99;
    assert!(decode(&bytes).is_err());
}

#[test]
fn non_canonical_length_fails() {
    // a length of 5 written in the two-byte form
    let mut bytes = vec![FULFILL_TYPE, 0x81, 33];
    bytes.extend(vec![0u8; 32]);
    bytes.push(0);
    assert!(decode(&bytes).is_err());
    let mut ok = vec![FULFILL_TYPE, 33];
    ok.extend(vec![0u8; 32]);
    ok.push(0);
    assert!(decode(&ok).is_ok());
}

#[test]
fn invalid_destination_fails() {
    let mut p = sample_prepare(0);
    p.destination = b"example..alice".to_vec();
    // build the bytes by hand, since encode asks for a valid packet
    let good = encode(&Packet::Prepare(sample_prepare(0)));
    let mut body = good[2..].to_vec();
    let at = 57 + 1;
    body.splice(at..at + 13, p.destination.iter().cloned());
    body[57] = p.destination.len() as u8;
    let mut bytes = vec![PREPARE_TYPE, body.len() as u8];
    bytes.extend(body);
    assert!(decode(&bytes).is_err());
}
