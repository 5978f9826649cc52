use interledger::packet::{Packet, Prepare};
use interledger::router::{Route, Router};
use interledger::service::{before, reject_all, route_prepare, validate_prepare};

fn prepare(expires_at: &[u8], destination: &[u8]) -> Prepare {
    Prepare {
        amount: 1,
        expires_at: expires_at.to_vec(),
        execution_condition: vec![0; 32],
        destination: destination.to_vec(),
        data: vec![],
    }
}

fn code(p: &Packet) -> Vec<u8> {
    match p {
        Packet::Reject(r) => r.code.clone(),
        other => panic!("expected a Reject, got {:?}", other),
    }
}

#[test]
fn expired_prepare_is_rejected() {
    let p = prepare(b"20200101000000000", b"example.bob");
    let r = validate_prepare(&p, b"20200101000000001", b"example.me").unwrap();
    assert_eq!(code(&r), b"R00".to_vec());
    // expiring exactly now counts as expired
    assert!(validate_prepare(&p, b"20200101000000000", b"example.me").is_some());
    assert!(validate_prepare(&p, b"20191231235959999", b"example.me").is_none());
}

#[test]
fn timestamps_compare_bytewise() {
    assert!(before(b"20200101000000000", b"20200101000000001"));
    assert!(!before(b"20200101000000001", b"20200101000000000"));
    assert!(!before(b"20200101000000000", b"20200101000000000"));
    assert!(before(b"20191231235959999", b"20200101000000000"));
}

#[test]
fn rejecter_rejects_everything() {
    let p = prepare(b"20300101000000000", b"example.bob");
    let r = reject_all(&p, b"example.me");
    assert_eq!(code(&r), b"F02".to_vec());
    match r {
        Packet::Reject(j) => assert_eq!(j.triggered_by, b"example.me".to_vec()),
        _ => unreachable!(),
    }
}

#[test]
fn unroutable_prepare_becomes_f02() {
    let router = Router::new(vec![
        Route { prefix: b"a".to_vec(), account_id: 1 },
        Route { prefix: b"a.b".to_vec(), account_id: 2 },
    ]);
    assert_eq!(route_prepare(&router, &prepare(b"20300101000000000", b"a.b.c"), b"me").ok(), Some(2));
    let r = route_prepare(&router, &prepare(b"20300101000000000", b"z"), b"me").unwrap_err();
    assert_eq!(code(&r), b"F02".to_vec());
}
