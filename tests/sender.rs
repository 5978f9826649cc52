use interledger::sender::{
    amount_hint, Action, FailureKind, Phase, Reply, SendState, BASE_BACKOFF_MS,
    MAX_CONSECUTIVE_REJECTS,
};

/// Drives a payment against `respond`, which answers each Prepare amount; returns the
/// final action and the amounts of all Prepares sent (the handshake included).
fn drive(target: u64, mut respond: impl FnMut(u64) -> Reply) -> (Action, Vec<u64>, SendState) {
    let (mut state, mut action) = SendState::new(target);
    let mut amounts = Vec::new();
    let mut sequences = Vec::new();
    for _ in 0..10_000 {
        match action {
            Action::Send { amount, sequence, .. } => {
                amounts.push(amount);
                assert!(!sequences.contains(&sequence));
                sequences.push(sequence);
                action = state.on_reply(respond(amount));
            }
            _ => return (action, amounts, state),
        }
    }
    panic!("payment did not terminate");
}

const F08: [u8; 3] = *b"F08";
const T00: [u8; 3] = *b"T00";

#[test]
fn always_fulfilled_delivers_exactly() {
    let (action, amounts, state) = drive(100, |_| Reply::Fulfill { valid: true });
    assert_eq!(action, Action::Done { delivered: 100, sent: 100 });
    assert_eq!(amounts, vec![0, 100]);
    assert_eq!(state.phase, Phase::Succeeded);
}

#[test]
fn zero_target_completes_after_handshake() {
    let (action, amounts, _) = drive(0, |_| Reply::Fulfill { valid: true });
    assert_eq!(action, Action::Done { delivered: 0, sent: 0 });
    assert_eq!(amounts, vec![0]);
}

#[test]
fn f08_with_hint_shrinks_packets() {
    // The path carries at most 10 per packet.
    let (action, amounts, _) = drive(100, |a| {
        if a > 10 {
            Reply::Reject { code: F08, max_amount_hint: Some(10) }
        } else {
            Reply::Fulfill { valid: true }
        }
    });
    assert_eq!(action, Action::Done { delivered: 100, sent: 200 });
    assert_eq!(amounts[1], 100);
    assert!(amounts[2..].iter().all(|a| *a == 10));
    assert_eq!(amounts.len(), 2 + 10);
}

#[test]
fn always_f08_reports_partial_delivery() {
    let (action, amounts, state) =
        drive(100, |a| if a == 0 { Reply::Fulfill { valid: true } } else { Reply::Reject { code: F08, max_amount_hint: Some(10) } });
    match action {
        Action::Fail { kind, delivered, .. } => {
            assert_eq!(delivered, 0);
            assert_eq!(kind, FailureKind::TooManyRejectedPackets);
        }
        other => panic!("unexpected {:?}", other),
    }
    assert!(state.max_packet <= 10);
    assert!(amounts[2..].iter().all(|a| *a <= 10));
}

#[test]
fn always_temporary_reject_gives_up() {
    let mut replies = 0;
    let (action, amounts, _) = drive(100, |_| {
        replies += 1;
        Reply::Reject { code: T00, max_amount_hint: None }
    });
    assert_eq!(
        action,
        Action::Fail { kind: FailureKind::TooManyRejectedPackets, delivered: 0, sent: 0 }
    );
    assert_eq!(replies, MAX_CONSECUTIVE_REJECTS as usize);
    assert!(amounts.iter().all(|a| *a == 0));
}

#[test]
fn timeouts_count_as_temporary() {
    let (action, _, _) = drive(50, |a| if a == 0 { Reply::Fulfill { valid: true } } else { Reply::Timeout });
    assert_eq!(
        action,
        Action::Fail { kind: FailureKind::TooManyRejectedPackets, delivered: 0, sent: 50 * 10 }
    );
}

#[test]
fn backoff_doubles() {
    let (mut state, _) = SendState::new(10);
    state.on_reply(Reply::Fulfill { valid: true });
    let mut delays = Vec::new();
    for _ in 0..3 {
        match state.on_reply(Reply::Reject { code: T00, max_amount_hint: None }) {
            Action::Send { delay_ms, .. } => delays.push(delay_ms),
            other => panic!("unexpected {:?}", other),
        }
    }
    assert_eq!(delays, vec![BASE_BACKOFF_MS, 2 * BASE_BACKOFF_MS, 4 * BASE_BACKOFF_MS]);
}

#[test]
fn success_resets_reject_counter() {
    let mut n = 0;
    let (action, _, _) = drive(30, |a| {
        n += 1;
        if a == 0 || n % 5 == 0 {
            Reply::Fulfill { valid: true }
        } else {
            Reply::Reject { code: *b"R00", max_amount_hint: None }
        }
    });
    assert!(matches!(action, Action::Done { delivered: 30, .. }));
}

#[test]
fn final_reject_is_fatal() {
    let (action, _, _) = drive(100, |a| {
        if a == 0 { Reply::Fulfill { valid: true } } else { Reply::Reject { code: *b"F02", max_amount_hint: None } }
    });
    assert_eq!(action, Action::Fail { kind: FailureKind::SendMoney, delivered: 0, sent: 100 });
}

#[test]
fn bad_fulfillment_is_fatal() {
    let (action, _, _) = drive(100, |a| Reply::Fulfill { valid: a == 0 });
    assert_eq!(action, Action::Fail { kind: FailureKind::SendMoney, delivered: 0, sent: 100 });
}

#[test]
fn handshake_final_reject_is_connection_error() {
    let (action, _, _) = drive(100, |_| Reply::Reject { code: *b"F99", max_amount_hint: None });
    assert_eq!(action, Action::Fail { kind: FailureKind::Connection, delivered: 0, sent: 0 });
}

#[test]
fn terminal_state_is_stable() {
    let (action, _, mut state) = drive(5, |_| Reply::Fulfill { valid: true });
    assert_eq!(state.on_reply(Reply::Timeout), action);
}

#[test]
fn f08_hint_from_data() {
    let mut data = Vec::new();
    data.extend(100u64.to_be_bytes());
    data.extend(40u64.to_be_bytes());
    assert_eq!(amount_hint(50, &data), Some(20));
    assert_eq!(amount_hint(50, &data[..15]), None);
    let mut zero = vec![0u8; 8];
    zero.extend(40u64.to_be_bytes());
    assert_eq!(amount_hint(50, &zero), None);
    let mut big = Vec::new();
    big.extend(1u64.to_be_bytes());
    big.extend(u64::MAX.to_be_bytes());
    assert_eq!(amount_hint(3, &big), Some(u64::MAX));
}

#[test]
fn huge_payment_retries_temporary_rejects() {
    let (action, amounts, _) = drive(u64::MAX, |a| {
        if a == 0 {
            Reply::Fulfill { valid: true }
        } else {
            Reply::Reject { code: T00, max_amount_hint: None }
        }
    });
    assert_eq!(
        action,
        Action::Fail { kind: FailureKind::TooManyRejectedPackets, delivered: 0, sent: u64::MAX }
    );
    assert_eq!(amounts.len(), 1 + MAX_CONSECUTIVE_REJECTS as usize);
}
