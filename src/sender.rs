use vstd::prelude::*;
use crate::packet::{be64_at, read_u64};

verus! {

/// Consecutive temporary failures after which a payment gives up.
pub const MAX_CONSECUTIVE_REJECTS: u32 = 10;

/// Delay before the first retry after a temporary failure.
pub const BASE_BACKOFF_MS: u64 = 100;

/// `F`, the class of final errors.
pub const CLASS_FINAL: u8 = 0x46;

/// Why a payment stopped before delivering its target amount.
#[derive(Debug, Clone, Copy, PartialEq, Eq, Structural)]
pub enum FailureKind {
    Connection,
    SendMoney,
    TooManyRejectedPackets,
}

#[derive(Debug, Clone, Copy, PartialEq, Eq, Structural)]
pub enum Phase {
    Connecting,
    Sending,
    Succeeded,
    Failed(FailureKind),
}

/// The terminal response to the packet in flight, as seen by the sender.
#[derive(Debug, Clone, Copy)]
pub enum Reply {
    /// A Fulfill; `valid` tells whether its fulfillment hashes to the condition.
    Fulfill { valid: bool },
    /// A Reject with its code and, for `F08`, the largest amount the path accepts.
    Reject { code: [u8; 3], max_amount_hint: Option<u64> },
    /// No response before the packet expired.
    Timeout,
}

/// What the driver of the payment does next.
#[derive(Debug, Clone, Copy, PartialEq, Eq, Structural)]
pub enum Action {
    /// Wait `delay_ms`, then send a Prepare of `amount` numbered `sequence`.
    Send { amount: u64, sequence: u64, delay_ms: u64 },
    /// The payment is complete.
    Done { delivered: u64, sent: u64 },
    /// The payment stopped; `delivered` is what arrived before it did.
    Fail { kind: FailureKind, delivered: u64, sent: u64 },
}

/// The loop-carried state of one outgoing payment.
#[derive(Debug, Clone, Copy)]
pub struct SendState {
    pub phase: Phase,
    pub target: u64,
    pub delivered: u64,
    pub sent: u64,
    pub in_flight: u64,
    pub max_packet: u64,
    pub max_packet_ceiling: u64,
    pub consecutive_rejects: u32,
    pub next_sequence: u64,
}

pub open spec fn is_f08(code: [u8; 3]) -> bool {
    code@[0] == CLASS_FINAL && code@[1] == 0x30 && code@[2] == 0x38
}

/// Delay before the `n`-th consecutive retry: doubles from the base each time.
pub open spec fn backoff_ms(n: u32) -> nat
    decreases n,
{
    if n <= 1 {
        BASE_BACKOFF_MS as nat
    } else {
        2 * backoff_ms((n - 1) as u32)
    }
}

/// The amount sent after a further packet of `amount`: the sum, held at `u64::MAX` once
/// it would pass it. The total is only reported, so reaching the cap never ends a payment.
pub open spec fn sent_after(sent: u64, amount: u64) -> u64 {
    if sent + amount > u64::MAX {
        u64::MAX
    } else {
        (sent + amount) as u64
    }
}

/// The smaller packet limit after an `F08` on a packet of `amount`, if it can shrink.
pub open spec fn shrunk_limit(amount: u64, hint: Option<u64>) -> Option<u64> {
    match hint {
        Some(h) if 0 < h && h < amount => Some(h),
        _ => if amount >= 2 {
            Some((amount / 2) as u64)
        } else {
            None
        },
    }
}

/// The packet limit after a success: doubled, but never above the ceiling.
pub open spec fn grown_limit(m: u64, ceiling: u64) -> u64 {
    if m <= ceiling / 2 {
        (2 * m) as u64
    } else {
        ceiling
    }
}

proof fn lemma_backoff_monotone(a: u32, b: u32)
    requires
        a <= b,
    ensures
        backoff_ms(a) <= backoff_ms(b),
    decreases b - a,
{
    if a < b {
        lemma_backoff_monotone(a, (b - 1) as u32);
    }
}

/// Computes `backoff_ms(n)` for a retry below the ceiling.
fn backoff(n: u32) -> (r: u64)
    requires
        1 <= n < MAX_CONSECUTIVE_REJECTS,
    ensures
        r == backoff_ms(n),
{
    proof {
        reveal_with_fuel(backoff_ms, 10);
        assert(backoff_ms(9) == 25600);
    }
    let mut d: u64 = BASE_BACKOFF_MS;
    let mut i: u32 = 1;
    while i < n
        invariant
            1 <= i,
            n < MAX_CONSECUTIVE_REJECTS,
            i <= n,
            d == backoff_ms(i),
            backoff_ms(9) == 25600,
        decreases n - i,
    {
        proof {
            lemma_backoff_monotone((i + 1) as u32, 9);
        }
        d = d * 2;
        i = i + 1;
    }
    d
}

/// Every reply keeps the state well formed.
pub proof fn lemma_on_reply_wf(s: SendState, reply: Reply)
    requires
        s.wf(),
    ensures
        s.spec_on_reply(reply).0.wf(),
{
}

impl SendState {
    pub open spec fn wf(self) -> bool {
        &&& self.delivered <= self.target
        &&& 1 <= self.max_packet <= self.max_packet_ceiling
        &&& self.consecutive_rejects < MAX_CONSECUTIVE_REJECTS
        &&& self.phase == Phase::Sending ==> {
            &&& 1 <= self.in_flight <= self.max_packet
            &&& self.delivered + self.in_flight <= self.target
        }
        &&& self.phase == Phase::Connecting ==> self.in_flight == 0
    }

    pub open spec fn action_of_terminal(self) -> Action {
        match self.phase {
            Phase::Failed(kind) => Action::Fail { kind, delivered: self.delivered, sent: self.sent },
            _ => Action::Done { delivered: self.delivered, sent: self.sent },
        }
    }

    pub open spec fn spec_fail(self, kind: FailureKind) -> (SendState, Action) {
        (
            SendState { phase: Phase::Failed(kind), ..self },
            Action::Fail { kind, delivered: self.delivered, sent: self.sent },
        )
    }

    /// Issues the next packet, or finishes once the target is reached.
    pub open spec fn spec_continue(self, delay_ms: u64) -> (SendState, Action) {
        if self.delivered >= self.target {
            (
                SendState { phase: Phase::Succeeded, in_flight: 0, ..self },
                Action::Done { delivered: self.delivered, sent: self.sent },
            )
        } else {
            let rest = (self.target - self.delivered) as u64;
            let amount = if rest < self.max_packet {
                rest
            } else {
                self.max_packet
            };
            if self.next_sequence == u64::MAX {
                self.spec_fail(FailureKind::SendMoney)
            } else {
                (
                    SendState {
                        phase: Phase::Sending,
                        in_flight: amount,
                        sent: sent_after(self.sent, amount),
                        next_sequence: (self.next_sequence + 1) as u64,
                        ..self
                    },
                    Action::Send { amount, sequence: self.next_sequence, delay_ms },
                )
            }
        }
    }

    /// Sends the handshake packet again under a fresh sequence number.
    pub open spec fn spec_resend_handshake(self, delay_ms: u64) -> (SendState, Action) {
        if self.next_sequence == u64::MAX {
            self.spec_fail(FailureKind::Connection)
        } else {
            (
                SendState { next_sequence: (self.next_sequence + 1) as u64, ..self },
                Action::Send { amount: 0, sequence: self.next_sequence, delay_ms },
            )
        }
    }

    /// A temporary failure: retry after a backoff, or give up at the ceiling.
    pub open spec fn spec_temporary(self) -> (SendState, Action) {
        let n = self.consecutive_rejects + 1;
        if n >= MAX_CONSECUTIVE_REJECTS {
            self.spec_fail(FailureKind::TooManyRejectedPackets)
        } else if self.phase == Phase::Connecting {
            SendState { consecutive_rejects: n as u32, ..self }.spec_resend_handshake(
                backoff_ms(n as u32) as u64,
            )
        } else {
            SendState { consecutive_rejects: n as u32, ..self }.spec_continue(
                backoff_ms(n as u32) as u64,
            )
        }
    }

    /// The transition taken on a reply to the packet in flight.
    pub open spec fn spec_on_reply(self, reply: Reply) -> (SendState, Action) {
        match self.phase {
            Phase::Connecting => match reply {
                Reply::Fulfill { valid: true } => SendState {
                    phase: Phase::Sending,
                    consecutive_rejects: 0,
                    ..self
                }.spec_continue(0),
                Reply::Fulfill { valid: false } => self.spec_fail(FailureKind::Connection),
                Reply::Reject { code, max_amount_hint: _ } => if code@[0] == CLASS_FINAL {
                    self.spec_fail(FailureKind::Connection)
                } else {
                    self.spec_temporary()
                },
                Reply::Timeout => self.spec_temporary(),
            },
            Phase::Sending => match reply {
                Reply::Fulfill { valid: true } => SendState {
                    delivered: (self.delivered + self.in_flight) as u64,
                    consecutive_rejects: 0,
                    max_packet: grown_limit(self.max_packet, self.max_packet_ceiling),
                    ..self
                }.spec_continue(0),
                Reply::Fulfill { valid: false } => self.spec_fail(FailureKind::SendMoney),
                Reply::Reject { code, max_amount_hint } => if is_f08(code) {
                    match shrunk_limit(self.in_flight, max_amount_hint) {
                        Some(m) => SendState {
                            max_packet: m,
                            max_packet_ceiling: m,
                            ..self
                        }.spec_continue(0),
                        None => self.spec_temporary(),
                    }
                } else if code@[0] == CLASS_FINAL {
                    self.spec_fail(FailureKind::SendMoney)
                } else {
                    self.spec_temporary()
                },
                Reply::Timeout => self.spec_temporary(),
            },
            _ => (self, self.action_of_terminal()),
        }
    }

    /// The state of a payment of `target` that has not started.
    pub open spec fn spec_new(target: u64) -> SendState {
        SendState {
            phase: Phase::Connecting,
            target,
            delivered: 0,
            sent: 0,
            in_flight: 0,
            max_packet: u64::MAX,
            max_packet_ceiling: u64::MAX,
            consecutive_rejects: 0,
            next_sequence: 1,
        }
    }

    /// The handshake packet: zero amount, sequence zero.
    pub open spec fn spec_handshake() -> Action {
        Action::Send { amount: 0, sequence: 0, delay_ms: 0 }
    }

    /// Starts a payment of `target`; the returned action sends the handshake packet.
    pub fn new(target: u64) -> (r: (SendState, Action))
        ensures
            r.0 == SendState::spec_new(target),
            r.1 == SendState::spec_handshake(),
            r.0.wf(),
    {
        (
            SendState {
                phase: Phase::Connecting,
                target,
                delivered: 0,
                sent: 0,
                in_flight: 0,
                max_packet: u64::MAX,
                max_packet_ceiling: u64::MAX,
                consecutive_rejects: 0,
                next_sequence: 1,
            },
            Action::Send { amount: 0, sequence: 0, delay_ms: 0 },
        )
    }

    fn fail(&mut self, kind: FailureKind) -> (r: Action)
        ensures
            (*final(self), r) == old(self).spec_fail(kind),
    {
        self.phase = Phase::Failed(kind);
        Action::Fail { kind, delivered: self.delivered, sent: self.sent }
    }

    fn continue_sending(&mut self, delay_ms: u64) -> (r: Action)
        ensures
            (*final(self), r) == old(self).spec_continue(delay_ms),
    {
        if self.delivered >= self.target {
            self.phase = Phase::Succeeded;
            self.in_flight = 0;
            return Action::Done { delivered: self.delivered, sent: self.sent };
        }
        let rest = self.target - self.delivered;
        let amount = if rest < self.max_packet {
            rest
        } else {
            self.max_packet
        };
        if self.next_sequence == u64::MAX {
            return self.fail(FailureKind::SendMoney);
        }
        let sequence = self.next_sequence;
        self.phase = Phase::Sending;
        self.in_flight = amount;
        self.sent = if self.sent > u64::MAX - amount {
            u64::MAX
        } else {
            self.sent + amount
        };
        self.next_sequence = sequence + 1;
        Action::Send { amount, sequence, delay_ms }
    }

    fn retry_later(&mut self) -> (r: Action)
        requires
            old(self).consecutive_rejects < MAX_CONSECUTIVE_REJECTS,
            old(self).phase == Phase::Connecting || old(self).phase == Phase::Sending,
        ensures
            (*final(self), r) == old(self).spec_temporary(),
    {
        let n = self.consecutive_rejects + 1;
        if n >= MAX_CONSECUTIVE_REJECTS {
            return self.fail(FailureKind::TooManyRejectedPackets);
        }
        self.consecutive_rejects = n;
        let delay = backoff(n);
        if self.phase == Phase::Connecting {
            if self.next_sequence == u64::MAX {
                return self.fail(FailureKind::Connection);
            }
            let sequence = self.next_sequence;
            self.next_sequence = sequence + 1;
            Action::Send { amount: 0, sequence, delay_ms: delay }
        } else {
            self.continue_sending(delay)
        }
    }

    /// Advances the payment on the reply to the packet in flight.
    pub fn on_reply(&mut self, reply: Reply) -> (r: Action)
        requires
            old(self).wf(),
        ensures
            (*final(self), r) == old(self).spec_on_reply(reply),
            final(self).wf(),
    {
        proof {
            lemma_on_reply_wf(*self, reply);
        }
        match self.phase {
            Phase::Connecting => match reply {
                Reply::Fulfill { valid: true } => {
                    self.phase = Phase::Sending;
                    self.consecutive_rejects = 0;
                    self.continue_sending(0)
                },
                Reply::Fulfill { valid: false } => self.fail(FailureKind::Connection),
                Reply::Reject { code, max_amount_hint: _ } => {
                    if code[0] == CLASS_FINAL {
                        self.fail(FailureKind::Connection)
                    } else {
                        self.retry_later()
                    }
                },
                Reply::Timeout => self.retry_later(),
            },
            Phase::Sending => match reply {
                Reply::Fulfill { valid: true } => {
                    self.delivered = self.delivered + self.in_flight;
                    self.consecutive_rejects = 0;
                    self.max_packet = if self.max_packet <= self.max_packet_ceiling / 2 {
                        2 * self.max_packet
                    } else {
                        self.max_packet_ceiling
                    };
                    self.continue_sending(0)
                },
                Reply::Fulfill { valid: false } => self.fail(FailureKind::SendMoney),
                Reply::Reject { code, max_amount_hint } => {
                    if code[0] == CLASS_FINAL && code[1] == 0x30 && code[2] == 0x38 {
                        let shrunk = match max_amount_hint {
                            Some(h) if 0 < h && h < self.in_flight => Some(h),
                            _ => if self.in_flight >= 2 {
                                Some(self.in_flight / 2)
                            } else {
                                None
                            },
                        };
                        match shrunk {
                            Some(m) => {
                                self.max_packet = m;
                                self.max_packet_ceiling = m;
                                self.continue_sending(0)
                            },
                            None => self.retry_later(),
                        }
                    } else if code[0] == CLASS_FINAL {
                        self.fail(FailureKind::SendMoney)
                    } else {
                        self.retry_later()
                    }
                },
                Reply::Timeout => self.retry_later(),
            },
            Phase::Succeeded => Action::Done { delivered: self.delivered, sent: self.sent },
            Phase::Failed(kind) => Action::Fail { kind, delivered: self.delivered, sent: self.sent },
        }
    }
}

/// Length of the data of an `F08` reject: the amount that arrived, then the most allowed.
pub const F08_DATA_LEN: usize = 16;

/// The packet limit that an `F08` reject's data suggests for a packet of `amount`: the
/// amount scaled by the allowed maximum over the amount that arrived, capped at `u64::MAX`.
pub open spec fn amount_hint_of(amount: u64, data: Seq<u8>) -> Option<u64> {
    if data.len() != F08_DATA_LEN || be64_at(data, 0) == 0 {
        None
    } else {
        let h = amount as int * be64_at(data, 8) as int / be64_at(data, 0) as int;
        Some(
            if h > u64::MAX {
                u64::MAX
            } else {
                h as u64
            },
        )
    }
}

/// Reads the packet-limit hint out of an `F08` reject's data.
pub fn amount_hint(amount: u64, data: &[u8]) -> (r: Option<u64>)
    ensures
        r == amount_hint_of(amount, data@),
{
    if data.len() != F08_DATA_LEN {
        return None;
    }
    let received = read_u64(data, 0);
    let maximum = read_u64(data, 8);
    if received == 0 {
        return None;
    }
    proof {
        assert(amount as int * maximum as int <= u64::MAX as int * u64::MAX as int) by (nonlinear_arith)
            requires
                amount <= u64::MAX,
                maximum <= u64::MAX,
        ;
    }
    let product = (amount as u128) * (maximum as u128);
    let h = product / (received as u128);
    if h > u64::MAX as u128 {
        Some(u64::MAX)
    } else {
        Some(h as u64)
    }
}

// ---- laws of the payment state machine ----

/// The state after `n` replies that are all `reply`.
pub open spec fn run_with(s: SendState, reply: Reply, n: nat) -> SendState
    decreases n,
{
    if n == 0 {
        s
    } else {
        run_with(s.spec_on_reply(reply).0, reply, (n - 1) as nat)
    }
}

pub open spec fn is_terminal(p: Phase) -> bool {
    p == Phase::Succeeded || p is Failed
}

proof fn lemma_terminal_stays(s: SendState, reply: Reply, n: nat)
    requires
        is_terminal(s.phase),
    ensures
        run_with(s, reply, n) == s,
    decreases n,
{
    if n > 0 {
        lemma_terminal_stays(s, reply, (n - 1) as nat);
    }
}

proof fn lemma_run_snoc(s: SendState, reply: Reply, n: nat)
    ensures
        run_with(s, reply, n + 1) == run_with(s, reply, n).spec_on_reply(reply).0,
    decreases n,
{
    let t = s.spec_on_reply(reply).0;
    assert(run_with(s, reply, n + 1) == run_with(t, reply, n));
    if n > 0 {
        lemma_run_snoc(t, reply, (n - 1) as nat);
        assert(run_with(s, reply, n) == run_with(t, reply, (n - 1) as nat));
    } else {
        assert(run_with(t, reply, 0) == t);
    }
}

/// When every packet is fulfilled, the payment succeeds having delivered exactly its
/// target and sent exactly its target.
pub proof fn lemma_all_fulfilled(target: u64, n: nat)
    requires
        n >= 2,
    ensures
        run_with(SendState::spec_new(target), Reply::Fulfill { valid: true }, n).phase
            == Phase::Succeeded,
        run_with(SendState::spec_new(target), Reply::Fulfill { valid: true }, n).delivered
            == target,
        run_with(SendState::spec_new(target), Reply::Fulfill { valid: true }, n).sent == target,
{
    let r = Reply::Fulfill { valid: true };
    let s0 = SendState::spec_new(target);
    let s1 = s0.spec_on_reply(r).0;
    let s2 = s1.spec_on_reply(r).0;
    assert(run_with(s0, r, n) == run_with(s1, r, (n - 1) as nat));
    if target == 0 {
        lemma_terminal_stays(s1, r, (n - 1) as nat);
    } else {
        assert(run_with(s1, r, (n - 1) as nat) == run_with(s2, r, (n - 2) as nat));
        lemma_terminal_stays(s2, r, (n - 2) as nat);
    }
}

/// After an `F08` whose hint is below the amount in flight, the packet ceiling is at most
/// the hint, and so is the next packet.
pub proof fn lemma_f08_caps_packets(s: SendState, code: [u8; 3], hint: u64)
    requires
        s.wf(),
        s.phase == Phase::Sending,
        is_f08(code),
        0 < hint < s.in_flight,
    ensures
        s.spec_on_reply(Reply::Reject { code, max_amount_hint: Some(hint) }).0.max_packet_ceiling
            <= hint,
        s.spec_on_reply(Reply::Reject { code, max_amount_hint: Some(hint) }).1 matches Action::Send {
            amount,
            ..
        } ==> amount <= hint,
{
}

/// The packet ceiling never rises, and every packet sent fits under it.
pub proof fn lemma_ceiling_holds(s: SendState, reply: Reply)
    requires
        s.wf(),
    ensures
        s.spec_on_reply(reply).0.max_packet_ceiling <= s.max_packet_ceiling,
        s.spec_on_reply(reply).1 matches Action::Send { amount, .. } ==> amount
            <= s.spec_on_reply(reply).0.max_packet_ceiling,
{
}

pub open spec fn phase_rank(p: Phase) -> nat {
    if p == Phase::Connecting {
        1
    } else {
        0
    }
}

/// `t` is strictly closer to the end of the payment than `s`: ordered by phase, amount
/// left to deliver, packet limit, then retries left.
pub open spec fn closer(t: SendState, s: SendState) -> bool {
    let (a1, b1, c1, d1) = (
        phase_rank(t.phase),
        t.target - t.delivered,
        t.max_packet as int,
        MAX_CONSECUTIVE_REJECTS - t.consecutive_rejects,
    );
    let (a2, b2, c2, d2) = (
        phase_rank(s.phase),
        s.target - s.delivered,
        s.max_packet as int,
        MAX_CONSECUTIVE_REJECTS - s.consecutive_rejects,
    );
    a1 < a2 || (a1 == a2 && (b1 < b2 || (b1 == b2 && (c1 < c2 || (c1 == c2 && d1 < d2)))))
}

/// Every reply either ends the payment or brings it strictly closer to its end, so a
/// payment always terminates.
pub proof fn lemma_progress(s: SendState, reply: Reply)
    requires
        s.wf(),
        !is_terminal(s.phase),
    ensures
        is_terminal(s.spec_on_reply(reply).0.phase) || closer(s.spec_on_reply(reply).0, s),
{
}

proof fn lemma_temporary_prefix(target: u64, code: [u8; 3], k: nat)
    requires
        code@[0] != CLASS_FINAL,
        k < MAX_CONSECUTIVE_REJECTS,
    ensures
        run_with(SendState::spec_new(target), Reply::Reject { code, max_amount_hint: None }, k)
            == (SendState {
            consecutive_rejects: k as u32,
            next_sequence: (1 + k) as u64,
            ..SendState::spec_new(target)
        }),
    decreases k,
{
    let r = Reply::Reject { code, max_amount_hint: None };
    if k > 0 {
        lemma_temporary_prefix(target, code, (k - 1) as nat);
        lemma_run_snoc(SendState::spec_new(target), r, (k - 1) as nat);
    }
}

/// When every reply is a temporary reject, the payment is still connecting after each of
/// the first rejects below the ceiling, and fails for too many rejected packets at the
/// ceiling, having delivered nothing.
pub proof fn lemma_all_temporary(target: u64, code: [u8; 3])
    requires
        code@[0] != CLASS_FINAL,
    ensures
        forall|k: nat|
            k < MAX_CONSECUTIVE_REJECTS ==> #[trigger] run_with(
                SendState::spec_new(target),
                Reply::Reject { code, max_amount_hint: None },
                k,
            ).phase == Phase::Connecting,
        run_with(
            SendState::spec_new(target),
            Reply::Reject { code, max_amount_hint: None },
            MAX_CONSECUTIVE_REJECTS as nat,
        ).phase == Phase::Failed(FailureKind::TooManyRejectedPackets),
        run_with(
            SendState::spec_new(target),
            Reply::Reject { code, max_amount_hint: None },
            MAX_CONSECUTIVE_REJECTS as nat,
        ).delivered == 0,
{
    let r = Reply::Reject { code, max_amount_hint: None };
    assert forall|k: nat| k < MAX_CONSECUTIVE_REJECTS implies #[trigger] run_with(
        SendState::spec_new(target),
        r,
        k,
    ).phase == Phase::Connecting by {
        lemma_temporary_prefix(target, code, k);
    }
    let m = (MAX_CONSECUTIVE_REJECTS - 1) as nat;
    lemma_temporary_prefix(target, code, m);
    lemma_run_snoc(SendState::spec_new(target), r, m);
}

/// Every packet sent takes the next sequence number, which is never handed out again, and
/// its amount is added to the amount sent; nothing else changes the amount sent.
pub proof fn lemma_sends_numbered_and_counted(s: SendState, reply: Reply)
    requires
        s.wf(),
    ensures
        s.spec_on_reply(reply).1 matches Action::Send { amount, sequence, .. } ==> sequence
            == s.next_sequence && s.spec_on_reply(reply).0.next_sequence == sequence + 1
            && s.spec_on_reply(reply).0.sent == sent_after(s.sent, amount),
        !(s.spec_on_reply(reply).1 is Send) ==> s.spec_on_reply(reply).0.sent == s.sent,
        s.spec_on_reply(reply).0.next_sequence >= s.next_sequence,
{
}

proof fn lemma_temporary_run_sending(s: SendState, code: [u8; 3], k: nat)
    requires
        s.wf(),
        s.phase == Phase::Sending,
        code@[0] != CLASS_FINAL,
        s.consecutive_rejects + k < MAX_CONSECUTIVE_REJECTS,
        s.next_sequence + k < u64::MAX,
    ensures
        run_with(s, Reply::Reject { code, max_amount_hint: None }, k).wf(),
        run_with(s, Reply::Reject { code, max_amount_hint: None }, k).phase == Phase::Sending,
        run_with(s, Reply::Reject { code, max_amount_hint: None }, k).delivered == s.delivered,
        run_with(s, Reply::Reject { code, max_amount_hint: None }, k).consecutive_rejects
            == s.consecutive_rejects + k,
        run_with(s, Reply::Reject { code, max_amount_hint: None }, k).next_sequence
            == s.next_sequence + k,
    decreases k,
{
    let r = Reply::Reject { code, max_amount_hint: None };
    if k > 0 {
        lemma_temporary_run_sending(s, code, (k - 1) as nat);
        lemma_run_snoc(s, r, (k - 1) as nat);
        lemma_on_reply_wf(run_with(s, r, (k - 1) as nat), r);
    }
}

/// Once money is being sent, temporary rejects of every packet end the payment for too
/// many rejected packets, however large the amounts, with the delivered amount unchanged.
pub proof fn lemma_temporary_rejects_exhaust(s: SendState, code: [u8; 3])
    requires
        s.wf(),
        s.phase == Phase::Sending,
        code@[0] != CLASS_FINAL,
        s.next_sequence + MAX_CONSECUTIVE_REJECTS < u64::MAX,
    ensures
        run_with(
            s,
            Reply::Reject { code, max_amount_hint: None },
            (MAX_CONSECUTIVE_REJECTS - s.consecutive_rejects) as nat,
        ).phase == Phase::Failed(FailureKind::TooManyRejectedPackets),
        run_with(
            s,
            Reply::Reject { code, max_amount_hint: None },
            (MAX_CONSECUTIVE_REJECTS - s.consecutive_rejects) as nat,
        ).delivered == s.delivered,
{
    let r = Reply::Reject { code, max_amount_hint: None };
    let m = (MAX_CONSECUTIVE_REJECTS - s.consecutive_rejects - 1) as nat;
    lemma_temporary_run_sending(s, code, m);
    lemma_run_snoc(s, r, m);
}

/// When every packet is refused with `F08`, whatever the hint, the payment ends: it fails,
/// reporting as delivered exactly what was delivered before the refusals began.
pub proof fn lemma_all_f08_ends(s: SendState, code: [u8; 3], hint: Option<u64>)
    requires
        s.wf(),
        s.phase == Phase::Sending,
        is_f08(code),
    ensures
        exists|n: nat|
            #[trigger] run_with(s, Reply::Reject { code, max_amount_hint: hint }, n).phase is Failed
                && run_with(s, Reply::Reject { code, max_amount_hint: hint }, n).delivered
                == s.delivered,
    decreases s.max_packet, MAX_CONSECUTIVE_REJECTS - s.consecutive_rejects,
{
    let r = Reply::Reject { code, max_amount_hint: hint };
    let t = s.spec_on_reply(r).0;
    lemma_on_reply_wf(s, r);
    assert(run_with(t, r, 0) == t);
    assert(run_with(s, r, 1) == t);
    if t.phase is Failed {
        assert(run_with(s, r, 1).phase is Failed);
    } else {
        assert(t.phase == Phase::Sending);
        lemma_all_f08_ends(t, code, hint);
        let n = choose|n: nat|
            #[trigger] run_with(t, r, n).phase is Failed && run_with(t, r, n).delivered
                == t.delivered;
        assert(run_with(s, r, n + 1) == run_with(t, r, n));
    }
}

/// The reply of a path that carries at most `cap` per packet: larger packets are refused
/// with the `F08` reject `code` and `cap` as the hint; the others are fulfilled.
pub open spec fn capped_reply(code: [u8; 3], cap: u64, amount: u64) -> Reply {
    if amount > cap {
        Reply::Reject { code, max_amount_hint: Some(cap) }
    } else {
        Reply::Fulfill { valid: true }
    }
}

/// The state after `n` replies from a path that carries at most `cap` per packet.
pub open spec fn run_capped(s: SendState, code: [u8; 3], cap: u64, n: nat) -> SendState
    decreases n,
{
    if n == 0 {
        s
    } else {
        run_capped(s.spec_on_reply(capped_reply(code, cap, s.in_flight)).0, code, cap, (n - 1) as nat)
    }
}

/// Over a path that carries at most `cap` per packet, refusing larger ones with `F08` and
/// the cap as hint, a payment ends: it delivers exactly its target, every fulfilled packet
/// being at most `cap`, unless it runs out of sequence numbers first.
pub proof fn lemma_capped_path_delivers(s: SendState, code: [u8; 3], cap: u64)
    requires
        s.wf(),
        s.phase == Phase::Sending,
        is_f08(code),
        cap >= 1,
    ensures
        exists|n: nat|
            {
                let t = #[trigger] run_capped(s, code, cap, n);
                (t.phase == Phase::Succeeded && t.delivered == t.target) || (t.phase
                    == Phase::Failed(FailureKind::SendMoney) && t.next_sequence == u64::MAX)
            },
    decreases s.target - s.delivered, s.max_packet,
{
    let r = capped_reply(code, cap, s.in_flight);
    let t = s.spec_on_reply(r).0;
    lemma_on_reply_wf(s, r);
    assert(run_capped(t, code, cap, 0) == t);
    assert(run_capped(s, code, cap, 1) == t);
    if t.phase == Phase::Sending {
        lemma_capped_path_delivers(t, code, cap);
        let n = choose|n: nat|
            {
                let u = #[trigger] run_capped(t, code, cap, n);
                (u.phase == Phase::Succeeded && u.delivered == u.target) || (u.phase
                    == Phase::Failed(FailureKind::SendMoney) && u.next_sequence == u64::MAX)
            };
        assert(run_capped(s, code, cap, n + 1) == run_capped(t, code, cap, n));
    } else {
        assert(run_capped(s, code, cap, 1) == t);
    }
}

} // verus!
