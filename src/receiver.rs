use vstd::prelude::*;
use crate::crypto::{
    condition_from_fulfillment, condition_of, fulfillment_for, fulfillment_of, secret_ok,
    unpack_frames, unpack_of,
};
use crate::octets::{bytes_equal, copy_bytes};
use crate::packet::{packet_wf, Fulfill, Packet, PacketView, Prepare, Reject, EXPIRY_LEN};
use crate::sender::CLASS_FINAL;
use crate::service::{bare_reject, code_expired, expired, validate_prepare};
use crate::address::is_valid_address;
use crate::frames::{
    carries_money, decode_frames_from, find_announced, first_announced, frames_at, has_money,
};

verus! {

/// The Reject a receiver sends: `code`, naming itself as the rejecting party.
pub open spec fn reject_view(code: Seq<u8>, address: Seq<u8>) -> PacketView {
    PacketView::Reject { code, triggered_by: address, message: Seq::empty(), data: Seq::empty() }
}

/// `F05`: the condition does not match the data.
pub open spec fn code_wrong_condition() -> Seq<u8> {
    seq![CLASS_FINAL, 0x30u8, 0x35u8]
}

/// `F06`: the data does not authenticate.
pub open spec fn code_unexpected_payment() -> Seq<u8> {
    seq![CLASS_FINAL, 0x30u8, 0x36u8]
}

/// `F99`: money arrived without a money frame to credit it through.
pub open spec fn code_no_money_frame() -> Seq<u8> {
    seq![CLASS_FINAL, 0x39u8, 0x39u8]
}

/// `F08`: the amount would exceed what can be received.
pub open spec fn code_amount_too_large() -> Seq<u8> {
    seq![CLASS_FINAL, 0x30u8, 0x38u8]
}

/// The receiver's decision on a Prepare of `amount` under `condition`, with at most
/// `receive_max` to be received in all, given whether its
/// data authenticated, the fulfillment derived from its data and the condition that
/// fulfillment hashes to: the new received total, the new fulfilled conditions, and the
/// response.
pub open spec fn decision(
    received: u64,
    receive_max: u64,
    fulfilled: Seq<Seq<u8>>,
    address: Seq<u8>,
    amount: u64,
    condition: Seq<u8>,
    authenticated: bool,
    carries_money: bool,
    fulfillment: Seq<u8>,
    expected: Seq<u8>,
) -> (u64, Seq<Seq<u8>>, PacketView) {
    if !authenticated {
        (received, fulfilled, reject_view(code_unexpected_payment(), address))
    } else if expected != condition {
        (received, fulfilled, reject_view(code_wrong_condition(), address))
    } else if amount > 0 && !carries_money {
        (received, fulfilled, reject_view(code_no_money_frame(), address))
    } else if fulfilled.contains(condition) {
        (received, fulfilled, PacketView::Fulfill { fulfillment, data: Seq::empty() })
    } else if received + amount > receive_max {
        (received, fulfilled, reject_view(code_amount_too_large(), address))
    } else {
        (
            (received + amount) as u64,
            fulfilled.push(condition),
            PacketView::Fulfill { fulfillment, data: Seq::empty() },
        )
    }
}

/// The receiver's decision on a Prepare, with every derived value computed from the
/// connection's secret and the packet's data.
pub open spec fn handle_model(
    secret: Seq<u8>,
    address: Seq<u8>,
    received: u64,
    receive_max: u64,
    fulfilled: Seq<Seq<u8>>,
    p: PacketView,
) -> (u64, Seq<Seq<u8>>, PacketView) {
    match p {
        PacketView::Prepare { amount, execution_condition, data, .. } => decision(
            received,
            receive_max,
            fulfilled,
            address,
            amount,
            execution_condition,
            frames_of(secret, data) is Some,
            match frames_of(secret, data) {
                Some(fs) => carries_money(fs),
                None => false,
            },
            fulfillment_of(secret, data),
            condition_of(secret, data),
        ),
        _ => (received, fulfilled, p),
    }
}

/// The sender's address announced in the frames carried by `data`, if they authenticate
/// under `secret` and hold a well-formed `ConnectionNewAddress` frame after the sequence
/// number.
pub open spec fn announced_of(secret: Seq<u8>, data: Seq<u8>) -> Option<Seq<u8>> {
    match frames_of(secret, data) {
        Some(fs) => first_announced(fs),
        None => None,
    }
}

/// The frames carried by `data`: they must authenticate under `secret` and, after the
/// 8-byte sequence number, form a readable frame sequence. Anything else fails closed.
pub open spec fn frames_of(secret: Seq<u8>, data: Seq<u8>) -> Option<Seq<(u8, Seq<u8>)>> {
    match unpack_of(secret, data) {
        Some(plain) => if plain.len() >= 8 {
            frames_at(plain, 8)
        } else {
            None
        },
        None => None,
    }
}

/// The sender's address after answering with `response`: a fulfilled packet that announces
/// an address replaces it.
pub open spec fn learned_address(
    remote: Seq<u8>,
    response: PacketView,
    announced: Option<Seq<u8>>,
) -> Seq<u8> {
    match announced {
        Some(a) => if response is Fulfill {
            a
        } else {
            remote
        },
        None => remote,
    }
}

pub open spec fn opt_view(o: Option<Vec<u8>>) -> Option<Seq<u8>> {
    match o {
        Some(v) => Some(v@),
        None => None,
    }
}

/// The receiving end of one STREAM connection.
#[derive(Debug)]
pub struct Receiver {
    pub secret: Vec<u8>,
    pub address: Vec<u8>,
    pub received: u64,
    /// The most that the connection accepts in all.
    pub receive_max: u64,
    pub fulfilled: Vec<Vec<u8>>,
    /// The sender's address, once announced; empty before.
    pub remote_address: Vec<u8>,
}

impl Receiver {
    pub open spec fn fulfilled_view(&self) -> Seq<Seq<u8>> {
        self.fulfilled@.map_values(|v: Vec<u8>| v@)
    }

    pub open spec fn wf(&self) -> bool {
        &&& secret_ok(self.secret@)
        &&& (self.address@.len() == 0 || is_valid_address(self.address@))
    }

    /// The receiver's decision on a Prepare, with every derived value computed.
    pub open spec fn spec_handle(&self, p: PacketView) -> (u64, Seq<Seq<u8>>, PacketView) {
        handle_model(
            self.secret@,
            self.address@,
            self.received,
            self.receive_max,
            self.fulfilled_view(),
            p,
        )
    }

    /// A receiver with nothing received yet.
    pub fn new(secret: Vec<u8>, address: Vec<u8>) -> (r: Receiver)
        requires
            secret_ok(secret@),
            address@.len() == 0 || is_valid_address(address@),
        ensures
            r.wf(),
            r.secret@ == secret@,
            r.address@ == address@,
            r.received == 0,
            r.receive_max == u64::MAX,
            r.fulfilled_view() == Seq::<Seq<u8>>::empty(),
            r.remote_address@ == Seq::<u8>::empty(),
    {
        let r = Receiver {
            secret,
            address,
            received: 0,
            receive_max: u64::MAX,
            fulfilled: Vec::new(),
            remote_address: Vec::new(),
        };
        assert(r.fulfilled_view() =~= Seq::<Seq<u8>>::empty());
        r
    }

    /// Sets the most that the connection accepts in all.
    pub fn set_receive_max(&mut self, receive_max: u64)
        ensures
            *final(self) == (Receiver { receive_max, ..*old(self) }),
    {
        self.receive_max = receive_max;
    }

    fn has_fulfilled(&self, condition: &[u8]) -> (r: bool)
        ensures
            r == self.fulfilled_view().contains(condition@),
    {
        let mut i: usize = 0;
        while i < self.fulfilled.len()
            invariant
                0 <= i <= self.fulfilled@.len(),
                forall|k: int| 0 <= k < i ==> self.fulfilled@[k]@ != condition@,
            decreases self.fulfilled@.len() - i,
        {
            if bytes_equal(self.fulfilled[i].as_slice(), condition) {
                assert(self.fulfilled_view()[i as int] == condition@);
                return true;
            }
            i = i + 1;
        }
        assert forall|k: int| 0 <= k < self.fulfilled_view().len() implies self.fulfilled_view()[k]
            != condition@ by {
            assert(self.fulfilled_view()[k] == self.fulfilled@[k]@);
        }
        false
    }

    fn reject(&self, code: u8) -> (r: Packet)
        ensures
            r@ == reject_view(seq![CLASS_FINAL, 0x30u8, code], self.address@),
    {
        self.reject_with(0x30u8, code)
    }

    fn reject_with(&self, tens: u8, code: u8) -> (r: Packet)
        ensures
            r@ == reject_view(seq![CLASS_FINAL, tens, code], self.address@),
    {
        let r = Packet::Reject(
            Reject {
                code: vec![CLASS_FINAL, tens, code],
                triggered_by: copy_bytes(self.address.as_slice()),
                message: Vec::new(),
                data: Vec::new(),
            },
        );
        assert(r@->Reject_code =~= seq![CLASS_FINAL, tens, code]);
        assert(r@->Reject_message =~= Seq::<u8>::empty());
        assert(r@->Reject_data =~= Seq::<u8>::empty());
        r
    }

    /// Decides on a Prepare given whether its data authenticated, the fulfillment derived
    /// from its data, and the condition that fulfillment hashes to.
    pub fn decide(
        &mut self,
        prepare: &Prepare,
        authenticated: bool,
        carries_money: bool,
        fulfillment: &[u8],
        expected: &[u8],
        announced: Option<Vec<u8>>,
    ) -> (r: Packet)
        ensures
            final(self).remote_address@ == learned_address(
                old(self).remote_address@,
                r@,
                opt_view(announced),
            ),
            (final(self).received, final(self).fulfilled_view(), r@) == decision(
                old(self).received,
                old(self).receive_max,
                old(self).fulfilled_view(),
                old(self).address@,
                prepare.amount,
                prepare.execution_condition@,
                authenticated,
                carries_money,
                fulfillment@,
                expected@,
            ),
            final(self).secret@ == old(self).secret@,
            final(self).address@ == old(self).address@,
            final(self).receive_max == old(self).receive_max,
    {
        if !authenticated {
            return self.reject(0x36u8);
        }
        if !bytes_equal(expected, prepare.execution_condition.as_slice()) {
            return self.reject(0x35u8);
        }
        if prepare.amount > 0 && !carries_money {
            return self.reject_with(0x39u8, 0x39u8);
        }
        let f = Packet::Fulfill(Fulfill { fulfillment: copy_bytes(fulfillment), data: Vec::new() });
        assert(f@->Fulfill_data =~= Seq::<u8>::empty());
        if self.has_fulfilled(prepare.execution_condition.as_slice()) {
            self.learn(announced);
            return f;
        }
        if self.received > self.receive_max || prepare.amount > self.receive_max - self.received {
            return self.reject(0x38u8);
        }
        self.received = self.received + prepare.amount;
        self.fulfilled.push(copy_bytes(prepare.execution_condition.as_slice()));
        assert(self.fulfilled_view() =~= old(self).fulfilled_view().push(
            prepare.execution_condition@,
        ));
        self.learn(announced);
        f
    }

    fn learn(&mut self, announced: Option<Vec<u8>>)
        ensures
            final(self).remote_address@ == match announced {
                Some(a) => a@,
                None => old(self).remote_address@,
            },
            final(self).received == old(self).received,
            final(self).fulfilled == old(self).fulfilled,
            final(self).receive_max == old(self).receive_max,
            final(self).secret == old(self).secret,
            final(self).address == old(self).address,
    {
        match announced {
            Some(a) => {
                self.remote_address = a;
            },
            None => {},
        }
    }

    /// Answers a Prepare addressed to this connection: rejects data that does not
    /// authenticate and conditions that do not match, fulfills everything else once.
    pub fn handle_prepare(&mut self, prepare: &Prepare) -> (r: Packet)
        requires
            old(self).wf(),
            packet_wf(prepare@),
        ensures
            final(self).wf(),
            final(self).secret@ == old(self).secret@,
            final(self).address@ == old(self).address@,
            packet_wf(r@),
            (final(self).received, final(self).fulfilled_view(), r@) == old(self).spec_handle(
                prepare@,
            ),
            frames_of(old(self).secret@, prepare.data@) is None ==> r@ is Reject
                && final(self).received == old(self).received && final(self).fulfilled_view()
                == old(self).fulfilled_view() && final(self).remote_address@
                == old(self).remote_address@,
            final(self).receive_max == old(self).receive_max,
            final(self).remote_address@ == learned_address(
                old(self).remote_address@,
                r@,
                announced_of(old(self).secret@, prepare.data@),
            ),
    {
        let (authenticated, carries, announced) = match unpack_frames(
            self.secret.as_slice(),
            prepare.data.as_slice(),
        ) {
            Ok(plain) => {
                if plain.len() >= 8 {
                    match decode_frames_from(plain.as_slice(), 8) {
                        Ok(frames) => (
                            true,
                            has_money(frames.as_slice()),
                            find_announced(frames.as_slice()),
                        ),
                        Err(_) => (false, false, None),
                    }
                } else {
                    (false, false, None)
                }
            },
            Err(_) => (false, false, None),
        };
        let fulfillment = fulfillment_for(self.secret.as_slice(), prepare.data.as_slice());
        let expected = condition_from_fulfillment(fulfillment.as_slice());
        self.decide(
            prepare,
            authenticated,
            carries,
            fulfillment.as_slice(),
            expected.as_slice(),
            announced,
        )
    }

    /// Answers a Prepare that arrives at `now`: one that has expired is rejected with `R00`
    /// and changes nothing; any other is answered as `handle_prepare` does.
    pub fn handle_prepare_at(&mut self, prepare: &Prepare, now: &[u8]) -> (r: Packet)
        requires
            old(self).wf(),
            packet_wf(prepare@),
            now@.len() == EXPIRY_LEN,
        ensures
            final(self).wf(),
            final(self).secret@ == old(self).secret@,
            final(self).address@ == old(self).address@,
            final(self).receive_max == old(self).receive_max,
            packet_wf(r@),
            expired(prepare.expires_at@, now@) ==> r@ == bare_reject(code_expired(), old(self).address@)
                && final(self).received == old(self).received && final(self).fulfilled_view()
                == old(self).fulfilled_view() && final(self).remote_address@
                == old(self).remote_address@,
            !expired(prepare.expires_at@, now@) ==> (final(self).received, final(self).fulfilled_view(), r@)
                == old(self).spec_handle(prepare@) && final(self).remote_address@ == learned_address(
                old(self).remote_address@,
                r@,
                announced_of(old(self).secret@, prepare.data@),
            ),
    {
        match validate_prepare(prepare, now, self.address.as_slice()) {
            Some(j) => j,
            None => self.handle_prepare(prepare),
        }
    }
}

/// Delivering the same Prepare again after it was fulfilled gives the identical Fulfill
/// and credits nothing more.
pub proof fn lemma_redelivery_idempotent(
    secret: Seq<u8>,
    address: Seq<u8>,
    received: u64,
    receive_max: u64,
    fulfilled: Seq<Seq<u8>>,
    p: PacketView,
)
    requires
        handle_model(secret, address, received, receive_max, fulfilled, p).2 is Fulfill,
    ensures
        ({
            let (received1, fulfilled1, response1) = handle_model(
                secret,
                address,
                received,
                receive_max,
                fulfilled,
                p,
            );
            handle_model(secret, address, received1, receive_max, fulfilled1, p) == (
                received1,
                fulfilled1,
                response1,
            )
        }),
{
    if let PacketView::Prepare { execution_condition, .. } = p {
        let fulfilled1 = handle_model(secret, address, received, receive_max, fulfilled, p).1;
        if !fulfilled.contains(execution_condition) {
            assert(fulfilled1[fulfilled.len() as int] == execution_condition);
        }
        assert(fulfilled1.contains(execution_condition));
    }
}

/// Answering the same packet twice leaves the learned address as answering it once did.
pub proof fn lemma_address_learning_idempotent(
    remote: Seq<u8>,
    response: PacketView,
    announced: Option<Seq<u8>>,
)
    ensures
        learned_address(learned_address(remote, response, announced), response, announced)
            == learned_address(remote, response, announced),
{
}

} // verus!
