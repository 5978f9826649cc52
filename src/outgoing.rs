use vstd::prelude::*;
use crate::address::{is_valid_address, MAX_ADDRESS_LEN};
use crate::crypto::{
    aes_gcm_seal_of, condition_for, condition_of, encryption_key_of, fulfillment_matches,
    fulfillment_of, pack_frames, secret_ok, sha256_of, unpack_of, NONCE_LEN,
};
use crate::frames::{
    carries_money, encode_frames, enc_frames, frames_fit, lemma_frames_round_trip, frames_view, money_contents, new_address, stream_money, Frame,
    CONNECTION_NEW_ADDRESS, STREAM_MONEY,
};
use crate::octets::{append_bytes, copy_bytes};
use crate::packet::{be64, enc_len, enc_var, packet_wf, Packet, PacketView, Prepare, EXPIRY_LEN};
use crate::receiver::{frames_of, handle_model};
use crate::sender::{amount_hint, amount_hint_of, is_f08, Reply, CLASS_FINAL};

verus! {

/// The stream that carries the money of a payment.
pub const MONEY_STREAM: u64 = 1;

/// The frames of an outgoing packet: on the handshake the sender's address, then the money.
pub open spec fn outgoing_frames(own_address: Seq<u8>, amount: u64, handshake: bool) -> Seq<
    (u8, Seq<u8>),
> {
    if handshake {
        seq![(CONNECTION_NEW_ADDRESS, own_address), (STREAM_MONEY, money_contents(MONEY_STREAM, amount))]
    } else {
        seq![(STREAM_MONEY, money_contents(MONEY_STREAM, amount))]
    }
}

/// What an outgoing packet carries, before sealing: its sequence number, then its frames.
pub open spec fn outgoing_plaintext(
    sequence: u64,
    own_address: Seq<u8>,
    amount: u64,
    handshake: bool,
) -> Seq<u8> {
    be64(sequence) + enc_frames(outgoing_frames(own_address, amount, handshake))
}

/// Builds the Prepare for packet `sequence` of a payment over the connection keyed by
/// `secret`: the frames sealed under `nonce`, and the condition that the receiver's
/// fulfillment of that data will meet.
pub fn build_prepare(
    secret: &[u8],
    nonce: &[u8],
    destination: &[u8],
    expires_at: &[u8],
    own_address: &[u8],
    amount: u64,
    sequence: u64,
    handshake: bool,
) -> (r: Prepare)
    requires
        secret_ok(secret@),
        nonce@.len() == NONCE_LEN,
        is_valid_address(destination@),
        expires_at@.len() == EXPIRY_LEN,
        own_address@.len() <= MAX_ADDRESS_LEN,
    ensures
        packet_wf(r@),
        r.amount == amount,
        r.expires_at@ == expires_at@,
        r.destination@ == destination@,
        r.data@ == nonce@ + aes_gcm_seal_of(
            encryption_key_of(secret@),
            nonce@,
            outgoing_plaintext(sequence, own_address@, amount, handshake),
        ),
        unpack_of(secret@, r.data@) == Some(
            outgoing_plaintext(sequence, own_address@, amount, handshake),
        ),
        frames_of(secret@, r.data@) == Some(outgoing_frames(own_address@, amount, handshake)),
        amount > 0 ==> carries_money(outgoing_frames(own_address@, amount, handshake)),
        r.execution_condition@ == condition_of(secret@, r.data@),
{
    let mut frames: Vec<Frame> = Vec::new();
    if handshake {
        frames.push(new_address(own_address));
    }
    frames.push(stream_money(MONEY_STREAM, amount));
    let ghost fs = outgoing_frames(own_address@, amount, handshake);
    assert(frames_view(frames@) =~= fs);
    let body = encode_frames(frames.as_slice());
    let mut plain: Vec<u8> = Vec::new();
    push_sequence(&mut plain, sequence);
    append_bytes(&mut plain, body.as_slice());
    proof {
        crate::frames::lemma_money_round_trip(MONEY_STREAM, amount);
        let m = seq![(STREAM_MONEY, money_contents(MONEY_STREAM, amount))];
        assert(m.drop_first() =~= Seq::<(u8, Seq<u8>)>::empty());
        assert(enc_frames(m.drop_first()) == Seq::<u8>::empty());
        assert(enc_frames(m) == seq![m[0].0] + enc_var(m[0].1) + enc_frames(m.drop_first()));
        assert(enc_frames(m).len() == 1 + enc_len(16).len() + 16);
        if handshake {
            assert(fs.drop_first() =~= m);
            assert(enc_frames(fs).len() == 1 + enc_len(own_address@.len()).len() + own_address@.len()
                + enc_frames(m).len());
        } else {
            assert(fs =~= m);
        }
        assert(body@.len() <= 1100);
        assert(frames_fit(fs));
        lemma_frames_round_trip(be64(sequence), fs);
        assert(be64(sequence).len() == 8);
        if handshake {
            assert(fs.drop_first() =~= m);
        }
        assert(m[0].1 == money_contents(MONEY_STREAM, amount));
        assert(m[0].0 == STREAM_MONEY);
        assert(amount > 0 ==> carries_money(m));
        if handshake {
            assert(fs[0].0 == CONNECTION_NEW_ADDRESS);
            assert(carries_money(fs) == carries_money(fs.drop_first()));
        }
    }
    let data = pack_frames(secret, nonce, plain.as_slice());
    let condition = condition_for(secret, data.as_slice());
    Prepare {
        amount,
        expires_at: copy_bytes(expires_at),
        execution_condition: condition,
        destination: copy_bytes(destination),
        data,
    }
}

fn push_sequence(out: &mut Vec<u8>, x: u64)
    ensures
        final(out)@ == old(out)@ + be64(x),
{
    out.push((x >> 56u64) as u8);
    out.push((x >> 48u64) as u8);
    out.push((x >> 40u64) as u8);
    out.push((x >> 32u64) as u8);
    out.push((x >> 24u64) as u8);
    out.push((x >> 16u64) as u8);
    out.push((x >> 8u64) as u8);
    out.push(x as u8);
    assert(final(out)@ =~= old(out)@ + be64(x));
}

/// Turns the response to `prepare` into the sender's view of it: a Fulfill is valid when
/// its fulfillment hashes to the condition; a Reject keeps its code, and for `F08` the
/// packet-limit hint read from its data; a Prepare in reply is an invalid response.
pub fn reply_of(prepare: &Prepare, response: &Packet) -> (r: Reply)
    requires
        packet_wf(response@),
    ensures
        match response@ {
            PacketView::Fulfill { fulfillment, .. } => r == Reply::Fulfill {
                valid: sha256_of(fulfillment) == prepare.execution_condition@,
            },
            PacketView::Reject { code, data, .. } => r matches Reply::Reject {
                code: c,
                max_amount_hint,
            } && c@ == code && max_amount_hint == if is_f08(c) {
                amount_hint_of(prepare.amount, data)
            } else {
                None
            },
            PacketView::Prepare { .. } => r == Reply::Fulfill { valid: false },
        },
{
    match response {
        Packet::Fulfill(f) => Reply::Fulfill {
            valid: fulfillment_matches(f.fulfillment.as_slice(), prepare.execution_condition.as_slice()),
        },
        Packet::Reject(j) => {
            let code: [u8; 3] = [j.code[0], j.code[1], j.code[2]];
            assert(code@ =~= j.code@);
            let hint = if code[0] == CLASS_FINAL && code[1] == 0x30 && code[2] == 0x38 {
                amount_hint(prepare.amount, j.data.as_slice())
            } else {
                None
            };
            Reply::Reject { code, max_amount_hint: hint }
        },
        Packet::Prepare(_) => Reply::Fulfill { valid: false },
    }
}

/// A Prepare that carries sealed, readable frames (with money, unless its amount is zero)
/// and the condition derived from its data under a secret is fulfilled by a receiver
/// holding the secret, the first time it arrives and while the total stays within the
/// receive maximum, with a fulfillment that meets the condition.
pub proof fn lemma_receiver_fulfills_own_packets(
    secret: Seq<u8>,
    address: Seq<u8>,
    received: u64,
    receive_max: u64,
    fulfilled: Seq<Seq<u8>>,
    p: PacketView,
)
    requires
        p matches PacketView::Prepare { amount, execution_condition, data, .. } && frames_of(
            secret,
            data,
        ) matches Some(fs) && (amount == 0 || carries_money(fs)) && execution_condition == condition_of(secret, data) && !fulfilled.contains(
            execution_condition,
        ) && received + amount <= receive_max,
    ensures
        p matches PacketView::Prepare { amount, execution_condition, data, .. } && handle_model(
            secret,
            address,
            received,
            receive_max,
            fulfilled,
            p,
        ) == (
            (received + amount) as u64,
            fulfilled.push(execution_condition),
            PacketView::Fulfill { fulfillment: fulfillment_of(secret, data), data: Seq::empty() },
        ) && sha256_of(fulfillment_of(secret, data)) == execution_condition,
{
}

} // verus!
