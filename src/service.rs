use vstd::prelude::*;
use crate::octets::copy_bytes;
use crate::packet::{packet_wf, Packet, PacketView, Prepare, Reject, EXPIRY_LEN};
use crate::router::{entry_matches, is_best_match, Router};
use crate::sender::CLASS_FINAL;

verus! {

/// `R`, the class of relay errors.
pub const CLASS_RELAY: u8 = 0x52;

/// `F02`: no route reaches the destination.
pub open spec fn code_unreachable() -> Seq<u8> {
    seq![CLASS_FINAL, 0x30u8, 0x32u8]
}

/// `R00`: the packet expired before it could be forwarded.
pub open spec fn code_expired() -> Seq<u8> {
    seq![CLASS_RELAY, 0x30u8, 0x30u8]
}

/// `a` comes strictly before `b` in byte order, for strings of the same length.
pub open spec fn bytes_lt(a: Seq<u8>, b: Seq<u8>) -> bool {
    exists|i: int|
        0 <= i < a.len() && i < b.len() && a.subrange(0, i) == b.subrange(0, i) && #[trigger] a[i]
            < b[i]
}

/// A Prepare whose expiry is not after `now` has expired; timestamps of the fixed
/// `YYYYMMDDHHmmssSSS` form order as their bytes do.
pub open spec fn expired(expires_at: Seq<u8>, now: Seq<u8>) -> bool {
    !bytes_lt(now, expires_at)
}

/// A Reject with `code` from `triggered_by`, with empty message and data.
pub open spec fn bare_reject(code: Seq<u8>, triggered_by: Seq<u8>) -> PacketView {
    PacketView::Reject { code, triggered_by, message: Seq::empty(), data: Seq::empty() }
}

fn make_reject(code: u8, number: u8, triggered_by: &[u8]) -> (r: Packet)
    ensures
        r@ == bare_reject(seq![code, 0x30u8, number], triggered_by@),
{
    let r = Packet::Reject(
        Reject {
            code: vec![code, 0x30u8, number],
            triggered_by: copy_bytes(triggered_by),
            message: Vec::new(),
            data: Vec::new(),
        },
    );
    assert(r@->Reject_code =~= seq![code, 0x30u8, number]);
    assert(r@->Reject_message =~= Seq::<u8>::empty());
    assert(r@->Reject_data =~= Seq::<u8>::empty());
    r
}

/// Decides whether `now` is strictly before `expires_at`.
pub fn before(now: &[u8], expires_at: &[u8]) -> (r: bool)
    requires
        now@.len() == expires_at@.len(),
    ensures
        r == bytes_lt(now@, expires_at@),
{
    let mut i: usize = 0;
    while i < now.len()
        invariant
            now@.len() == expires_at@.len(),
            0 <= i <= now@.len(),
            now@.subrange(0, i as int) == expires_at@.subrange(0, i as int),
        decreases now@.len() - i,
    {
        if now[i] < expires_at[i] {
            return true;
        }
        if now[i] > expires_at[i] {
            assert forall|j: int| 0 <= j < now@.len() && now@.subrange(0, j) == expires_at@.subrange(0, j)
                implies !(#[trigger] now@[j] < expires_at@[j]) by {
                if j < i {
                    assert(now@.subrange(0, i as int)[j] == now@[j]);
                    assert(expires_at@.subrange(0, i as int)[j] == expires_at@[j]);
                } else if j > i {
                    assert(now@.subrange(0, j)[i as int] == now@[i as int]);
                    assert(expires_at@.subrange(0, j)[i as int] == expires_at@[i as int]);
                }
            }
            return false;
        }
        assert(now@.subrange(0, i + 1) =~= now@.subrange(0, i as int).push(now@[i as int]));
        assert(expires_at@.subrange(0, i + 1) =~= expires_at@.subrange(0, i as int).push(
            expires_at@[i as int],
        ));
        i = i + 1;
    }
    assert forall|j: int| 0 <= j < now@.len() && now@.subrange(0, j) == expires_at@.subrange(0, j)
        implies !(#[trigger] now@[j] < expires_at@[j]) by {
        assert(now@.subrange(0, now@.len() as int)[j] == now@[j]);
        assert(expires_at@.subrange(0, now@.len() as int)[j] == expires_at@[j]);
    }
    false
}

/// Checks a Prepare before it is forwarded: one that has expired by `now` is answered with
/// an `R00` Reject from `own_address`; any other passes.
pub fn validate_prepare(prepare: &Prepare, now: &[u8], own_address: &[u8]) -> (r: Option<Packet>)
    requires
        packet_wf(prepare@),
        now@.len() == EXPIRY_LEN,
    ensures
        r is None <==> !expired(prepare.expires_at@, now@),
        r matches Some(j) ==> j@ == bare_reject(code_expired(), own_address@),
{
    if before(now, prepare.expires_at.as_slice()) {
        None
    } else {
        Some(make_reject(CLASS_RELAY, 0x30u8, own_address))
    }
}

/// The fallback service: answers every Prepare with an `F02` Reject from `own_address`.
pub fn reject_all(_prepare: &Prepare, own_address: &[u8]) -> (r: Packet)
    ensures
        r@ == bare_reject(code_unreachable(), own_address@),
{
    make_reject(CLASS_FINAL, 0x32u8, own_address)
}

/// Routes a Prepare to the account that serves its destination; with no route it is
/// answered with an `F02` Reject from `own_address`.
pub fn route_prepare(router: &Router, prepare: &Prepare, own_address: &[u8]) -> (r: Result<
    u64,
    Packet,
>)
    ensures
        r is Err <==> (forall|j: int| !#[trigger] entry_matches(router@, j, prepare.destination@)),
        r matches Ok(id) ==> exists|i: int|
            is_best_match(router@, i, prepare.destination@) && #[trigger] router@[i].1 == id,
        r matches Err(j) ==> j@ == bare_reject(code_unreachable(), own_address@),
{
    match router.route(prepare.destination.as_slice()) {
        Ok(id) => Ok(id),
        Err(_) => Err(make_reject(CLASS_FINAL, 0x32u8, own_address)),
    }
}

} // verus!
