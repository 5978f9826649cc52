use vstd::prelude::*;
use crate::address::{check_address, is_valid_address};
use crate::octets::{append_bytes, copy_range};

verus! {

/// Type tag of a Prepare packet.
pub const PREPARE_TYPE: u8 = 12;

/// Type tag of a Fulfill packet.
pub const FULFILL_TYPE: u8 = 13;

/// Type tag of a Reject packet.
pub const REJECT_TYPE: u8 = 14;

/// Length of the expiry timestamp (`YYYYMMDDHHmmssSSS`).
pub const EXPIRY_LEN: usize = 17;

/// Length of an execution condition and of a fulfillment.
pub const CONDITION_LEN: usize = 32;

/// Length of a reject code.
pub const CODE_LEN: usize = 3;

/// Longest data field accepted.
pub const MAX_DATA_LEN: usize = 32767;

/// Longest reject message accepted.
pub const MAX_MESSAGE_LEN: usize = 8191;

/// Shortest buffer that can hold a type tag and a length prefix.
pub const MIN_HEADER_LEN: usize = 2;

/// What a packet means, independent of its representation.
pub enum PacketView {
    Prepare {
        amount: u64,
        expires_at: Seq<u8>,
        execution_condition: Seq<u8>,
        destination: Seq<u8>,
        data: Seq<u8>,
    },
    Fulfill { fulfillment: Seq<u8>, data: Seq<u8> },
    Reject { code: Seq<u8>, triggered_by: Seq<u8>, message: Seq<u8>, data: Seq<u8> },
}

/// The field bounds that every packet on the wire obeys.
pub open spec fn packet_wf(v: PacketView) -> bool {
    match v {
        PacketView::Prepare { amount, expires_at, execution_condition, destination, data } => {
            &&& expires_at.len() == EXPIRY_LEN
            &&& execution_condition.len() == CONDITION_LEN
            &&& is_valid_address(destination)
            &&& data.len() <= MAX_DATA_LEN
        },
        PacketView::Fulfill { fulfillment, data } => {
            &&& fulfillment.len() == CONDITION_LEN
            &&& data.len() <= MAX_DATA_LEN
        },
        PacketView::Reject { code, triggered_by, message, data } => {
            &&& code.len() == CODE_LEN
            &&& (triggered_by.len() == 0 || is_valid_address(triggered_by))
            &&& message.len() <= MAX_MESSAGE_LEN
            &&& data.len() <= MAX_DATA_LEN
        },
    }
}

// ---- wire encoding, as a specification ----

/// Big-endian bytes of a `u64`.
pub open spec fn be64(x: u64) -> Seq<u8> {
    seq![
        (x >> 56u64) as u8,
        (x >> 48u64) as u8,
        (x >> 40u64) as u8,
        (x >> 32u64) as u8,
        (x >> 24u64) as u8,
        (x >> 16u64) as u8,
        (x >> 8u64) as u8,
        x as u8,
    ]
}

/// The `u64` whose big-endian bytes start at `p`.
pub open spec fn be64_at(s: Seq<u8>, p: int) -> u64 {
    ((s[p] as u64) << 56u64) | ((s[p + 1] as u64) << 48u64) | ((s[p + 2] as u64) << 40u64) | ((
    s[p + 3] as u64) << 32u64) | ((s[p + 4] as u64) << 24u64) | ((s[p + 5] as u64) << 16u64) | ((
    s[p + 6] as u64) << 8u64) | (s[p + 7] as u64)
}

/// Canonical length prefix: one byte below 128, else `0x81` or `0x82` and the length.
pub open spec fn enc_len(n: nat) -> Seq<u8> {
    if n < 128 {
        seq![n as u8]
    } else if n < 256 {
        seq![0x81u8, n as u8]
    } else {
        seq![0x82u8, (n / 256) as u8, (n % 256) as u8]
    }
}

/// A byte string preceded by its length.
pub open spec fn enc_var(b: Seq<u8>) -> Seq<u8> {
    enc_len(b.len()) + b
}

pub open spec fn prepare_body(
    amount: u64,
    expires_at: Seq<u8>,
    execution_condition: Seq<u8>,
    destination: Seq<u8>,
    data: Seq<u8>,
) -> Seq<u8> {
    be64(amount) + expires_at + execution_condition + enc_var(destination) + enc_var(data)
}

pub open spec fn fulfill_body(fulfillment: Seq<u8>, data: Seq<u8>) -> Seq<u8> {
    fulfillment + enc_var(data)
}

pub open spec fn reject_body(
    code: Seq<u8>,
    triggered_by: Seq<u8>,
    message: Seq<u8>,
    data: Seq<u8>,
) -> Seq<u8> {
    code + enc_var(triggered_by) + enc_var(message) + enc_var(data)
}

/// The bytes of a packet: its type tag, then its body as a length-prefixed string.
pub open spec fn encode_packet(v: PacketView) -> Seq<u8> {
    match v {
        PacketView::Prepare { amount, expires_at, execution_condition, destination, data } => seq![
            PREPARE_TYPE,
        ] + enc_var(prepare_body(amount, expires_at, execution_condition, destination, data)),
        PacketView::Fulfill { fulfillment, data } => seq![FULFILL_TYPE] + enc_var(
            fulfill_body(fulfillment, data),
        ),
        PacketView::Reject { code, triggered_by, message, data } => seq![REJECT_TYPE] + enc_var(
            reject_body(code, triggered_by, message, data),
        ),
    }
}

// ---- wire decoding, as a specification ----

/// Reads a canonical length prefix at `p`: the length and the position after the prefix.
pub open spec fn len_at(s: Seq<u8>, p: int) -> Option<(nat, int)> {
    if p < 0 || p >= s.len() {
        None
    } else if s[p] < 128 {
        Some((s[p] as nat, p + 1))
    } else if s[p] == 0x81 {
        if s.len() - p > 1 && s[p + 1] >= 128 {
            Some((s[p + 1] as nat, p + 2))
        } else {
            None
        }
    } else if s[p] == 0x82 {
        if s.len() - p > 2 && s[p + 1] != 0 {
            Some((s[p + 1] as nat * 256 + s[p + 2] as nat, p + 3))
        } else {
            None
        }
    } else {
        None
    }
}

/// Reads a length-prefixed byte string at `p`: the string and the position after it.
pub open spec fn var_at(s: Seq<u8>, p: int) -> Option<(Seq<u8>, int)> {
    match len_at(s, p) {
        Some((n, q)) => if q + n <= s.len() {
            Some((s.subrange(q, q + n), q + n))
        } else {
            None
        },
        None => None,
    }
}

pub open spec fn parse_prepare(b: Seq<u8>) -> Option<PacketView> {
    if b.len() < 57 {
        None
    } else {
        match var_at(b, 57) {
            Some((destination, q)) => match var_at(b, q) {
                Some((data, r)) => if r == b.len() && is_valid_address(destination) && data.len()
                    <= MAX_DATA_LEN {
                    Some(
                        PacketView::Prepare {
                            amount: be64_at(b, 0),
                            expires_at: b.subrange(8, 25),
                            execution_condition: b.subrange(25, 57),
                            destination,
                            data,
                        },
                    )
                } else {
                    None
                },
                None => None,
            },
            None => None,
        }
    }
}

pub open spec fn parse_fulfill(b: Seq<u8>) -> Option<PacketView> {
    if b.len() < 32 {
        None
    } else {
        match var_at(b, 32) {
            Some((data, r)) => if r == b.len() && data.len() <= MAX_DATA_LEN {
                Some(PacketView::Fulfill { fulfillment: b.subrange(0, 32), data })
            } else {
                None
            },
            None => None,
        }
    }
}

pub open spec fn parse_reject(b: Seq<u8>) -> Option<PacketView> {
    if b.len() < 3 {
        None
    } else {
        match var_at(b, 3) {
            Some((triggered_by, q1)) => match var_at(b, q1) {
                Some((message, q2)) => match var_at(b, q2) {
                    Some((data, r)) => if r == b.len() && (triggered_by.len() == 0
                        || is_valid_address(triggered_by)) && message.len() <= MAX_MESSAGE_LEN
                        && data.len() <= MAX_DATA_LEN {
                        Some(
                            PacketView::Reject {
                                code: b.subrange(0, 3),
                                triggered_by,
                                message,
                                data,
                            },
                        )
                    } else {
                        None
                    },
                    None => None,
                },
                None => None,
            },
            None => None,
        }
    }
}

/// The packet that a buffer holds, if it holds exactly one well-formed packet.
pub open spec fn parse_packet(s: Seq<u8>) -> Option<PacketView> {
    if s.len() < 1 {
        None
    } else {
        match var_at(s, 1) {
            Some((body, e)) => if e != s.len() {
                None
            } else if s[0] == PREPARE_TYPE {
                parse_prepare(body)
            } else if s[0] == FULFILL_TYPE {
                parse_fulfill(body)
            } else if s[0] == REJECT_TYPE {
                parse_reject(body)
            } else {
                None
            },
            None => None,
        }
    }
}

// ---- lemmas ----

pub proof fn lemma_be64(x: u64)
    ensures
        be64_at(be64(x), 0) == x,
{
    let s = be64(x);
    assert(((((x >> 56u64) as u8) as u64) << 56u64) | ((((x >> 48u64) as u8) as u64) << 48u64) | ((
    ((x >> 40u64) as u8) as u64) << 40u64) | ((((x >> 32u64) as u8) as u64) << 32u64) | ((((x
        >> 24u64) as u8) as u64) << 24u64) | ((((x >> 16u64) as u8) as u64) << 16u64) | ((((x
        >> 8u64) as u8) as u64) << 8u64) | ((x as u8) as u64) == x) by (bit_vector);
}

pub proof fn lemma_be64_at(a: Seq<u8>, x: u64, c: Seq<u8>)
    ensures
        be64_at(be64(x) + c, 0) == x,
{
    let s = be64(x) + c;
    lemma_be64(x);
    assert forall|i: int| 0 <= i < 8 implies s[i] == be64(x)[i] by {}
}

/// A length-prefixed string placed after `a` reads back as itself.
pub proof fn lemma_var_at(a: Seq<u8>, b: Seq<u8>, c: Seq<u8>)
    requires
        b.len() < 65536,
    ensures
        var_at(a + enc_var(b) + c, a.len() as int) == Some(
            (b, (a.len() + enc_var(b).len()) as int),
        ),
{
    let s = a + enc_var(b) + c;
    let p = a.len() as int;
    let n = b.len();
    let h = enc_len(n);
    assert forall|i: int| 0 <= i < h.len() implies s[p + i] == h[i] by {
        assert(s[p + i] == enc_var(b)[i]);
    }
    assert forall|i: int| 0 <= i < n implies s[p + h.len() + i] == b[i] by {
        assert(s[p + h.len() + i] == enc_var(b)[h.len() + i]);
    }
    if n < 128 {
        assert(len_at(s, p) == Some((n, p + 1)));
    } else if n < 256 {
        assert(len_at(s, p) == Some((n, p + 2)));
    } else {
        assert((n / 256) as u8 != 0);
        assert(((n / 256) as u8) as nat * 256 + ((n % 256) as u8) as nat == n);
        assert(len_at(s, p) == Some((n, p + 3)));
    }
    assert(s.subrange(p + h.len(), p + h.len() + n) =~= b);
}

proof fn lemma_envelope(tag: u8, body: Seq<u8>)
    requires
        body.len() < 65536,
    ensures
        var_at(seq![tag] + enc_var(body), 1) == Some((body, (seq![tag] + enc_var(body)).len() as int)),
        (seq![tag] + enc_var(body))[0] == tag,
{
    lemma_var_at(seq![tag], body, Seq::empty());
    assert(seq![tag] + enc_var(body) =~= seq![tag] + enc_var(body) + Seq::empty());
}

#[verifier::rlimit(50)]
proof fn lemma_prepare_body(
    amount: u64,
    expires_at: Seq<u8>,
    execution_condition: Seq<u8>,
    destination: Seq<u8>,
    data: Seq<u8>,
)
    requires
        packet_wf(PacketView::Prepare { amount, expires_at, execution_condition, destination, data }),
    ensures
        prepare_body(amount, expires_at, execution_condition, destination, data).len() < 65536,
        parse_prepare(prepare_body(amount, expires_at, execution_condition, destination, data))
            == Some(PacketView::Prepare { amount, expires_at, execution_condition, destination, data }),
{
    let body = prepare_body(amount, expires_at, execution_condition, destination, data);
    let x = be64(amount) + expires_at + execution_condition;
    lemma_var_at(x, destination, enc_var(data));
    assert(body =~= x + enc_var(destination) + enc_var(data));
    let y = x + enc_var(destination);
    lemma_var_at(y, data, Seq::empty());
    assert(body =~= y + enc_var(data) + Seq::empty());
    let rest = expires_at + execution_condition + enc_var(destination) + enc_var(data);
    lemma_be64_at(Seq::empty(), amount, rest);
    assert(be64(amount) + rest =~= body);
    assert(body.subrange(8, 25) =~= expires_at);
    assert(body.subrange(25, 57) =~= execution_condition);
}

proof fn lemma_fulfill_body(fulfillment: Seq<u8>, data: Seq<u8>)
    requires
        packet_wf(PacketView::Fulfill { fulfillment, data }),
    ensures
        fulfill_body(fulfillment, data).len() < 65536,
        parse_fulfill(fulfill_body(fulfillment, data)) == Some(PacketView::Fulfill { fulfillment, data }),
{
    let body = fulfill_body(fulfillment, data);
    lemma_var_at(fulfillment, data, Seq::empty());
    assert(body =~= fulfillment + enc_var(data) + Seq::empty());
    assert(body.subrange(0, 32) =~= fulfillment);
}

proof fn lemma_reject_body(code: Seq<u8>, triggered_by: Seq<u8>, message: Seq<u8>, data: Seq<u8>)
    requires
        packet_wf(PacketView::Reject { code, triggered_by, message, data }),
    ensures
        reject_body(code, triggered_by, message, data).len() < 65536,
        parse_reject(reject_body(code, triggered_by, message, data)) == Some(
            PacketView::Reject { code, triggered_by, message, data },
        ),
{
    let body = reject_body(code, triggered_by, message, data);
    lemma_var_at(code, triggered_by, enc_var(message) + enc_var(data));
    assert(body =~= code + enc_var(triggered_by) + (enc_var(message) + enc_var(data)));
    let y = code + enc_var(triggered_by);
    lemma_var_at(y, message, enc_var(data));
    assert(body =~= y + enc_var(message) + enc_var(data));
    let z = y + enc_var(message);
    lemma_var_at(z, data, Seq::empty());
    assert(body =~= z + enc_var(data) + Seq::empty());
    assert(body.subrange(0, 3) =~= code);
}

/// Decoding an encoded well-formed packet gives the packet back.
pub proof fn lemma_decode_encode(v: PacketView)
    requires
        packet_wf(v),
    ensures
        parse_packet(encode_packet(v)) == Some(v),
{
    match v {
        PacketView::Prepare { amount, expires_at, execution_condition, destination, data } => {
            lemma_prepare_body(amount, expires_at, execution_condition, destination, data);
            lemma_envelope(
                PREPARE_TYPE,
                prepare_body(amount, expires_at, execution_condition, destination, data),
            );
        },
        PacketView::Fulfill { fulfillment, data } => {
            lemma_fulfill_body(fulfillment, data);
            lemma_envelope(FULFILL_TYPE, fulfill_body(fulfillment, data));
        },
        PacketView::Reject { code, triggered_by, message, data } => {
            lemma_reject_body(code, triggered_by, message, data);
            lemma_envelope(REJECT_TYPE, reject_body(code, triggered_by, message, data));
        },
    }
}

/// A buffer too short to hold a header never decodes.
pub proof fn lemma_short_buffer_rejected(s: Seq<u8>)
    requires
        s.len() < MIN_HEADER_LEN,
    ensures
        parse_packet(s) is None,
{
}

/// A parsed packet is well formed.
pub proof fn lemma_parse_wf(s: Seq<u8>)
    requires
        parse_packet(s) is Some,
    ensures
        packet_wf(parse_packet(s)->Some_0),
{
}

// ---- executable packets ----

/// The buffer does not hold exactly one well-formed packet.
#[derive(Debug, PartialEq, Eq)]
pub struct InvalidPacketError;

#[derive(Debug, Clone)]
pub struct Prepare {
    pub amount: u64,
    pub expires_at: Vec<u8>,
    pub execution_condition: Vec<u8>,
    pub destination: Vec<u8>,
    pub data: Vec<u8>,
}

#[derive(Debug, Clone)]
pub struct Fulfill {
    pub fulfillment: Vec<u8>,
    pub data: Vec<u8>,
}

#[derive(Debug, Clone)]
pub struct Reject {
    pub code: Vec<u8>,
    pub triggered_by: Vec<u8>,
    pub message: Vec<u8>,
    pub data: Vec<u8>,
}

#[derive(Debug, Clone)]
pub enum Packet {
    Prepare(Prepare),
    Fulfill(Fulfill),
    Reject(Reject),
}

impl View for Prepare {
    type V = PacketView;

    open spec fn view(&self) -> PacketView {
        PacketView::Prepare {
            amount: self.amount,
            expires_at: self.expires_at@,
            execution_condition: self.execution_condition@,
            destination: self.destination@,
            data: self.data@,
        }
    }
}

impl View for Fulfill {
    type V = PacketView;

    open spec fn view(&self) -> PacketView {
        PacketView::Fulfill { fulfillment: self.fulfillment@, data: self.data@ }
    }
}

impl View for Reject {
    type V = PacketView;

    open spec fn view(&self) -> PacketView {
        PacketView::Reject {
            code: self.code@,
            triggered_by: self.triggered_by@,
            message: self.message@,
            data: self.data@,
        }
    }
}

impl View for Packet {
    type V = PacketView;

    open spec fn view(&self) -> PacketView {
        match self {
            Packet::Prepare(p) => p@,
            Packet::Fulfill(f) => f@,
            Packet::Reject(r) => r@,
        }
    }
}

impl Packet {
    pub open spec fn wf(&self) -> bool {
        packet_wf(self@)
    }
}

pub(crate) fn push_u64(out: &mut Vec<u8>, x: u64)
    ensures
        final(out)@ == old(out)@ + be64(x),
{
    out.push((x >> 56u64) as u8);
    out.push((x >> 48u64) as u8);
    out.push((x >> 40u64) as u8);
    out.push((x >> 32u64) as u8);
    out.push((x >> 24u64) as u8);
    out.push((x >> 16u64) as u8);
    out.push((x >> 8u64) as u8);
    out.push(x as u8);
    assert(out@ =~= old(out)@ + be64(x));
}

pub(crate) fn push_var(out: &mut Vec<u8>, b: &[u8])
    requires
        b@.len() < 65536,
    ensures
        final(out)@ == old(out)@ + enc_var(b@),
{
    let n = b.len();
    if n < 128 {
        out.push(n as u8);
    } else if n < 256 {
        out.push(0x81u8);
        out.push(n as u8);
    } else {
        out.push(0x82u8);
        out.push((n / 256) as u8);
        out.push((n % 256) as u8);
    }
    assert(out@ =~= old(out)@ + enc_len(n as nat));
    append_bytes(out, b);
    assert(final(out)@ =~= old(out)@ + enc_var(b@));
}

/// Serializes a well-formed packet.
pub fn encode(p: &Packet) -> (r: Vec<u8>)
    requires
        p.wf(),
    ensures
        r@ == encode_packet(p@),
{
    let mut body: Vec<u8> = Vec::new();
    let mut out: Vec<u8> = Vec::new();
    match p {
        Packet::Prepare(q) => {
            proof {
                lemma_prepare_body(q.amount, q.expires_at@, q.execution_condition@, q.destination@, q.data@);
            }
            push_u64(&mut body, q.amount);
            append_bytes(&mut body, q.expires_at.as_slice());
            append_bytes(&mut body, q.execution_condition.as_slice());
            push_var(&mut body, q.destination.as_slice());
            push_var(&mut body, q.data.as_slice());
            assert(body@ =~= prepare_body(q.amount, q.expires_at@, q.execution_condition@, q.destination@, q.data@));
            out.push(PREPARE_TYPE);
        },
        Packet::Fulfill(f) => {
            proof {
                lemma_fulfill_body(f.fulfillment@, f.data@);
            }
            append_bytes(&mut body, f.fulfillment.as_slice());
            push_var(&mut body, f.data.as_slice());
            assert(body@ =~= fulfill_body(f.fulfillment@, f.data@));
            out.push(FULFILL_TYPE);
        },
        Packet::Reject(j) => {
            proof {
                lemma_reject_body(j.code@, j.triggered_by@, j.message@, j.data@);
            }
            append_bytes(&mut body, j.code.as_slice());
            push_var(&mut body, j.triggered_by.as_slice());
            push_var(&mut body, j.message.as_slice());
            push_var(&mut body, j.data.as_slice());
            assert(body@ =~= reject_body(j.code@, j.triggered_by@, j.message@, j.data@));
            out.push(REJECT_TYPE);
        },
    }
    push_var(&mut out, body.as_slice());
    out
}

fn read_len(s: &[u8], p: usize) -> (r: Option<(usize, usize)>)
    ensures
        match r {
            None => len_at(s@, p as int) is None,
            Some((n, q)) => len_at(s@, p as int) == Some((n as nat, q as int)) && q <= s@.len(),
        },
{
    if p >= s.len() {
        return None;
    }
    let c = s[p];
    if c < 128 {
        Some((c as usize, p + 1))
    } else if c == 0x81 {
        if s.len() - p > 1 && s[p + 1] >= 128 {
            Some((s[p + 1] as usize, p + 2))
        } else {
            None
        }
    } else if c == 0x82 {
        if s.len() - p > 2 && s[p + 1] != 0 {
            Some((s[p + 1] as usize * 256 + s[p + 2] as usize, p + 3))
        } else {
            None
        }
    } else {
        None
    }
}

pub(crate) fn read_var(s: &[u8], p: usize) -> (r: Option<(usize, usize)>)
    ensures
        match r {
            None => var_at(s@, p as int) is None,
            Some((a, e)) => a <= e <= s@.len() && var_at(s@, p as int) == Some(
                (s@.subrange(a as int, e as int), e as int),
            ),
        },
{
    match read_len(s, p) {
        None => None,
        Some((n, q)) => {
            if n <= s.len() - q {
                Some((q, q + n))
            } else {
                None
            }
        },
    }
}

pub(crate) fn read_u64(s: &[u8], p: usize) -> (r: u64)
    requires
        p + 8 <= s@.len(),
    ensures
        r == be64_at(s@, p as int),
{
    ((s[p] as u64) << 56u64) | ((s[p + 1] as u64) << 48u64) | ((s[p + 2] as u64) << 40u64) | ((
    s[p + 3] as u64) << 32u64) | ((s[p + 4] as u64) << 24u64) | ((s[p + 5] as u64) << 16u64) | ((
    s[p + 6] as u64) << 8u64) | (s[p + 7] as u64)
}

fn decode_prepare(b: &[u8]) -> (r: Option<Packet>)
    ensures
        match r {
            None => parse_prepare(b@) is None,
            Some(p) => parse_prepare(b@) == Some(p@),
        },
{
    if b.len() < 57 {
        return None;
    }
    let (d0, d1) = match read_var(b, 57) {
        Some(x) => x,
        None => return None,
    };
    let (x0, x1) = match read_var(b, d1) {
        Some(x) => x,
        None => return None,
    };
    if x1 != b.len() || x1 - x0 > MAX_DATA_LEN {
        return None;
    }
    let destination = copy_range(b, d0, d1);
    if !check_address(destination.as_slice()) {
        return None;
    }
    let p = Prepare {
        amount: read_u64(b, 0),
        expires_at: copy_range(b, 8, 25),
        execution_condition: copy_range(b, 25, 57),
        destination,
        data: copy_range(b, x0, x1),
    };
    Some(Packet::Prepare(p))
}

fn decode_fulfill(b: &[u8]) -> (r: Option<Packet>)
    ensures
        match r {
            None => parse_fulfill(b@) is None,
            Some(p) => parse_fulfill(b@) == Some(p@),
        },
{
    if b.len() < 32 {
        return None;
    }
    let (x0, x1) = match read_var(b, 32) {
        Some(x) => x,
        None => return None,
    };
    if x1 != b.len() || x1 - x0 > MAX_DATA_LEN {
        return None;
    }
    Some(Packet::Fulfill(Fulfill { fulfillment: copy_range(b, 0, 32), data: copy_range(b, x0, x1) }))
}

fn decode_reject(b: &[u8]) -> (r: Option<Packet>)
    ensures
        match r {
            None => parse_reject(b@) is None,
            Some(p) => parse_reject(b@) == Some(p@),
        },
{
    if b.len() < 3 {
        return None;
    }
    let (t0, t1) = match read_var(b, 3) {
        Some(x) => x,
        None => return None,
    };
    let (m0, m1) = match read_var(b, t1) {
        Some(x) => x,
        None => return None,
    };
    let (x0, x1) = match read_var(b, m1) {
        Some(x) => x,
        None => return None,
    };
    if x1 != b.len() || x1 - x0 > MAX_DATA_LEN || m1 - m0 > MAX_MESSAGE_LEN {
        return None;
    }
    let triggered_by = copy_range(b, t0, t1);
    if triggered_by.len() != 0 && !check_address(triggered_by.as_slice()) {
        return None;
    }
    Some(
        Packet::Reject(
            Reject {
                code: copy_range(b, 0, 3),
                triggered_by,
                message: copy_range(b, m0, m1),
                data: copy_range(b, x0, x1),
            },
        ),
    )
}

/// Parses a buffer that holds exactly one packet.
pub fn decode(s: &[u8]) -> (r: Result<Packet, InvalidPacketError>)
    ensures
        match r {
            Ok(p) => parse_packet(s@) == Some(p@) && p.wf(),
            Err(_) => parse_packet(s@) is None,
        },
{
    if s.len() < 1 {
        return Err(InvalidPacketError);
    }
    let (b0, b1) = match read_var(s, 1) {
        Some(x) => x,
        None => return Err(InvalidPacketError),
    };
    if b1 != s.len() {
        return Err(InvalidPacketError);
    }
    let body = copy_range(s, b0, b1);
    let tag = s[0];
    let r = if tag == PREPARE_TYPE {
        decode_prepare(body.as_slice())
    } else if tag == FULFILL_TYPE {
        decode_fulfill(body.as_slice())
    } else if tag == REJECT_TYPE {
        decode_reject(body.as_slice())
    } else {
        None
    };
    match r {
        Some(p) => {
            proof {
                lemma_parse_wf(s@);
            }
            Ok(p)
        },
        None => Err(InvalidPacketError),
    }
}

} // verus!
