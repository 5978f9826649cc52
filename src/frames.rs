use vstd::prelude::*;
use crate::octets::{append_bytes, copy_range};
use crate::address::{check_address, is_valid_address};
use crate::octets::copy_bytes;
use crate::packet::{
    be64, be64_at, enc_var, lemma_be64, lemma_var_at, push_u64, push_var, read_u64, read_var, var_at,
};

verus! {

/// Frame type of `ConnectionClose`.
pub const CONNECTION_CLOSE: u8 = 0x01;

/// Frame type of `ConnectionNewAddress`.
pub const CONNECTION_NEW_ADDRESS: u8 = 0x02;

/// Frame type of `ConnectionAssetDetails`.
pub const CONNECTION_ASSET_DETAILS: u8 = 0x07;

/// Frame type of `StreamClose`.
pub const STREAM_CLOSE: u8 = 0x10;

/// Frame type of `StreamMoney`.
pub const STREAM_MONEY: u8 = 0x11;

/// Frame type of `StreamMaxMoney`.
pub const STREAM_MAX_MONEY: u8 = 0x12;

/// Longest frame contents accepted.
pub const MAX_FRAME_LEN: usize = 65535;

/// One self-describing frame: its type and its contents.
#[derive(Debug, Clone)]
pub struct Frame {
    pub kind: u8,
    pub contents: Vec<u8>,
}

impl View for Frame {
    type V = (u8, Seq<u8>);

    open spec fn view(&self) -> (u8, Seq<u8>) {
        (self.kind, self.contents@)
    }
}

/// Frames whose contents fit a length prefix.
pub open spec fn frames_fit(fs: Seq<(u8, Seq<u8>)>) -> bool {
    forall|i: int| 0 <= i < fs.len() ==> (#[trigger] fs[i]).1.len() <= MAX_FRAME_LEN
}

/// Frames in ascending order of type.
pub open spec fn frames_sorted(fs: Seq<(u8, Seq<u8>)>) -> bool {
    forall|i: int, j: int| 0 <= i < j < fs.len() ==> (#[trigger] fs[i]).0 <= (#[trigger] fs[j]).0
}

/// The bytes of a frame sequence: each frame's type, then its length-prefixed contents.
pub open spec fn enc_frames(fs: Seq<(u8, Seq<u8>)>) -> Seq<u8>
    decreases fs.len(),
{
    if fs.len() == 0 {
        Seq::empty()
    } else {
        seq![fs[0].0] + enc_var(fs[0].1) + enc_frames(fs.drop_first())
    }
}

/// The frames held by `s` from position `p` to its end, if it holds exactly a sequence of
/// frames there. Frames of any type are read, so unknown ones can be skipped.
pub open spec fn frames_at(s: Seq<u8>, p: int) -> Option<Seq<(u8, Seq<u8>)>>
    decreases s.len() - p,
{
    if p < 0 || p > s.len() {
        None
    } else if p == s.len() {
        Some(Seq::empty())
    } else {
        match var_at(s, p + 1) {
            Some((c, q)) => if q > p {
                match frames_at(s, q) {
                    Some(rest) => Some(seq![(s[p], c)] + rest),
                    None => None,
                }
            } else {
                None
            },
            None => None,
        }
    }
}

/// Reading the bytes of a frame sequence gives the frames back.
pub proof fn lemma_frames_round_trip(a: Seq<u8>, fs: Seq<(u8, Seq<u8>)>)
    requires
        frames_fit(fs),
    ensures
        frames_at(a + enc_frames(fs), a.len() as int) == Some(fs),
    decreases fs.len(),
{
    let s = a + enc_frames(fs);
    if fs.len() == 0 {
        assert(s =~= a);
    } else {
        let (t, c) = fs[0];
        let rest = fs.drop_first();
        assert(frames_fit(rest)) by {
            assert forall|i: int| 0 <= i < rest.len() implies (#[trigger] rest[i]).1.len()
                <= MAX_FRAME_LEN by {
                assert(rest[i] == fs[i + 1]);
            }
        }
        assert(fs[0].1.len() <= MAX_FRAME_LEN);
        let a1 = a + seq![t];
        lemma_var_at(a1, c, enc_frames(rest));
        assert(s =~= a1 + enc_var(c) + enc_frames(rest));
        let a2 = a1 + enc_var(c);
        lemma_frames_round_trip(a2, rest);
        assert(s =~= a2 + enc_frames(rest));
        assert(s[a.len() as int] == t);
        assert(seq![(t, c)] + rest =~= fs);
    }
}

fn push_frame(out: &mut Vec<u8>, f: &Frame)
    requires
        f.contents@.len() <= MAX_FRAME_LEN,
    ensures
        final(out)@ == old(out)@ + (seq![f.kind] + enc_var(f.contents@)),
{
    out.push(f.kind);
    let n = f.contents.len();
    if n < 128 {
        out.push(n as u8);
    } else if n < 256 {
        out.push(0x81u8);
        out.push(n as u8);
    } else {
        out.push(0x82u8);
        out.push((n / 256) as u8);
        out.push((n % 256) as u8);
    }
    append_bytes(out, f.contents.as_slice());
    assert(final(out)@ =~= old(out)@ + (seq![f.kind] + enc_var(f.contents@)));
}

pub open spec fn frames_view(fs: Seq<Frame>) -> Seq<(u8, Seq<u8>)> {
    fs.map_values(|f: Frame| f@)
}

/// Packs frames, given in ascending order of type, into bytes.
pub fn encode_frames(frames: &[Frame]) -> (r: Vec<u8>)
    requires
        frames_fit(frames_view(frames@)),
        frames_sorted(frames_view(frames@)),
    ensures
        r@ == enc_frames(frames_view(frames@)),
{
    let ghost fs = frames_view(frames@);
    let mut i: usize = frames.len();
    let mut tail: Vec<u8> = Vec::new();
    // build from the last frame back so that each step prepends one frame
    while i > 0
        invariant
            0 <= i <= frames@.len(),
            fs == frames_view(frames@),
            frames_fit(fs),
            tail@ == enc_frames(fs.subrange(i as int, fs.len() as int)),
        decreases i,
    {
        i = i - 1;
        assert(fs[i as int] == frames@[i as int]@);
        let mut head: Vec<u8> = Vec::new();
        push_frame(&mut head, &frames[i]);
        append_bytes(&mut head, tail.as_slice());
        let ghost sub = fs.subrange(i as int, fs.len() as int);
        assert(sub.drop_first() =~= fs.subrange(i + 1, fs.len() as int));
        assert(sub[0] == fs[i as int]);
        tail = head;
    }
    assert(fs.subrange(0, fs.len() as int) =~= fs);
    tail
}

/// The frames could not be read.
#[derive(Debug, PartialEq, Eq)]
pub struct InvalidFramesError;

/// Reads a sequence of frames filling all of `s`.
pub fn decode_frames(s: &[u8]) -> (r: Result<Vec<Frame>, InvalidFramesError>)
    ensures
        r is Err <==> frames_at(s@, 0) is None,
        r matches Ok(fs) ==> frames_at(s@, 0) == Some(frames_view(fs@)),
{
    decode_frames_from(s, 0)
}

/// Reads a sequence of frames filling `s` from position `start` to its end.
pub fn decode_frames_from(s: &[u8], start: usize) -> (r: Result<Vec<Frame>, InvalidFramesError>)
    requires
        start <= s@.len(),
    ensures
        r is Err <==> frames_at(s@, start as int) is None,
        r matches Ok(fs) ==> frames_at(s@, start as int) == Some(frames_view(fs@)),
{
    let mut out: Vec<Frame> = Vec::new();
    let mut p: usize = start;
    assert(frames_view(out@) + Seq::<(u8, Seq<u8>)>::empty() =~= Seq::<(u8, Seq<u8>)>::empty());
    while p < s.len()
        invariant
            start <= p <= s@.len(),
            frames_at(s@, start as int) == match frames_at(s@, p as int) {
                Some(rest) => Some(frames_view(out@) + rest),
                None => None::<Seq<(u8, Seq<u8>)>>,
            },
        decreases s@.len() - p,
    {
        let kind = s[p];
        match read_frame_contents(s, p + 1) {
            None => {
                return Err(InvalidFramesError);
            },
            Some((a, e)) => {
                let f = Frame { kind, contents: copy_range(s, a, e) };
                proof {
                    assert(frames_view(out@.push(f)) =~= frames_view(out@) + seq![(kind, f.contents@)]);
                }
                out.push(f);
                p = e;
            },
        }
    }
    assert(frames_view(out@) + Seq::<(u8, Seq<u8>)>::empty() =~= frames_view(out@));
    Ok(out)
}

/// The address announced by the first well-formed `ConnectionNewAddress` frame of `fs`.
pub open spec fn first_announced(fs: Seq<(u8, Seq<u8>)>) -> Option<Seq<u8>>
    decreases fs.len(),
{
    if fs.len() == 0 {
        None
    } else if fs[0].0 == CONNECTION_NEW_ADDRESS && is_valid_address(fs[0].1) {
        Some(fs[0].1)
    } else {
        first_announced(fs.drop_first())
    }
}

/// Whether `fs` holds a well-formed `StreamMoney` frame with a positive share, which the
/// money of a packet is credited through.
pub open spec fn carries_money(fs: Seq<(u8, Seq<u8>)>) -> bool
    decreases fs.len(),
{
    if fs.len() == 0 {
        false
    } else if fs[0].0 == STREAM_MONEY && fs[0].1.len() == 16 && be64_at(fs[0].1, 8) > 0 {
        true
    } else {
        carries_money(fs.drop_first())
    }
}

/// Decides whether the frames carry money.
pub fn has_money(frames: &[Frame]) -> (r: bool)
    ensures
        r == carries_money(frames_view(frames@)),
{
    let ghost fs = frames_view(frames@);
    assert(fs.subrange(0, fs.len() as int) =~= fs);
    let mut i: usize = 0;
    while i < frames.len()
        invariant
            0 <= i <= frames@.len(),
            fs == frames_view(frames@),
            carries_money(fs) == carries_money(fs.subrange(i as int, fs.len() as int)),
        decreases frames@.len() - i,
    {
        let ghost sub = fs.subrange(i as int, fs.len() as int);
        assert(sub[0] == frames@[i as int]@);
        assert(sub.drop_first() =~= fs.subrange(i + 1, fs.len() as int));
        match read_stream_money(&frames[i]) {
            Some((_, shares)) => {
                if shares > 0 {
                    return true;
                }
            },
            None => {},
        }
        i = i + 1;
    }
    assert(fs.subrange(i as int, fs.len() as int).len() == 0);
    false
}

/// Finds the address announced by the first well-formed `ConnectionNewAddress` frame.
pub fn find_announced(frames: &[Frame]) -> (r: Option<Vec<u8>>)
    ensures
        r matches Some(a) ==> first_announced(frames_view(frames@)) == Some(a@),
        r is None ==> first_announced(frames_view(frames@)) is None,
{
    let ghost fs = frames_view(frames@);
    assert(fs.subrange(0, fs.len() as int) =~= fs);
    let mut i: usize = 0;
    while i < frames.len()
        invariant
            0 <= i <= frames@.len(),
            fs == frames_view(frames@),
            first_announced(fs) == first_announced(fs.subrange(i as int, fs.len() as int)),
        decreases frames@.len() - i,
    {
        let ghost sub = fs.subrange(i as int, fs.len() as int);
        assert(sub[0] == frames@[i as int]@);
        assert(sub.drop_first() =~= fs.subrange(i + 1, fs.len() as int));
        match read_new_address(&frames[i]) {
            Some(a) => {
                return Some(a);
            },
            None => {},
        }
        i = i + 1;
    }
    assert(fs.subrange(i as int, fs.len() as int).len() == 0);
    None
}

fn read_frame_contents(s: &[u8], p: usize) -> (r: Option<(usize, usize)>)
    requires
        1 <= p <= s@.len(),
    ensures
        match r {
            None => var_at(s@, p as int) is None,
            Some((a, e)) => a <= e <= s@.len() && e > p && var_at(s@, p as int) == Some(
                (s@.subrange(a as int, e as int), e as int),
            ),
        },
{
    crate::packet::read_var(s, p)
}

/// Contents of a `StreamMoney` frame: the stream id, then the shares, big-endian.
pub open spec fn money_contents(stream_id: u64, shares: u64) -> Seq<u8> {
    be64(stream_id) + be64(shares)
}

proof fn lemma_two_u64(a: u64, b: u64)
    ensures
        be64_at(be64(a) + be64(b), 0) == a,
        be64_at(be64(a) + be64(b), 8) == b,
{
    let s = be64(a) + be64(b);
    lemma_be64(a);
    lemma_be64(b);
    assert forall|i: int| 0 <= i < 8 implies s[i] == be64(a)[i] && s[8 + i] == be64(b)[i] by {}
}

/// A `StreamMoney` frame carrying `shares` for stream `stream_id`.
pub fn stream_money(stream_id: u64, shares: u64) -> (r: Frame)
    ensures
        r@ == (STREAM_MONEY, money_contents(stream_id, shares)),
{
    let mut c: Vec<u8> = Vec::new();
    let mut i: u32 = 0;
    while i < 2
        invariant
            0 <= i <= 2,
            i == 0 ==> c@ == Seq::<u8>::empty(),
            i == 1 ==> c@ == be64(stream_id),
            i == 2 ==> c@ == money_contents(stream_id, shares),
        decreases 2 - i,
    {
        let x = if i == 0 {
            stream_id
        } else {
            shares
        };
        let ghost before = c@;
        c.push((x >> 56u64) as u8);
        c.push((x >> 48u64) as u8);
        c.push((x >> 40u64) as u8);
        c.push((x >> 32u64) as u8);
        c.push((x >> 24u64) as u8);
        c.push((x >> 16u64) as u8);
        c.push((x >> 8u64) as u8);
        c.push(x as u8);
        assert(c@ =~= before + be64(x));
        i = i + 1;
    }
    Frame { kind: STREAM_MONEY, contents: c }
}

/// The stream id and shares of a `StreamMoney` frame.
pub fn read_stream_money(f: &Frame) -> (r: Option<(u64, u64)>)
    ensures
        r is Some <==> f.kind == STREAM_MONEY && f.contents@.len() == 16,
        r matches Some((id, shares)) ==> id == be64_at(f.contents@, 0) && shares == be64_at(
            f.contents@,
            8,
        ),
{
    if f.kind != STREAM_MONEY || f.contents.len() != 16 {
        return None;
    }
    Some((read_u64(f.contents.as_slice(), 0), read_u64(f.contents.as_slice(), 8)))
}

/// Reading a `StreamMoney` frame gives back its stream id and shares.
pub proof fn lemma_money_round_trip(stream_id: u64, shares: u64)
    ensures
        money_contents(stream_id, shares).len() == 16,
        be64_at(money_contents(stream_id, shares), 0) == stream_id,
        be64_at(money_contents(stream_id, shares), 8) == shares,
{
    lemma_two_u64(stream_id, shares);
}

/// A `ConnectionNewAddress` frame announcing `address`.
pub fn new_address(address: &[u8]) -> (r: Frame)
    ensures
        r@ == (CONNECTION_NEW_ADDRESS, address@),
{
    Frame { kind: CONNECTION_NEW_ADDRESS, contents: copy_bytes(address) }
}

/// The address announced by a `ConnectionNewAddress` frame, if it is well formed.
pub fn read_new_address(f: &Frame) -> (r: Option<Vec<u8>>)
    ensures
        r is Some <==> f.kind == CONNECTION_NEW_ADDRESS && is_valid_address(f.contents@),
        r matches Some(a) ==> a@ == f.contents@,
{
    if f.kind != CONNECTION_NEW_ADDRESS || !check_address(f.contents.as_slice()) {
        return None;
    }
    Some(copy_bytes(f.contents.as_slice()))
}

/// A `StreamMaxMoney` frame: what stream `stream_id` has received and may receive.
pub fn stream_max_money(stream_id: u64, total_received: u64, receive_max: u64) -> (r: Frame)
    ensures
        r@ == (STREAM_MAX_MONEY, be64(stream_id) + be64(total_received) + be64(receive_max)),
{
    let mut c: Vec<u8> = Vec::new();
    push_u64(&mut c, stream_id);
    push_u64(&mut c, total_received);
    push_u64(&mut c, receive_max);
    Frame { kind: STREAM_MAX_MONEY, contents: c }
}

/// The stream id, total received and receive maximum of a `StreamMaxMoney` frame.
pub fn read_stream_max_money(f: &Frame) -> (r: Option<(u64, u64, u64)>)
    ensures
        r is Some <==> f.kind == STREAM_MAX_MONEY && f.contents@.len() == 24,
        r matches Some((id, total, max)) ==> id == be64_at(f.contents@, 0) && total == be64_at(
            f.contents@,
            8,
        ) && max == be64_at(f.contents@, 16),
{
    if f.kind != STREAM_MAX_MONEY || f.contents.len() != 24 {
        return None;
    }
    let c = f.contents.as_slice();
    Some((read_u64(c, 0), read_u64(c, 8), read_u64(c, 16)))
}

/// A `ConnectionClose` frame: an error code, then a message.
pub fn connection_close(code: u8, message: &[u8]) -> (r: Frame)
    ensures
        r@ == (CONNECTION_CLOSE, seq![code] + message@),
{
    let mut c: Vec<u8> = vec![code];
    append_bytes(&mut c, message);
    Frame { kind: CONNECTION_CLOSE, contents: c }
}

/// The code and message of a `ConnectionClose` frame.
pub fn read_connection_close(f: &Frame) -> (r: Option<(u8, Vec<u8>)>)
    ensures
        r is Some <==> f.kind == CONNECTION_CLOSE && f.contents@.len() >= 1,
        r matches Some((code, message)) ==> seq![code] + message@ == f.contents@,
{
    if f.kind != CONNECTION_CLOSE || f.contents.len() < 1 {
        return None;
    }
    let message = copy_range(f.contents.as_slice(), 1, f.contents.len());
    assert(seq![f.contents@[0]] + message@ =~= f.contents@);
    Some((f.contents[0], message))
}

/// A `StreamClose` frame: the stream id, an error code, then a message.
pub fn stream_close(stream_id: u64, code: u8, message: &[u8]) -> (r: Frame)
    ensures
        r@ == (STREAM_CLOSE, be64(stream_id) + seq![code] + message@),
{
    let mut c: Vec<u8> = Vec::new();
    push_u64(&mut c, stream_id);
    c.push(code);
    append_bytes(&mut c, message);
    Frame { kind: STREAM_CLOSE, contents: c }
}

/// The stream id, code and message of a `StreamClose` frame.
pub fn read_stream_close(f: &Frame) -> (r: Option<(u64, u8, Vec<u8>)>)
    ensures
        r is Some <==> f.kind == STREAM_CLOSE && f.contents@.len() >= 9,
        r matches Some((id, code, message)) ==> id == be64_at(f.contents@, 0) && code
            == f.contents@[8] && message@ == f.contents@.subrange(9, f.contents@.len() as int),
{
    if f.kind != STREAM_CLOSE || f.contents.len() < 9 {
        return None;
    }
    let c = f.contents.as_slice();
    Some((read_u64(c, 0), c[8], copy_range(c, 9, c.len())))
}

/// A `ConnectionAssetDetails` frame: the length-prefixed asset code, then the scale.
pub fn asset_details(code: &[u8], scale: u8) -> (r: Frame)
    requires
        code@.len() <= MAX_FRAME_LEN,
    ensures
        r@ == (CONNECTION_ASSET_DETAILS, enc_var(code@) + seq![scale]),
{
    let mut c: Vec<u8> = Vec::new();
    push_var(&mut c, code);
    c.push(scale);
    assert(c@ =~= enc_var(code@) + seq![scale]);
    Frame { kind: CONNECTION_ASSET_DETAILS, contents: c }
}

/// The asset code and scale of a `ConnectionAssetDetails` frame.
pub fn read_asset_details(f: &Frame) -> (r: Option<(Vec<u8>, u8)>)
    ensures
        r is Some <==> f.kind == CONNECTION_ASSET_DETAILS && (var_at(f.contents@, 0) matches Some(
            (_, e),
        ) && e + 1 == f.contents@.len()),
        r matches Some((code, scale)) ==> var_at(f.contents@, 0) == Some(
            (code@, (f.contents@.len() - 1) as int),
        ) && scale == f.contents@[f.contents@.len() - 1],
{
    if f.kind != CONNECTION_ASSET_DETAILS {
        return None;
    }
    let c = f.contents.as_slice();
    match read_var(c, 0) {
        Some((a, e)) => {
            if e + 1 != c.len() {
                return None;
            }
            Some((copy_range(c, a, e), c[e]))
        },
        None => None,
    }
}

/// Reading a `ConnectionAssetDetails` frame gives back its code and scale.
pub proof fn lemma_asset_details_round_trip(code: Seq<u8>, scale: u8)
    requires
        code.len() <= MAX_FRAME_LEN,
    ensures
        var_at(enc_var(code) + seq![scale], 0) == Some((code, enc_var(code).len() as int)),
        (enc_var(code) + seq![scale])[enc_var(code).len() as int] == scale,
{
    lemma_var_at(Seq::empty(), code, seq![scale]);
    assert(Seq::<u8>::empty() + enc_var(code) + seq![scale] =~= enc_var(code) + seq![scale]);
}

} // verus!
