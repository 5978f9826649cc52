use vstd::prelude::*;
use crate::octets::copy_bytes;

verus! {

/// The separator between segments (`.`).
pub const DOT: u8 = 0x2e;

/// Longest address accepted, in bytes.
pub const MAX_ADDRESS_LEN: usize = 1023;

/// Longest segment accepted, in bytes.
pub const MAX_SEGMENT_LEN: usize = 63;

/// A byte that may appear inside an address segment.
pub open spec fn is_segment_byte(c: u8) -> bool {
    (0x61 <= c && c <= 0x7a) || (0x41 <= c && c <= 0x5a) || (0x30 <= c && c <= 0x39) || c == 0x5f
        || c == 0x7e || c == 0x2d
}

/// Number of segment bytes that run up to (not including) position `i`.
pub open spec fn run_before(s: Seq<u8>, i: int) -> nat
    decreases i,
{
    if i <= 0 {
        0
    } else if s[i - 1] == DOT {
        0
    } else {
        run_before(s, i - 1) + 1
    }
}

/// A non-empty, dot-separated sequence of non-empty segments of bounded length.
pub open spec fn is_valid_address(s: Seq<u8>) -> bool {
    &&& 1 <= s.len() <= MAX_ADDRESS_LEN
    &&& forall|i: int| 0 <= i < s.len() ==> (is_segment_byte(#[trigger] s[i]) || s[i] == DOT)
    &&& forall|i: int| 0 <= i < s.len() && #[trigger] s[i] == DOT ==> run_before(s, i) >= 1
    &&& forall|i: int| 0 <= i <= s.len() ==> #[trigger] run_before(s, i) <= MAX_SEGMENT_LEN
    &&& s[s.len() - 1] != DOT
}

/// `p` is a prefix of `s`, byte by byte; the empty prefix matches everything.
pub open spec fn is_prefix(p: Seq<u8>, s: Seq<u8>) -> bool {
    p.len() <= s.len() && s.subrange(0, p.len() as int) == p
}

fn segment_byte(c: u8) -> (r: bool)
    ensures
        r == is_segment_byte(c),
{
    (0x61 <= c && c <= 0x7a) || (0x41 <= c && c <= 0x5a) || (0x30 <= c && c <= 0x39) || c == 0x5f
        || c == 0x7e || c == 0x2d
}

/// Decides whether `s` is a well-formed address.
pub fn check_address(s: &[u8]) -> (r: bool)
    ensures
        r == is_valid_address(s@),
{
    if s.len() == 0 || s.len() > MAX_ADDRESS_LEN {
        return false;
    }
    if s[s.len() - 1] == DOT {
        return false;
    }
    let mut run: usize = 0;
    let mut i: usize = 0;
    while i < s.len()
        invariant
            0 <= i <= s.len(),
            1 <= s@.len() <= MAX_ADDRESS_LEN,
            run as nat == run_before(s@, i as int),
            forall|k: int| 0 <= k < i ==> (is_segment_byte(#[trigger] s@[k]) || s@[k] == DOT),
            forall|k: int| 0 <= k < i && #[trigger] s@[k] == DOT ==> run_before(s@, k) >= 1,
            forall|k: int| 0 <= k <= i ==> #[trigger] run_before(s@, k) <= MAX_SEGMENT_LEN,
        decreases s.len() - i,
    {
        let c = s[i];
        if c == DOT {
            if run == 0 {
                return false;
            }
            run = 0;
        } else if segment_byte(c) {
            if run == MAX_SEGMENT_LEN {
                assert(run_before(s@, i as int + 1) > MAX_SEGMENT_LEN);
                return false;
            }
            run = run + 1;
        } else {
            return false;
        }
        i = i + 1;
        assert(run as nat == run_before(s@, i as int));
    }
    true
}

/// Decides whether `p` is a byte prefix of `s`.
pub fn starts_with(s: &[u8], p: &[u8]) -> (r: bool)
    ensures
        r == is_prefix(p@, s@),
{
    if p.len() > s.len() {
        return false;
    }
    let mut i: usize = 0;
    while i < p.len()
        invariant
            p.len() <= s.len(),
            0 <= i <= p.len(),
            forall|k: int| 0 <= k < i ==> s@[k] == p@[k],
        decreases p.len() - i,
    {
        if s[i] != p[i] {
            assert(s@.subrange(0, p.len() as int)[i as int] != p@[i as int]);
            return false;
        }
        i = i + 1;
    }
    assert(s@.subrange(0, p.len() as int) =~= p@);
    true
}

/// An error for a byte string that is not a well-formed address.
#[derive(Debug, PartialEq, Eq)]
pub struct InvalidAddressError;

/// A validated ILP address.
#[derive(Debug)]
pub struct Address {
    bytes: Vec<u8>,
}

impl View for Address {
    type V = Seq<u8>;

    closed spec fn view(&self) -> Seq<u8> {
        self.bytes@
    }
}

impl Address {
    pub open spec fn wf(&self) -> bool {
        is_valid_address(self@)
    }

    /// Parses an address, failing when the bytes are not well formed.
    pub fn new(s: &[u8]) -> (r: Result<Address, InvalidAddressError>)
        ensures
            r is Ok <==> is_valid_address(s@),
            r matches Ok(a) ==> a@ == s@ && a.wf(),
    {
        if check_address(s) {
            Ok(Address { bytes: copy_bytes(s) })
        } else {
            Err(InvalidAddressError)
        }
    }

    pub fn as_bytes(&self) -> (r: &[u8])
        ensures
            r@ == self@,
    {
        self.bytes.as_slice()
    }

    pub fn len(&self) -> (r: usize)
        ensures
            r == self@.len(),
    {
        self.bytes.len()
    }

    /// Whether `prefix` is a byte prefix of this address.
    pub fn has_prefix(&self, prefix: &[u8]) -> (r: bool)
        ensures
            r == is_prefix(prefix@, self@),
    {
        starts_with(self.bytes.as_slice(), prefix)
    }
}

} // verus!
