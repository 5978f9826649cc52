use vstd::prelude::*;
use crate::address::{check_address, is_valid_address};
use crate::octets::{append_bytes, copy_range};

verus! {

/// Bytes of randomness in a token.
pub const TOKEN_BYTES: usize = 18;

/// Bytes in a connection secret.
pub const SECRET_BYTES: usize = 32;

/// The unpadded URL-safe base64 encoding of a byte string.
pub uninterp spec fn base64_url_of(b: Seq<u8>) -> Seq<char>;

/// Relies on ring::rand::SystemRandom (through SecureRandom::fill): `true` when every byte
/// of `dest` was filled from the system's secure generator. Nothing is known of the bytes.
#[verifier::external_body]
fn fill_random<const N: usize>(dest: &mut [u8; N]) -> (ok: bool) {
    ring::rand::SecureRandom::fill(&ring::rand::SystemRandom::new(), dest).is_ok()
}

/// A character of the URL-safe base64 alphabet: letters, digits, `-` and `_`.
pub open spec fn is_url_safe(c: char) -> bool {
    ('a' <= c && c <= 'z') || ('A' <= c && c <= 'Z') || ('0' <= c && c <= '9') || c == '-' || c
        == '_'
}

/// Relies on base64's URL_SAFE_NO_PAD engine (Engine::encode): the unpadded encoding in
/// the URL-safe alphabet, four characters for every three bytes, rounded up.
#[verifier::external_body]
fn base64_url(b: &[u8]) -> (r: String)
    requires
        b@.len() <= 0x1000_0000,
    ensures
        r@ == base64_url_of(b@),
        r@.len() == (4 * b@.len() + 2) / 3,
        forall|i: int| 0 <= i < r@.len() ==> is_url_safe(#[trigger] r@[i]),
{
    base64::Engine::encode(&base64::engine::general_purpose::URL_SAFE_NO_PAD, b)
}

/// The token made from `TOKEN_BYTES` drawn bytes: their URL-safe encoding when the draw
/// filled them, nothing otherwise.
pub fn token_from(filled: bool, bytes: &[u8; 18]) -> (r: Option<String>)
    ensures
        r is Some <==> filled,
        r matches Some(t) ==> t@ == base64_url_of(bytes@) && t@.len() == 24 && forall|i: int|
            0 <= i < t@.len() ==> is_url_safe(#[trigger] t@[i]),
{
    if filled {
        Some(base64_url(bytes.as_slice()))
    } else {
        None
    }
}

/// The secret made from `SECRET_BYTES` drawn bytes: the bytes when the draw filled them,
/// nothing otherwise.
pub fn secret_from(filled: bool, bytes: [u8; 32]) -> (r: Option<[u8; 32]>)
    ensures
        r == if filled {
            Some(bytes)
        } else {
            None
        },
{
    if filled {
        Some(bytes)
    } else {
        None
    }
}

/// A fresh random token of 24 URL-safe characters, or `None` when the system's generator
/// fails.
pub fn random_token() -> (r: Option<String>)
    ensures
        r matches Some(t) ==> t@.len() == 24 && (forall|i: int|
            0 <= i < t@.len() ==> is_url_safe(#[trigger] t@[i])) && exists|b: Seq<u8>|
            b.len() == TOKEN_BYTES && t@ == #[trigger] base64_url_of(b),
{
    let mut bytes = [0u8; 18];
    let filled = fill_random(&mut bytes);
    token_from(filled, &bytes)
}

/// A fresh random secret, or `None` when the system's generator fails. The bytes are
/// whatever the generator drew: nothing about them is promised.
pub fn random_secret() -> (r: Option<[u8; 32]>)
    ensures
        r matches Some(b) ==> b@.len() == SECRET_BYTES,
{
    let mut bytes = [0u8; 32];
    let filled = fill_random(&mut bytes);
    secret_from(filled, bytes)
}

/// `"`, which opens and closes a JSON string.
pub const QUOTE: u8 = 0x22;

/// What opens the string value of member `key`: `"key":"`.
pub open spec fn member_opening(key: Seq<u8>) -> Seq<u8> {
    seq![QUOTE] + key + seq![QUOTE, 0x3au8, QUOTE]
}

/// `pat` occurs in `s` at position `i`.
pub open spec fn occurs_at(s: Seq<u8>, pat: Seq<u8>, i: int) -> bool {
    0 <= i && i + pat.len() <= s.len() && s.subrange(i, i + pat.len()) == pat
}

/// `v` is the string value of the first member `key` of the flat JSON object `s`: the
/// bytes after the first `"key":"` up to the next quote.
pub open spec fn is_member_value(s: Seq<u8>, key: Seq<u8>, v: Seq<u8>) -> bool {
    let pat = member_opening(key);
    exists|i: int|
        #[trigger] occurs_at(s, pat, i) && (forall|k: int| 0 <= k < i ==> !occurs_at(s, pat, k))
            && i + pat.len() + v.len() < s.len() && s.subrange(
            i + pat.len(),
            i + pat.len() + v.len(),
        ) == v && s[i + pat.len() + v.len()] == QUOTE && (forall|k: int|
            0 <= k < v.len() ==> #[trigger] v[k] != QUOTE)
}

/// No member `key` with a closed string value: every `"key":"` runs to the end unclosed.
pub open spec fn no_member_value(s: Seq<u8>, key: Seq<u8>) -> bool {
    let pat = member_opening(key);
    forall|i: int|
        #[trigger] occurs_at(s, pat, i) ==> (forall|j: int|
            i + pat.len() <= j < s.len() ==> s[j] != QUOTE)
}

fn occurs(s: &[u8], pat: &[u8], i: usize) -> (r: bool)
    ensures
        r == occurs_at(s@, pat@, i as int),
{
    if i > s.len() || pat.len() > s.len() - i {
        return false;
    }
    let n = s.len();
    let mut k: usize = 0;
    while k < pat.len()
        invariant
            n == s@.len(),
            i + pat@.len() <= s@.len(),
            0 <= k <= pat@.len(),
            i + k <= s@.len(),
            forall|t: int| 0 <= t < k ==> s@[i + t] == pat@[t],
        decreases pat@.len() - k,
    {
        if s[i + k] != pat[k] {
            assert(s@.subrange(i as int, i + pat@.len())[k as int] != pat@[k as int]);
            return false;
        }
        k = k + 1;
    }
    assert(s@.subrange(i as int, i + pat@.len()) =~= pat@);
    true
}

/// The string value of the first member `key` of a flat JSON object, without escapes.
pub fn member_value(s: &[u8], key: &[u8]) -> (r: Option<Vec<u8>>)
    ensures
        r matches Some(v) ==> is_member_value(s@, key@, v@),
        r is None ==> no_member_value(s@, key@),
{
    let mut pat: Vec<u8> = vec![QUOTE];
    append_bytes(&mut pat, key);
    pat.push(QUOTE);
    pat.push(0x3au8);
    pat.push(QUOTE);
    assert(pat@ =~= member_opening(key@));
    let mut i: usize = 0;
    while i < s.len()
        invariant
            0 <= i <= s@.len(),
            pat@ == member_opening(key@),
            forall|k: int| 0 <= k < i ==> !occurs_at(s@, pat@, k),
        decreases s@.len() - i,
    {
        if occurs(s, pat.as_slice(), i) {
            let start = i + pat.len();
            let mut j: usize = start;
            while j < s.len()
                invariant
                    start <= j <= s@.len(),
                    start == i + pat@.len(),
                    occurs_at(s@, pat@, i as int),
                    pat@ == member_opening(key@),
                    forall|k: int| 0 <= k < i ==> !occurs_at(s@, pat@, k),
                    forall|t: int| start <= t < j ==> s@[t] != QUOTE,
                decreases s@.len() - j,
            {
                if s[j] == QUOTE {
                    let v = copy_range(s, start, j);
                    assert forall|k: int| 0 <= k < v@.len() implies #[trigger] v@[k] != QUOTE by {
                        assert(v@[k] == s@[start + k]);
                    }
                    assert(is_member_value(s@, key@, v@));
                    return Some(v);
                }
                j = j + 1;
            }
            assert forall|k: int| #[trigger] occurs_at(s@, pat@, k) implies (forall|t: int|
                k + pat@.len() <= t < s@.len() ==> s@[t] != QUOTE) by {
                if k > i {
                    // a later opening holds a quote after this one's start
                    assert(s@.subrange(k, k + pat@.len())[0] == QUOTE);
                    assert(s@[k] == QUOTE);
                }
            }
            return None;
        }
        i = i + 1;
    }
    assert forall|k: int| #[trigger] occurs_at(s@, pat@, k) implies (forall|t: int|
        k + pat@.len() <= t < s@.len() ==> s@[t] != QUOTE) by {
        assert(k < s@.len()) by {
            assert(pat@.len() >= 1);
        }
    }
    None
}

/// A member has at most one value: the first opening, up to the first quote after it.
pub proof fn lemma_member_value_unique(s: Seq<u8>, key: Seq<u8>, v1: Seq<u8>, v2: Seq<u8>)
    requires
        is_member_value(s, key, v1),
        is_member_value(s, key, v2),
    ensures
        v1 == v2,
{
    let pat = member_opening(key);
    let i1 = choose|i: int|
        #[trigger] occurs_at(s, pat, i) && (forall|k: int| 0 <= k < i ==> !occurs_at(s, pat, k))
            && i + pat.len() + v1.len() < s.len() && s.subrange(i + pat.len(), i + pat.len() + v1.len())
            == v1 && s[i + pat.len() + v1.len()] == QUOTE && (forall|k: int|
            0 <= k < v1.len() ==> #[trigger] v1[k] != QUOTE);
    let i2 = choose|i: int|
        #[trigger] occurs_at(s, pat, i) && (forall|k: int| 0 <= k < i ==> !occurs_at(s, pat, k))
            && i + pat.len() + v2.len() < s.len() && s.subrange(i + pat.len(), i + pat.len() + v2.len())
            == v2 && s[i + pat.len() + v2.len()] == QUOTE && (forall|k: int|
            0 <= k < v2.len() ==> #[trigger] v2[k] != QUOTE);
    assert(i1 == i2);
    let st = i1 + pat.len();
    if v1.len() < v2.len() {
        assert(v2[v1.len() as int] == s[st + v1.len()]);
    } else if v2.len() < v1.len() {
        assert(v1[v2.len() as int] == s[st + v2.len()]);
    }
}

/// Where no member value is closed, there is none.
pub proof fn lemma_no_member_value(s: Seq<u8>, key: Seq<u8>, v: Seq<u8>)
    requires
        no_member_value(s, key),
    ensures
        !is_member_value(s, key, v),
{
    let pat = member_opening(key);
    if is_member_value(s, key, v) {
        let i = choose|i: int|
            #[trigger] occurs_at(s, pat, i) && (forall|k: int| 0 <= k < i ==> !occurs_at(s, pat, k))
                && i + pat.len() + v.len() < s.len() && s.subrange(i + pat.len(), i + pat.len() + v.len())
                == v && s[i + pat.len() + v.len()] == QUOTE && (forall|k: int|
                0 <= k < v.len() ==> #[trigger] v[k] != QUOTE);
        assert(occurs_at(s, pat, i));
    }
}

/// The bytes that standard, padded base64 text decodes to, if it is valid.
pub uninterp spec fn base64_decode_of(s: Seq<u8>) -> Option<Seq<u8>>;

/// Relies on base64's STANDARD engine (Engine::decode): the decoded bytes of valid padded
/// base64 text, an error for anything else.
#[verifier::external_body]
fn base64_decode(s: &[u8]) -> (r: Option<Vec<u8>>)
    ensures
        r is Some <==> base64_decode_of(s@) is Some,
        r matches Some(b) ==> base64_decode_of(s@) == Some(b@),
{
    base64::Engine::decode(&base64::engine::general_purpose::STANDARD, s).ok()
}

pub open spec fn destination_key() -> Seq<u8> {
    seq![
        0x64u8, 0x65, 0x73, 0x74, 0x69, 0x6e, 0x61, 0x74, 0x69, 0x6f, 0x6e, 0x5f, 0x61, 0x63, 0x63,
        0x6f, 0x75, 0x6e, 0x74,
    ]
}

pub open spec fn secret_key() -> Seq<u8> {
    seq![0x73u8, 0x68, 0x61, 0x72, 0x65, 0x64, 0x5f, 0x73, 0x65, 0x63, 0x72, 0x65, 0x74]
}

/// `body` holds a valid destination address and the base64 text of a 32-byte secret.
pub open spec fn spsp_readable(body: Seq<u8>) -> bool {
    exists|d: Seq<u8>, t: Seq<u8>|
        #[trigger] is_member_value(body, destination_key(), d) && is_valid_address(d)
            && #[trigger] is_member_value(body, secret_key(), t) && base64_decode_of(t) is Some
            && base64_decode_of(t)->Some_0.len() == SECRET_BYTES
}

/// Reads an SPSP response: the receiver's address (`destination_account`, a valid
/// address) and its shared secret (`shared_secret`, base64 of 32 bytes). Only the compact
/// form is read, with no whitespace between a member's name, the colon and its value;
/// an answer spaced otherwise is refused.
pub fn read_spsp_response(body: &[u8]) -> (r: Option<(Vec<u8>, Vec<u8>)>)
    ensures
        r is Some <==> spsp_readable(body@),
        r matches Some((d, k)) ==> is_member_value(body@, destination_key(), d@)
            && is_valid_address(d@) && exists|t: Seq<u8>|
            is_member_value(body@, secret_key(), t) && #[trigger] base64_decode_of(t) == Some(k@)
            && k@.len() == SECRET_BYTES,
{
    let dkey: Vec<u8> = vec![
        0x64u8, 0x65, 0x73, 0x74, 0x69, 0x6e, 0x61, 0x74, 0x69, 0x6f, 0x6e, 0x5f, 0x61, 0x63, 0x63,
        0x6f, 0x75, 0x6e, 0x74,
    ];
    let skey: Vec<u8> = vec![0x73u8, 0x68, 0x61, 0x72, 0x65, 0x64, 0x5f, 0x73, 0x65, 0x63, 0x72, 0x65, 0x74];
    assert(dkey@ =~= destination_key());
    assert(skey@ =~= secret_key());
    let d = match member_value(body, dkey.as_slice()) {
        Some(d) => d,
        None => {
            assert forall|d: Seq<u8>, t: Seq<u8>| !(#[trigger] is_member_value(body@, destination_key(), d)
                && #[trigger] is_member_value(body@, secret_key(), t)) by {
                lemma_no_member_value(body@, destination_key(), d);
            }
            return None;
        },
    };
    if !check_address(d.as_slice()) {
        assert forall|d2: Seq<u8>, t: Seq<u8>| #[trigger] is_member_value(body@, destination_key(), d2)
            && #[trigger] is_member_value(body@, secret_key(), t) implies !is_valid_address(d2) by {
            lemma_member_value_unique(body@, destination_key(), d@, d2);
        }
        return None;
    }
    let t = match member_value(body, skey.as_slice()) {
        Some(t) => t,
        None => {
            assert forall|d2: Seq<u8>, t: Seq<u8>| !(#[trigger] is_member_value(body@, destination_key(), d2)
                && #[trigger] is_member_value(body@, secret_key(), t)) by {
                lemma_no_member_value(body@, secret_key(), t);
            }
            return None;
        },
    };
    let k = match base64_decode(t.as_slice()) {
        Some(k) => k,
        None => {
            assert forall|d2: Seq<u8>, t2: Seq<u8>| #[trigger] is_member_value(body@, destination_key(), d2)
                && #[trigger] is_member_value(body@, secret_key(), t2) implies base64_decode_of(t2) is None by {
                lemma_member_value_unique(body@, secret_key(), t@, t2);
            }
            return None;
        },
    };
    if k.len() != SECRET_BYTES {
        assert forall|d2: Seq<u8>, t2: Seq<u8>| #[trigger] is_member_value(body@, destination_key(), d2)
            && #[trigger] is_member_value(body@, secret_key(), t2) implies base64_decode_of(t2)->Some_0.len()
            != SECRET_BYTES by {
            lemma_member_value_unique(body@, secret_key(), t@, t2);
        }
        return None;
    }
    assert(is_member_value(body@, destination_key(), d@) && is_member_value(body@, secret_key(), t@));
    Some((d, k))
}

} // verus!
