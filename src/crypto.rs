use vstd::prelude::*;
use crate::octets::append_bytes;

verus! {

/// Length of a key, of a digest and of an HMAC tag.
pub const KEY_LEN: usize = 32;

/// Length of an AES-GCM nonce.
pub const NONCE_LEN: usize = 12;

/// Length of an AES-GCM authentication tag.
pub const TAG_LEN: usize = 16;

/// Longest input handed to a hash or a cipher.
pub const MAX_CRYPTO_INPUT: usize = 0x1000_0000;

/// The SHA-256 digest of a byte string.
pub uninterp spec fn sha256_of(b: Seq<u8>) -> Seq<u8>;

/// The HMAC-SHA-256 tag of `msg` under `key`.
pub uninterp spec fn hmac_sha256_of(key: Seq<u8>, msg: Seq<u8>) -> Seq<u8>;

/// The AES-256-GCM sealing (ciphertext then tag) of `plain`.
pub uninterp spec fn aes_gcm_seal_of(key: Seq<u8>, nonce: Seq<u8>, plain: Seq<u8>) -> Seq<u8>;

/// The plaintext of an AES-256-GCM sealed message, if it authenticates.
pub uninterp spec fn aes_gcm_open_of(key: Seq<u8>, nonce: Seq<u8>, sealed: Seq<u8>) -> Option<
    Seq<u8>,
>;

/// Relies on ring::digest::digest with SHA256: a 32-byte digest of the input.
#[verifier::external_body]
fn sha256(b: &[u8]) -> (r: Vec<u8>)
    requires
        b@.len() <= MAX_CRYPTO_INPUT,
    ensures
        r@ == sha256_of(b@),
        r@.len() == KEY_LEN,
{
    ring::digest::digest(&ring::digest::SHA256, b).as_ref().to_vec()
}

/// Relies on ring::hmac (Key::new with HMAC_SHA256, then sign): a 32-byte tag.
#[verifier::external_body]
fn hmac_sha256(key: &[u8], msg: &[u8]) -> (r: Vec<u8>)
    requires
        key@.len() <= MAX_CRYPTO_INPUT,
        msg@.len() <= MAX_CRYPTO_INPUT,
    ensures
        r@ == hmac_sha256_of(key@, msg@),
        r@.len() == KEY_LEN,
{
    let k = ring::hmac::Key::new(ring::hmac::HMAC_SHA256, key);
    ring::hmac::sign(&k, msg).as_ref().to_vec()
}

/// Relies on ring::aead::LessSafeKey::seal_in_place_append_tag with AES_256_GCM: the
/// ciphertext, as long as the plaintext, followed by the tag, which opens back to the
/// plaintext under the same key and nonce.
#[verifier::external_body]
fn aes_gcm_seal(key: &[u8], nonce: &[u8], plain: &[u8]) -> (r: Vec<u8>)
    requires
        key@.len() == KEY_LEN,
        nonce@.len() == NONCE_LEN,
        plain@.len() <= MAX_CRYPTO_INPUT,
    ensures
        r@ == aes_gcm_seal_of(key@, nonce@, plain@),
        r@.len() == plain@.len() + TAG_LEN,
        aes_gcm_open_of(key@, nonce@, r@) == Some(plain@),
{
    let k = ring::aead::LessSafeKey::new(
        ring::aead::UnboundKey::new(&ring::aead::AES_256_GCM, key).unwrap(),
    );
    let n = ring::aead::Nonce::try_assume_unique_for_key(nonce).unwrap();
    let mut buf = plain.to_vec();
    k.seal_in_place_append_tag(n, ring::aead::Aad::empty(), &mut buf).unwrap();
    buf
}

/// Relies on ring::aead::LessSafeKey::open_in_place with AES_256_GCM: the plaintext when
/// the tag authenticates, nothing otherwise.
#[verifier::external_body]
fn aes_gcm_open(key: &[u8], nonce: &[u8], sealed: &[u8]) -> (r: Option<Vec<u8>>)
    requires
        key@.len() == KEY_LEN,
        nonce@.len() == NONCE_LEN,
    ensures
        r is Some <==> aes_gcm_open_of(key@, nonce@, sealed@) is Some,
        r matches Some(p) ==> aes_gcm_open_of(key@, nonce@, sealed@) == Some(p@),
{
    let k = ring::aead::LessSafeKey::new(
        ring::aead::UnboundKey::new(&ring::aead::AES_256_GCM, key).unwrap(),
    );
    let n = ring::aead::Nonce::try_assume_unique_for_key(nonce).unwrap();
    let mut buf = sealed.to_vec();
    k.open_in_place(n, ring::aead::Aad::empty(), &mut buf).ok().map(|p| p.to_vec())
}

pub open spec fn encryption_label() -> Seq<u8> {
    seq![
        0x69u8, 0x6c, 0x70, 0x5f, 0x73, 0x74, 0x72, 0x65, 0x61, 0x6d, 0x5f, 0x65, 0x6e, 0x63, 0x72,
        0x79, 0x70, 0x74, 0x69, 0x6f, 0x6e,
    ]
}

pub open spec fn fulfillment_label() -> Seq<u8> {
    seq![
        0x69u8, 0x6c, 0x70, 0x5f, 0x73, 0x74, 0x72, 0x65, 0x61, 0x6d, 0x5f, 0x66, 0x75, 0x6c, 0x66,
        0x69, 0x6c, 0x6c, 0x6d, 0x65, 0x6e, 0x74,
    ]
}

/// The key that encrypts a connection's frames.
pub open spec fn encryption_key_of(secret: Seq<u8>) -> Seq<u8> {
    hmac_sha256_of(secret, encryption_label())
}

/// The fulfillment that the receiver owes for a packet carrying `data`.
pub open spec fn fulfillment_of(secret: Seq<u8>, data: Seq<u8>) -> Seq<u8> {
    hmac_sha256_of(hmac_sha256_of(secret, fulfillment_label()), data)
}

/// The execution condition that binds a packet carrying `data` to its fulfillment.
pub open spec fn condition_of(secret: Seq<u8>, data: Seq<u8>) -> Seq<u8> {
    sha256_of(fulfillment_of(secret, data))
}

/// The frames carried in `data`, if they authenticate: a nonce, then the sealed frames.
pub open spec fn unpack_of(secret: Seq<u8>, data: Seq<u8>) -> Option<Seq<u8>> {
    if data.len() < NONCE_LEN {
        None
    } else {
        aes_gcm_open_of(
            encryption_key_of(secret),
            data.subrange(0, NONCE_LEN as int),
            data.subrange(NONCE_LEN as int, data.len() as int),
        )
    }
}

/// A secret usable as an HMAC key here.
pub open spec fn secret_ok(secret: Seq<u8>) -> bool {
    secret.len() <= MAX_CRYPTO_INPUT
}

/// Data that fails authentication.
#[derive(Debug, PartialEq, Eq)]
pub struct AuthenticationError;

pub fn encryption_key(secret: &[u8]) -> (r: Vec<u8>)
    requires
        secret_ok(secret@),
    ensures
        r@ == encryption_key_of(secret@),
        r@.len() == KEY_LEN,
{
    let label: Vec<u8> = vec![
        0x69u8, 0x6c, 0x70, 0x5f, 0x73, 0x74, 0x72, 0x65, 0x61, 0x6d, 0x5f, 0x65, 0x6e, 0x63, 0x72,
        0x79, 0x70, 0x74, 0x69, 0x6f, 0x6e,
    ];
    assert(label@ =~= encryption_label());
    hmac_sha256(secret, label.as_slice())
}

/// Computes the fulfillment owed for a packet carrying `data`.
pub fn fulfillment_for(secret: &[u8], data: &[u8]) -> (r: Vec<u8>)
    requires
        secret_ok(secret@),
        data@.len() <= MAX_CRYPTO_INPUT,
    ensures
        r@ == fulfillment_of(secret@, data@),
        r@.len() == KEY_LEN,
{
    let label: Vec<u8> = vec![
        0x69u8, 0x6c, 0x70, 0x5f, 0x73, 0x74, 0x72, 0x65, 0x61, 0x6d, 0x5f, 0x66, 0x75, 0x6c, 0x66,
        0x69, 0x6c, 0x6c, 0x6d, 0x65, 0x6e, 0x74,
    ];
    assert(label@ =~= fulfillment_label());
    let k = hmac_sha256(secret, label.as_slice());
    hmac_sha256(k.as_slice(), data)
}

/// Computes the execution condition for a packet carrying `data`.
pub fn condition_for(secret: &[u8], data: &[u8]) -> (r: Vec<u8>)
    requires
        secret_ok(secret@),
        data@.len() <= MAX_CRYPTO_INPUT,
    ensures
        r@ == condition_of(secret@, data@),
        r@.len() == KEY_LEN,
{
    let f = fulfillment_for(secret, data);
    sha256(f.as_slice())
}

/// The execution condition that a fulfillment satisfies.
pub fn condition_from_fulfillment(fulfillment: &[u8]) -> (r: Vec<u8>)
    requires
        fulfillment@.len() <= MAX_CRYPTO_INPUT,
    ensures
        r@ == sha256_of(fulfillment@),
{
    sha256(fulfillment)
}

/// Whether a fulfillment hashes to the execution condition.
pub fn fulfillment_matches(fulfillment: &[u8], condition: &[u8]) -> (r: bool)
    requires
        fulfillment@.len() <= MAX_CRYPTO_INPUT,
    ensures
        r == (sha256_of(fulfillment@) == condition@),
{
    let h = sha256(fulfillment);
    crate::octets::bytes_equal(h.as_slice(), condition)
}

/// Seals frame bytes under the connection's key: the nonce, then the sealed frames.
pub fn pack_frames(secret: &[u8], nonce: &[u8], frames: &[u8]) -> (r: Vec<u8>)
    requires
        secret_ok(secret@),
        nonce@.len() == NONCE_LEN,
        frames@.len() <= MAX_CRYPTO_INPUT,
    ensures
        r@ == nonce@ + aes_gcm_seal_of(encryption_key_of(secret@), nonce@, frames@),
        r@.len() == NONCE_LEN + frames@.len() + TAG_LEN,
        unpack_of(secret@, r@) == Some(frames@),
{
    let key = encryption_key(secret);
    let sealed = aes_gcm_seal(key.as_slice(), nonce, frames);
    let mut r: Vec<u8> = Vec::new();
    append_bytes(&mut r, nonce);
    append_bytes(&mut r, sealed.as_slice());
    assert(r@.subrange(0, NONCE_LEN as int) =~= nonce@);
    assert(r@.subrange(NONCE_LEN as int, r@.len() as int) =~= sealed@);
    r
}

/// Opens the frames carried in `data`, failing closed on anything that does not
/// authenticate.
pub fn unpack_frames(secret: &[u8], data: &[u8]) -> (r: Result<Vec<u8>, AuthenticationError>)
    requires
        secret_ok(secret@),
    ensures
        r is Err <==> unpack_of(secret@, data@) is None,
        r matches Ok(f) ==> unpack_of(secret@, data@) == Some(f@),
{
    if data.len() < NONCE_LEN {
        return Err(AuthenticationError);
    }
    let key = encryption_key(secret);
    let nonce = crate::octets::copy_range(data, 0, NONCE_LEN);
    let sealed = crate::octets::copy_range(data, NONCE_LEN, data.len());
    match aes_gcm_open(key.as_slice(), nonce.as_slice(), sealed.as_slice()) {
        Some(f) => Ok(f),
        None => Err(AuthenticationError),
    }
}

} // verus!
