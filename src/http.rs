use vstd::prelude::*;
use crate::octets::{append_bytes, bytes_equal};

verus! {

/// The bytes of `GET`.
pub open spec fn get() -> Seq<u8> {
    seq![0x47u8, 0x45, 0x54]
}

fn get_bytes() -> (r: Vec<u8>)
    ensures
        r@ == get(),
{
    let r: Vec<u8> = vec![0x47u8, 0x45, 0x54];
    assert(r@ =~= get());
    r
}

/// The bytes of `POST`.
pub open spec fn post() -> Seq<u8> {
    seq![0x50u8, 0x4f, 0x53, 0x54]
}

fn post_bytes() -> (r: Vec<u8>)
    ensures
        r@ == post(),
{
    let r: Vec<u8> = vec![0x50u8, 0x4f, 0x53, 0x54];
    assert(r@ =~= post());
    r
}

/// The bytes of `/spsp`.
pub open spec fn spsp_path() -> Seq<u8> {
    seq![0x2fu8, 0x73, 0x70, 0x73, 0x70]
}

fn spsp_path_bytes() -> (r: Vec<u8>)
    ensures
        r@ == spsp_path(),
{
    let r: Vec<u8> = vec![0x2fu8, 0x73, 0x70, 0x73, 0x70];
    assert(r@ =~= spsp_path());
    r
}

/// The bytes of `/.well-known/pay`.
pub open spec fn well_known_path() -> Seq<u8> {
    seq![0x2fu8, 0x2e, 0x77, 0x65, 0x6c, 0x6c, 0x2d, 0x6b, 0x6e, 0x6f, 0x77, 0x6e, 0x2f, 0x70, 0x61, 0x79]
}

fn well_known_path_bytes() -> (r: Vec<u8>)
    ensures
        r@ == well_known_path(),
{
    let r: Vec<u8> = vec![0x2fu8, 0x2e, 0x77, 0x65, 0x6c, 0x6c, 0x2d, 0x6b, 0x6e, 0x6f, 0x77, 0x6e, 0x2f, 0x70, 0x61, 0x79];
    assert(r@ =~= well_known_path());
    r
}

/// The bytes of `/ilp`.
pub open spec fn ilp_path() -> Seq<u8> {
    seq![0x2fu8, 0x69, 0x6c, 0x70]
}

fn ilp_path_bytes() -> (r: Vec<u8>)
    ensures
        r@ == ilp_path(),
{
    let r: Vec<u8> = vec![0x2fu8, 0x69, 0x6c, 0x70];
    assert(r@ =~= ilp_path());
    r
}

/// The bytes of `application/spsp4+json`.
pub open spec fn spsp_media() -> Seq<u8> {
    seq![0x61u8, 0x70, 0x70, 0x6c, 0x69, 0x63, 0x61, 0x74, 0x69, 0x6f, 0x6e, 0x2f, 0x73, 0x70, 0x73, 0x70, 0x34, 0x2b, 0x6a, 0x73, 0x6f, 0x6e]
}

fn spsp_media_bytes() -> (r: Vec<u8>)
    ensures
        r@ == spsp_media(),
{
    let r: Vec<u8> = vec![0x61u8, 0x70, 0x70, 0x6c, 0x69, 0x63, 0x61, 0x74, 0x69, 0x6f, 0x6e, 0x2f, 0x73, 0x70, 0x73, 0x70, 0x34, 0x2b, 0x6a, 0x73, 0x6f, 0x6e];
    assert(r@ =~= spsp_media());
    r
}

/// The bytes of `Basic `.
pub open spec fn basic() -> Seq<u8> {
    seq![0x42u8, 0x61, 0x73, 0x69, 0x63, 0x20]
}

fn basic_bytes() -> (r: Vec<u8>)
    ensures
        r@ == basic(),
{
    let r: Vec<u8> = vec![0x42u8, 0x61, 0x73, 0x69, 0x63, 0x20];
    assert(r@ =~= basic());
    r
}

/// The bytes of `Bearer `.
pub open spec fn bearer() -> Seq<u8> {
    seq![0x42u8, 0x65, 0x61, 0x72, 0x65, 0x72, 0x20]
}

fn bearer_bytes() -> (r: Vec<u8>)
    ensures
        r@ == bearer(),
{
    let r: Vec<u8> = vec![0x42u8, 0x65, 0x61, 0x72, 0x65, 0x72, 0x20];
    assert(r@ =~= bearer());
    r
}

/// The bytes of `{"destination_account":"`.
pub open spec fn body_start() -> Seq<u8> {
    seq![0x7bu8, 0x22, 0x64, 0x65, 0x73, 0x74, 0x69, 0x6e, 0x61, 0x74, 0x69, 0x6f, 0x6e, 0x5f, 0x61, 0x63, 0x63, 0x6f, 0x75, 0x6e, 0x74, 0x22, 0x3a, 0x22]
}

fn body_start_bytes() -> (r: Vec<u8>)
    ensures
        r@ == body_start(),
{
    let r: Vec<u8> = vec![0x7bu8, 0x22, 0x64, 0x65, 0x73, 0x74, 0x69, 0x6e, 0x61, 0x74, 0x69, 0x6f, 0x6e, 0x5f, 0x61, 0x63, 0x63, 0x6f, 0x75, 0x6e, 0x74, 0x22, 0x3a, 0x22];
    assert(r@ =~= body_start());
    r
}

/// The bytes of `","shared_secret":"`.
pub open spec fn body_middle() -> Seq<u8> {
    seq![0x22u8, 0x2c, 0x22, 0x73, 0x68, 0x61, 0x72, 0x65, 0x64, 0x5f, 0x73, 0x65, 0x63, 0x72, 0x65, 0x74, 0x22, 0x3a, 0x22]
}

fn body_middle_bytes() -> (r: Vec<u8>)
    ensures
        r@ == body_middle(),
{
    let r: Vec<u8> = vec![0x22u8, 0x2c, 0x22, 0x73, 0x68, 0x61, 0x72, 0x65, 0x64, 0x5f, 0x73, 0x65, 0x63, 0x72, 0x65, 0x74, 0x22, 0x3a, 0x22];
    assert(r@ =~= body_middle());
    r
}

/// The bytes of `"}`.
pub open spec fn body_end() -> Seq<u8> {
    seq![0x22u8, 0x7d]
}

fn body_end_bytes() -> (r: Vec<u8>)
    ensures
        r@ == body_end(),
{
    let r: Vec<u8> = vec![0x22u8, 0x7d];
    assert(r@ =~= body_end());
    r
}
/// Where an HTTP request goes.
#[derive(Debug, Clone, Copy, PartialEq, Eq, Structural)]
pub enum Endpoint {
    /// The SPSP query, answered with the receiver's address and shared secret.
    Spsp,
    /// An ILP packet to be answered.
    Ilp,
    NotFound,
}

/// The endpoint for a request: `GET /spsp`, `GET /.well-known/pay`, or any `GET` that
/// accepts `application/spsp4+json` is the SPSP query; `POST /ilp` carries a packet.
pub open spec fn endpoint_of(method: Seq<u8>, path: Seq<u8>, accept: Option<Seq<u8>>) -> Endpoint {
    if method == get() && (path == spsp_path() || path == well_known_path()) {
        Endpoint::Spsp
    } else if method == post() && path == ilp_path() {
        Endpoint::Ilp
    } else if method == get() && accept == Some(spsp_media()) {
        Endpoint::Spsp
    } else {
        Endpoint::NotFound
    }
}

/// Decides where a request goes.
pub fn dispatch(method: &[u8], path: &[u8], accept: Option<&[u8]>) -> (r: Endpoint)
    ensures
        r == endpoint_of(
            method@,
            path@,
            match accept {
                Some(a) => Some(a@),
                None => None,
            },
        ),
{
    let is_get = bytes_equal(method, get_bytes().as_slice());
    if is_get && (bytes_equal(path, spsp_path_bytes().as_slice()) || bytes_equal(
        path,
        well_known_path_bytes().as_slice(),
    )) {
        return Endpoint::Spsp;
    }
    if bytes_equal(method, post_bytes().as_slice()) && bytes_equal(path, ilp_path_bytes().as_slice()) {
        return Endpoint::Ilp;
    }
    match accept {
        Some(a) => if is_get && bytes_equal(a, spsp_media_bytes().as_slice()) {
            Endpoint::Spsp
        } else {
            Endpoint::NotFound
        },
        None => Endpoint::NotFound,
    }
}

/// The standard, padded base64 text of a byte string.
pub uninterp spec fn base64_std_of(b: Seq<u8>) -> Seq<u8>;

/// Relies on base64's STANDARD engine (Engine::encode): the padded encoding, four
/// characters for every three bytes, rounded up.
#[verifier::external_body]
fn base64_std(b: &[u8]) -> (r: Vec<u8>)
    requires
        b@.len() <= 0x1000_0000,
    ensures
        r@ == base64_std_of(b@),
        r@.len() == 4 * ((b@.len() + 2) / 3),
{
    base64::Engine::encode(&base64::engine::general_purpose::STANDARD, b).into_bytes()
}

/// The SPSP answer for a receiver at `address` holding `secret`.
pub open spec fn spsp_body_of(address: Seq<u8>, secret: Seq<u8>) -> Seq<u8> {
    body_start() + address + body_middle() + base64_std_of(secret) + body_end()
}

/// Writes the SPSP answer for a receiver at `address` holding `secret`.
pub fn spsp_body(address: &[u8], secret: &[u8]) -> (r: Vec<u8>)
    requires
        secret@.len() <= 0x1000_0000,
    ensures
        r@ == spsp_body_of(address@, secret@),
{
    let mut r = body_start_bytes();
    append_bytes(&mut r, address);
    append_bytes(&mut r, body_middle_bytes().as_slice());
    append_bytes(&mut r, base64_std(secret).as_slice());
    append_bytes(&mut r, body_end_bytes().as_slice());
    r
}

/// The `Authorization` value for an endpoint's credentials: `Basic` with the base64 of
/// `user:password` when there is a user name, `Bearer` with the password when there is only
/// a password, none otherwise.
pub open spec fn authorization_of(user: Seq<u8>, password: Option<Seq<u8>>) -> Option<Seq<u8>> {
    if user.len() > 0 {
        Some(
            basic() + base64_std_of(
                user + seq![0x3au8] + match password {
                    Some(p) => p,
                    None => Seq::empty(),
                },
            ),
        )
    } else {
        match password {
            Some(p) => Some(bearer() + p),
            None => None,
        }
    }
}

/// Writes the `Authorization` value for an endpoint's credentials.
pub fn authorization(user: &[u8], password: Option<&[u8]>) -> (r: Option<Vec<u8>>)
    requires
        user@.len() + match password {
            Some(p) => p@.len(),
            None => 0,
        } < 0x1000_0000,
    ensures
        r is Some <==> authorization_of(
            user@,
            match password {
                Some(p) => Some(p@),
                None => None,
            },
        ) is Some,
        r matches Some(v) ==> Some(v@) == authorization_of(
            user@,
            match password {
                Some(p) => Some(p@),
                None => None,
            },
        ),
{
    if user.len() > 0 {
        let mut credentials: Vec<u8> = Vec::new();
        append_bytes(&mut credentials, user);
        credentials.push(0x3au8);
        match password {
            Some(p) => append_bytes(&mut credentials, p),
            None => {},
        }
        proof {
            match password {
                Some(p) => assert(credentials@ =~= user@ + seq![0x3au8] + p@),
                None => assert(credentials@ =~= user@ + seq![0x3au8] + Seq::<u8>::empty()),
            }
        }
        let mut r = basic_bytes();
        append_bytes(&mut r, base64_std(credentials.as_slice()).as_slice());
        Some(r)
    } else {
        match password {
            Some(p) => {
                let mut r = bearer_bytes();
                append_bytes(&mut r, p);
                Some(r)
            },
            None => None,
        }
    }
}

} // verus!
