use interledger::http::{authorization, dispatch, spsp_body, Endpoint};
use interledger::spsp::read_spsp_response;

#[test]
fn requests_are_dispatched() {
    assert_eq!(dispatch(b"GET", b"/spsp", None), Endpoint::Spsp);
    assert_eq!(dispatch(b"GET", b"/.well-known/pay", None), Endpoint::Spsp);
    assert_eq!(dispatch(b"POST", b"/ilp", None), Endpoint::Ilp);
    assert_eq!(dispatch(b"GET", b"/alice", Some(b"application/spsp4+json")), Endpoint::Spsp);
    assert_eq!(dispatch(b"GET", b"/alice", Some(b"text/html")), Endpoint::NotFound);
    assert_eq!(dispatch(b"GET", b"/ilp", None), Endpoint::NotFound);
    assert_eq!(dispatch(b"POST", b"/spsp", Some(b"application/spsp4+json")), Endpoint::NotFound);
}

#[test]
fn spsp_body_reads_back() {
    let secret: Vec<u8> = (0u8..32).collect();
    let body = spsp_body(b"example.receiver", &secret);
    assert_eq!(
        body,
        br#"{"destination_account":"example.receiver","shared_secret":"AAECAwQFBgcICQoLDA0ODxAREhMUFRYXGBkaGxwdHh8="}"#.to_vec()
    );
    assert_eq!(read_spsp_response(&body), Some((b"example.receiver".to_vec(), secret)));
}

#[test]
fn authorization_headers() {
    assert_eq!(authorization(b"user", Some(b"pass")), Some(b"Basic dXNlcjpwYXNz".to_vec()));
    assert_eq!(authorization(b"user", None), Some(b"Basic dXNlcjo=".to_vec()));
    assert_eq!(authorization(b"", Some(b"token")), Some(b"Bearer token".to_vec()));
    assert_eq!(authorization(b"", None), None);
}
