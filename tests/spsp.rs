use interledger::error::Error;
use interledger::sender::FailureKind;
use interledger::spsp::{
    member_value, random_secret, random_token, read_spsp_response, secret_from, token_from,
};

#[test]
fn token_is_url_safe() {
    let t = random_token().unwrap();
    assert_eq!(t.len(), 24);
    assert!(t.chars().all(|c| c.is_ascii_alphanumeric() || c == '-' || c == '_'));
    assert_ne!(random_token().unwrap(), t);
}

#[test]
fn secrets_are_fresh() {
    let a = random_secret().unwrap();
    let b = random_secret().unwrap();
    assert_eq!(a.len(), 32);
    assert_ne!(a, b);
}

#[test]
fn error_headings_are_distinct() {
    let errors = [
        Error::ConnectionError("x".to_string()),
        Error::PollError("x".to_string()),
        Error::SendMoneyError("x".to_string()),
        Error::TooManyRejectedPacketsError("x".to_string()),
    ];
    let headings: Vec<&str> = errors.iter().map(|e| e.heading()).collect();
    for i in 0..4 {
        for j in 0..4 {
            assert_eq!(i == j, headings[i] == headings[j]);
        }
        assert_eq!(errors[i].detail(), "x");
    }
    assert_eq!(headings[0], "Error connecting");
}

#[test]
fn failure_kinds_map_to_errors() {
    let e = Error::from_failure(FailureKind::TooManyRejectedPackets, "ten".to_string());
    assert!(matches!(e, Error::TooManyRejectedPacketsError(ref s) if s == "ten"));
    assert!(matches!(Error::from_failure(FailureKind::Connection, String::new()), Error::ConnectionError(_)));
    assert!(matches!(Error::from_failure(FailureKind::SendMoney, String::new()), Error::SendMoneyError(_)));
}

#[test]
fn spsp_response_is_read() {
    let body = br#"{"destination_account":"example.receiver.abc","shared_secret":"AAECAwQFBgcICQoLDA0ODxAREhMUFRYXGBkaGxwdHh8="}"#;
    let (d, k) = read_spsp_response(body).unwrap();
    assert_eq!(d, b"example.receiver.abc".to_vec());
    assert_eq!(k, (0u8..32).collect::<Vec<u8>>());
}

#[test]
fn bad_spsp_responses_fail() {
    assert!(read_spsp_response(b"{}").is_none());
    assert!(read_spsp_response(br#"{"destination_account":"bad..addr","shared_secret":"AAECAwQFBgcICQoLDA0ODxAREhMUFRYXGBkaGxwdHh8="}"#).is_none());
    assert!(read_spsp_response(br#"{"destination_account":"example.r","shared_secret":"AAEC"}"#).is_none());
    assert!(read_spsp_response(br#"{"destination_account":"example.r","shared_secret":"!!!"}"#).is_none());
}

#[test]
fn member_values_are_found() {
    assert_eq!(member_value(br#"{"a":"x","b":"yz"}"#, b"b"), Some(b"yz".to_vec()));
    assert_eq!(member_value(br#"{"a":"x","a":"y"}"#, b"a"), Some(b"x".to_vec()));
    assert_eq!(member_value(br#"{"a":"unterminated"#, b"a"), None);
    assert_eq!(member_value(br#"{"a":1}"#, b"a"), None);
}

#[test]
fn secret_comes_from_drawn_bytes() {
    assert_eq!(secret_from(true, [7u8; 32]), Some([7u8; 32]));
    assert_eq!(secret_from(false, [7u8; 32]), None);
}

#[test]
fn token_comes_from_drawn_bytes() {
    assert_eq!(token_from(true, &[0u8; 18]), Some("AAAAAAAAAAAAAAAAAAAAAAAA".to_string()));
    assert_eq!(token_from(true, &[0xfbu8; 18]), Some("-_v7-_v7-_v7-_v7-_v7-_v7".to_string()));
    assert_eq!(token_from(false, &[0u8; 18]), None);
}
