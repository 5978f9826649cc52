use interledger::address::{check_address, Address, InvalidAddressError};

#[test]
fn valid_addresses() {
    for a in ["g", "example.alice", "g.us-fed.ach.0.acmebank.swx0a0.acmecorp.sales.199.~ipr.cdfa5e16-e759-4ba3-88f6-8b9dc83c1868.2", "test.a_b~c-d"] {
        assert!(check_address(a.as_bytes()), "{}", a);
        assert_eq!(Address::new(a.as_bytes()).unwrap().as_bytes(), a.as_bytes());
    }
}

#[test]
fn invalid_addresses() {
    for a in ["", ".", "a.", ".a", "a..b", "a b", "a/b", "a\u{e4}"] {
        assert!(!check_address(a.as_bytes()), "{}", a);
        assert_eq!(Address::new(a.as_bytes()).unwrap_err(), InvalidAddressError);
    }
}

#[test]
fn segment_length_limit() {
    let ok = format!("a.{}", "x".repeat(63));
    let long = format!("a.{}", "x".repeat(64));
    assert!(check_address(ok.as_bytes()));
    assert!(!check_address(long.as_bytes()));
}

#[test]
fn total_length_limit() {
    let seg = "x".repeat(63);
    let mut a = seg.clone();
    while a.len() + 64 < 1023 {
        a.push('.');
        a.push_str(&seg);
    }
    let rest = 1023 - a.len() - 1;
    a.push('.');
    a.push_str(&"y".repeat(rest));
    assert_eq!(a.len(), 1023);
    assert!(check_address(a.as_bytes()));
    a.push('z');
    assert!(!check_address(a.as_bytes()));
}

#[test]
fn prefix_relation() {
    let a = Address::new(b"a.b.c").unwrap();
    assert!(a.has_prefix(b"a.b"));
    assert!(a.has_prefix(b""));
    assert!(a.has_prefix(b"a.b.c"));
    assert!(!a.has_prefix(b"a.c"));
    assert!(!a.has_prefix(b"a.b.c.d"));
    assert_eq!(a.len(), 5);
}
