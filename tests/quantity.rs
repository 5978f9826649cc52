use interledger::quantity::{InvalidQuantityError, Quantity};

fn q(amount: &str, scale: u8) -> Quantity {
    Quantity::new(amount.as_bytes(), scale).unwrap()
}

#[test]
fn settlement_quantity_is_built() {
    let data = q("100", 18);
    assert_eq!(data.amount, b"100".to_vec());
    assert_eq!(data.scale, 18);
}

#[test]
fn invalid_amounts_are_refused() {
    assert_eq!(Quantity::new(b"", 2).unwrap_err(), InvalidQuantityError);
    assert_eq!(Quantity::new(b"1a", 2).unwrap_err(), InvalidQuantityError);
    assert_eq!(Quantity::new(b"-1", 0).unwrap_err(), InvalidQuantityError);
    assert_eq!(Quantity::new(b"1.5", 0).unwrap_err(), InvalidQuantityError);
}

#[test]
fn equality_normalizes_scale() {
    assert!(q("100", 2).same_amount(&q("1", 0)));
    assert!(q("1", 0).same_amount(&q("1000", 3)));
    assert!(q("0", 0).same_amount(&q("000", 5)));
    assert!(q("007", 1).same_amount(&q("70", 2)));
    assert!(q("100", 18).same_amount(&q("100000000000000000000", 36)));
}

#[test]
fn different_amounts_differ() {
    assert!(!q("12", 1).same_amount(&q("1", 0)));
    assert!(!q("1", 0).same_amount(&q("10", 0)));
    assert!(!q("0", 0).same_amount(&q("1", 9)));
    assert!(!q("100", 18).same_amount(&q("100", 17)));
}
