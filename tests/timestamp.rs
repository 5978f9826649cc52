use interledger::timestamp::{expiry_after, format_timestamp, MAX_TIMESTAMP_MILLIS};

#[test]
fn epoch_formats() {
    assert_eq!(format_timestamp(0), b"19700101000000000".to_vec());
}

#[test]
fn known_instants_format() {
    // 2017-12-24T16:14:32.279Z
    assert_eq!(format_timestamp(1_514_132_072_279), b"20171224161432279".to_vec());
    // 2000-02-29T23:59:59.999Z, a leap day
    assert_eq!(format_timestamp(951_868_799_999), b"20000229235959999".to_vec());
    // 2100-03-01T00:00:00.000Z, after a non-leap February
    assert_eq!(format_timestamp(4_107_542_400_000), b"21000301000000000".to_vec());
}

#[test]
fn latest_instant_formats() {
    let t = format_timestamp(MAX_TIMESTAMP_MILLIS);
    assert_eq!(t.len(), 17);
    assert_eq!(t, b"99940901235959999".to_vec());
}

#[test]
fn expiry_is_thirty_seconds_later() {
    assert_eq!(expiry_after(0), Some(b"19700101000030000".to_vec()));
    assert_eq!(expiry_after(MAX_TIMESTAMP_MILLIS), None);
}
