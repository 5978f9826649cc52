use interledger::frames::{
    asset_details, connection_close, decode_frames, encode_frames, new_address,
    read_asset_details, read_connection_close, read_new_address, read_stream_close,
    read_stream_max_money, read_stream_money, stream_close, stream_max_money, stream_money,
    Frame, InvalidFramesError, CONNECTION_ASSET_DETAILS, CONNECTION_CLOSE,
    CONNECTION_NEW_ADDRESS, STREAM_CLOSE, STREAM_MONEY,
};

#[test]
fn frame_list_round_trip() {
    let frames = vec![
        new_address(b"example.sender"),
        Frame { kind: 0x0f, contents: vec![1; 300] },
        stream_money(1, 250),
    ];
    let bytes = encode_frames(&frames);
    let back = decode_frames(&bytes).unwrap();
    assert_eq!(back.len(), 3);
    assert_eq!(back[0].kind, CONNECTION_NEW_ADDRESS);
    assert_eq!(read_new_address(&back[0]), Some(b"example.sender".to_vec()));
    assert_eq!(back[1].contents, vec![1; 300]);
    assert_eq!(read_stream_money(&back[2]), Some((1, 250)));
}

#[test]
fn money_frame_bytes() {
    let f = stream_money(1, 0x0102);
    assert_eq!(f.kind, STREAM_MONEY);
    assert_eq!(f.contents, vec![0, 0, 0, 0, 0, 0, 0, 1, 0, 0, 0, 0, 0, 0, 1, 2]);
    let bytes = encode_frames(&[f]);
    assert_eq!(bytes[0], STREAM_MONEY);
    assert_eq!(bytes[1], 16);
    assert_eq!(bytes.len(), 18);
}

#[test]
fn unknown_frames_are_skippable() {
    let bytes = vec![0x7f, 2, 9, 9, STREAM_MONEY, 16, 0, 0, 0, 0, 0, 0, 0, 3, 0, 0, 0, 0, 0, 0, 0, 5];
    let frames = decode_frames(&bytes).unwrap();
    assert_eq!(frames.len(), 2);
    assert_eq!(read_stream_money(&frames[0]), None);
    assert_eq!(read_stream_money(&frames[1]), Some((3, 5)));
}

#[test]
fn malformed_frames_fail() {
    assert_eq!(decode_frames(&[STREAM_MONEY]).unwrap_err(), InvalidFramesError);
    assert_eq!(decode_frames(&[STREAM_MONEY, 4, 1, 2]).unwrap_err(), InvalidFramesError);
    assert!(decode_frames(&[]).unwrap().is_empty());
}

#[test]
fn bad_new_address_is_not_read() {
    let f = new_address(b"not..valid");
    assert_eq!(read_new_address(&f), None);
    assert_eq!(read_new_address(&stream_money(1, 1)), None);
}

#[test]
fn control_frames_round_trip() {
    let frames = vec![
        connection_close(2, b"bye"),
        asset_details(b"XRP", 9),
        stream_close(1, 4, b"done"),
        stream_max_money(1, 500, 1000),
    ];
    let bytes = encode_frames(&frames);
    let back = decode_frames(&bytes).unwrap();
    assert_eq!(read_connection_close(&back[0]), Some((2, b"bye".to_vec())));
    assert_eq!(read_asset_details(&back[1]), Some((b"XRP".to_vec(), 9)));
    assert_eq!(read_stream_close(&back[2]), Some((1, 4, b"done".to_vec())));
    assert_eq!(read_stream_max_money(&back[3]), Some((1, 500, 1000)));
}

#[test]
fn control_frame_bytes() {
    assert_eq!(asset_details(b"USD", 2).contents, vec![3, b'U', b'S', b'D', 2]);
    assert_eq!(connection_close(1, b"x").contents, vec![1, b'x']);
    assert_eq!(stream_close(1, 2, b"").contents, vec![0, 0, 0, 0, 0, 0, 0, 1, 2]);
    assert_eq!(stream_max_money(0, 0, 1).contents.len(), 24);
}

#[test]
fn control_frames_of_wrong_shape_are_not_read() {
    let short = Frame { kind: STREAM_CLOSE, contents: vec![0; 8] };
    assert_eq!(read_stream_close(&short), None);
    let extra = Frame { kind: CONNECTION_ASSET_DETAILS, contents: vec![1, b'A', 2, 3] };
    assert_eq!(read_asset_details(&extra), None);
    let empty = Frame { kind: CONNECTION_CLOSE, contents: vec![] };
    assert_eq!(read_connection_close(&empty), None);
    assert_eq!(read_stream_max_money(&stream_money(1, 1)), None);
}
