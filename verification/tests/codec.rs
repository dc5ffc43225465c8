use voicetime::codec::{GurkCodec, Message};

#[test]
fn encode_appends_frame_bytes() {
    let mut codec = GurkCodec;
    let mut buf = vec![9u8];
    codec.encode(Message::Audio(7, vec![1, 2]), &mut buf);
    assert_eq!(
        vec![9, 0, 0, 0, 0, 7, 0, 0, 0, 0, 0, 0, 0, 2, 0, 0, 0, 0, 0, 0, 0, 1, 2],
        buf
    );
}

#[test]
fn decode_reads_back_encoded_frame() {
    let mut codec = GurkCodec;
    let mut buf = Vec::new();
    codec.encode(Message::Audio(300, vec![4, 5, 6]), &mut buf);
    buf.extend_from_slice(&[0, 0, 0]);
    assert_eq!(Some(Message::Audio(300, vec![4, 5, 6])), codec.decode(&buf));
}

#[test]
fn decode_refuses_other_variants_and_short_frames() {
    let mut codec = GurkCodec;
    let mut buf = Vec::new();
    codec.encode(Message::Audio(0, vec![]), &mut buf);
    assert_eq!(Some(Message::Audio(0, vec![])), codec.decode(&buf));
    buf[0] = 1;
    assert_eq!(None, codec.decode(&buf));
    assert_eq!(None, codec.decode(&buf[..19]));
}
