use voicetime::messages::{Message, MessageType};

#[test]
fn new_without_data_has_no_samples() {
    let m = Message::new(MessageType::Connect, None);
    assert_eq!(MessageType::Connect, m.message_type);
    assert!(m.data.is_empty());
}

#[test]
fn new_keeps_given_samples() {
    let m = Message::new(MessageType::Audio, Some(vec![5, -7]));
    assert_eq!(MessageType::Audio, m.message_type);
    assert_eq!(vec![5, -7], m.data);
}

#[test]
fn encoded_audio_has_tag_count_and_samples() {
    let bytes = Message::encoded(MessageType::Audio, Some(vec![5, -2, 300]));
    assert_eq!(
        vec![2, 0, 0, 0, 3, 0, 0, 0, 0, 0, 0, 0, 5, 0, 0xfe, 0xff, 0x2c, 0x01],
        bytes
    );
}

#[test]
fn encoded_connect_is_tag_and_empty_count() {
    let bytes = Message::encoded(MessageType::Connect, None);
    assert_eq!(vec![0, 0, 0, 0, 0, 0, 0, 0, 0, 0, 0, 0], bytes);
    let bytes = Message::encoded(MessageType::Disconnect, None);
    assert_eq!(vec![1, 0, 0, 0, 0, 0, 0, 0, 0, 0, 0, 0], bytes);
}

#[test]
fn decoded_reads_back_encoded_from_a_large_buffer() {
    let bytes = Message::encoded(MessageType::Audio, Some(vec![10, -32768, 32767]));
    let mut buf = [0u8; 8192];
    buf[..bytes.len()].copy_from_slice(&bytes);
    let m = Message::decoded(&buf);
    assert_eq!(Message::new(MessageType::Audio, Some(vec![10, -32768, 32767])), m);
    assert_eq!(10, m.data[0]);
}

#[test]
fn try_decoded_refuses_short_buffers() {
    let bytes = Message::encoded(MessageType::Audio, Some(vec![1, 2]));
    assert!(Message::try_decoded(&bytes[..bytes.len() - 1]).is_none());
    assert!(Message::try_decoded(&bytes[..11]).is_none());
    assert!(Message::try_decoded(&[]).is_none());
}

#[test]
fn try_decoded_refuses_unknown_kinds() {
    let buf = [3u8, 0, 0, 0, 0, 0, 0, 0, 0, 0, 0, 0];
    assert!(Message::try_decoded(&buf).is_none());
    let buf = [2u8, 0, 0, 0, 0, 0, 0, 0, 0, 0, 0, 0];
    assert_eq!(
        Some(Message::new(MessageType::Audio, None)),
        Message::try_decoded(&buf)
    );
}

#[test]
fn try_decoded_refuses_counts_beyond_the_buffer() {
    let buf = [2u8, 0, 0, 0, 0xff, 0xff, 0xff, 0xff, 0xff, 0xff, 0xff, 0xff, 1, 0];
    assert!(Message::try_decoded(&buf).is_none());
}
