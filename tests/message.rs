use luminmq::codec::CodecError;
use luminmq::msg::{ConsumerType, Message, MessageDTO, MessageStatus, MessageType};
use luminmq::topic::Topic;

fn sample() -> MessageDTO {
    MessageDTO::new(
        "g".to_string(),
        "t".to_string(),
        1,
        0,
        2,
        "hello".to_string(),
    )
}

#[test]
fn dto_encoding_is_field_by_field() {
    let bytes = sample().to_byte_vec();
    assert_eq!(
        bytes,
        vec![1, b'g', 1, b't', 1, 0, 0, 0, 2, 0, 5, b'h', b'e', b'l', b'l', b'o']
    );
    assert_eq!(sample().size(), 16);
}

#[test]
fn dto_round_trip() {
    let m = sample();
    assert_eq!(MessageDTO::from_bytes(&m.to_byte_vec()), Ok(m));
    let empty = MessageDTO::default();
    assert_eq!(MessageDTO::from_bytes(&empty.to_byte_vec()), Ok(empty));
    let wide = MessageDTO::new("groupé".to_string(), "✨".to_string(), 65535, 2, 1, String::new());
    assert_eq!(MessageDTO::from_bytes(&wide.to_byte_vec()), Ok(wide));
}

#[test]
fn dto_trailing_bytes_are_ignored() {
    let mut bytes = sample().to_byte_vec();
    bytes.extend_from_slice(&[9, 9, 9]);
    assert_eq!(MessageDTO::from_bytes(&bytes), Ok(sample()));
}

#[test]
fn dto_truncated_fails() {
    let bytes = sample().to_byte_vec();
    assert_eq!(
        MessageDTO::from_bytes(&bytes[..bytes.len() - 1]),
        Err(CodecError::UnexpectedEnd)
    );
}

#[test]
fn dto_to_message_maps_codes() {
    let m = sample().to_message();
    assert_eq!(m.group_id, "g");
    assert_eq!(m.topic, Topic::new("t".to_string()));
    assert_eq!(m.msg_type, MessageType::Business);
    assert_eq!(m.consumer_type, ConsumerType::Pull);
    assert_eq!(m.status, MessageStatus::Unspecified);
    let odd = MessageDTO::new(String::new(), String::new(), 7, 1, 0, String::new()).to_message();
    assert_eq!(odd.msg_type, MessageType::Unspecified);
    assert_eq!(odd.consumer_type, ConsumerType::Send);
    assert_eq!(odd.status, MessageStatus::Success);
}

#[test]
fn message_to_dto_and_back() {
    let m = Message::new(
        "g".to_string(),
        "t".to_string(),
        "x".to_string(),
        MessageType::System,
        ConsumerType::Send,
        MessageStatus::Fail,
    );
    let d = m.to_messagedto();
    assert_eq!(d, MessageDTO::new("g".to_string(), "t".to_string(), 0, 1, 1, "x".to_string()));
    assert_eq!(d.to_message(), m);
}

#[test]
fn emptiness_checks() {
    let m = Message::default();
    assert!(m.is_group_id_empty());
    assert!(m.is_topic_id_empty());
    let m = sample().to_message();
    assert!(!m.is_group_id_empty());
    assert!(!m.is_topic_id_empty());
    assert!(Topic::default().is_name_empty());
}
