use luminmq::msg::{ConsumerType, Message, MessageDTO, MessageStatus, MessageType};
use luminmq::protocol::{FrameError, Protocol, ProtocolBody, ProtocolEnd, ProtocolHead};

fn frame_of(data: &str) -> Protocol {
    let mut p = Protocol::default();
    p.insert_message(MessageDTO::new(
        "g".to_string(),
        "t".to_string(),
        1,
        1,
        2,
        data.to_string(),
    ));
    p.ready().unwrap();
    p
}

#[test]
fn head_and_end_sizes() {
    assert_eq!(ProtocolHead::size(), 12);
    assert_eq!(Protocol::protocol_head_size(), 12);
    assert_eq!(Protocol::default().to_byte_vec().len(), 12 + 9 + 4);
}

#[test]
fn ready_sets_body_size() {
    let p = frame_of("hello");
    assert_eq!(p.protocol_body_size() as usize, p.body.size());
    assert_eq!(p.protocol_body_size(), 16);
    assert_eq!(p.end, ProtocolEnd::new());
}

#[test]
fn frame_round_trip() {
    let p = frame_of("hello");
    let bytes = p.to_byte_vec();
    assert_eq!(Protocol::reader(&bytes), Ok((p, bytes.len())));
}

#[test]
fn concatenated_frames_read_in_order() {
    let frames = vec![frame_of("a"), frame_of(""), frame_of("third")];
    let mut stream = Vec::new();
    for f in &frames {
        stream.extend_from_slice(&f.to_byte_vec());
    }
    assert_eq!(Protocol::handle(&stream), frames);
    assert_eq!(Protocol::handle(&[]), Vec::<Protocol>::new());
}

#[test]
fn bad_head_discards_head_size() {
    let mut p = frame_of("hello");
    p.head.identifier = "xxxxmq".to_string();
    let bytes = p.to_byte_vec();
    assert_eq!(Protocol::reader(&bytes), Err((FrameError::BadHead, 12)));
    assert!(!Protocol::verify_protocol_head(&bytes));
    assert!(Protocol::verify_protocol_head(&frame_of("x").to_byte_vec()));
}

#[test]
fn oversize_body_is_refused() {
    let mut p = frame_of("hello");
    p.head.set_data_size(16_777_217);
    assert_eq!(Protocol::reader(&p.to_byte_vec()), Err((FrameError::Oversize, 12)));
}

#[test]
fn bad_body_and_bad_end() {
    let mut p = frame_of("hello");
    p.head.set_data_size(3);
    let bytes = p.to_byte_vec();
    assert_eq!(Protocol::reader(&bytes), Err((FrameError::BadBody, 15)));

    let mut p = frame_of("hello");
    p.end.flag = "ENX".to_string();
    let bytes = p.to_byte_vec();
    assert_eq!(Protocol::reader(&bytes), Err((FrameError::BadEnd, bytes.len())));
}

#[test]
fn short_reads() {
    let bytes = frame_of("hello").to_byte_vec();
    assert_eq!(Protocol::reader(&bytes[..5]), Err((FrameError::ShortRead, 5)));
    assert_eq!(Protocol::reader(&bytes[..20]), Err((FrameError::ShortRead, 20)));
    let n = bytes.len() - 1;
    assert_eq!(Protocol::reader(&bytes[..n]), Err((FrameError::ShortRead, n)));
}

#[test]
fn head_build_and_body_build() {
    let head = ProtocolHead::default();
    let bytes = head.to_byte_vec();
    assert!(ProtocolHead::is(&bytes));
    assert_eq!(ProtocolHead::build(&bytes), Ok(head.clone()));
    assert_eq!(ProtocolHead::build(&bytes[..3]), Err(FrameError::BadHead));
    let body = ProtocolBody::new(MessageDTO::default());
    assert_eq!(ProtocolBody::build(&body.to_byte_vec()), Ok(body.clone()));
    assert_eq!(ProtocolBody::build(&[1]), Err(FrameError::BadBody));
}

#[test]
fn build_parts_by_bytes() {
    let mut p = Protocol::default();
    let mut head = ProtocolHead::default();
    head.set_data_size(42);
    p.build_protocol_head_by_bytes(&head.to_byte_vec());
    assert_eq!(p.protocol_body_size(), 42);
    p.build_protocol_head_by_bytes(&[]);
    assert_eq!(p.protocol_body_size(), 42);
    let dto = MessageDTO::new("a".to_string(), "b".to_string(), 1, 1, 0, "c".to_string());
    assert!(p.build_protocol_body_by_bytes(&dto.to_byte_vec()).is_ok());
    assert_eq!(p.body.message, dto);
    assert!(p.build_protocol_body_by_bytes(&[]).is_err());
    assert_eq!(p.body.message, dto);
}

#[test]
fn message_frame_bytes_carry_the_message() {
    let m = Message::new(
        "g".to_string(),
        "t".to_string(),
        "hello".to_string(),
        MessageType::Business,
        ConsumerType::Send,
        MessageStatus::Success,
    );
    let bytes = m.frame_bytes().unwrap();
    let (p, n) = Protocol::reader(&bytes).unwrap();
    assert_eq!(n, bytes.len());
    assert_eq!(p.get_message(), Ok(m));
}

#[test]
fn body_reader_refuses_oversize() {
    assert_eq!(
        ProtocolBody::reader(&[], 16_777_217),
        Err((FrameError::Oversize, 0))
    );
    let body = ProtocolBody::new(MessageDTO::default());
    let bytes = body.to_byte_vec();
    assert_eq!(ProtocolBody::reader(&bytes, bytes.len()), Ok((body, bytes.len())));
}

#[test]
fn large_body_is_written_but_not_read() {
    let data = "x".repeat(16_777_220);
    let mut p = Protocol::default();
    p.insert_message(MessageDTO::new("g".to_string(), "t".to_string(), 1, 1, 2, data));
    assert!(p.ready().is_ok());
    assert_eq!(p.protocol_body_size() as usize, p.body.size());
    assert_eq!(p.end, ProtocolEnd::new());
    let bytes = p.to_byte_vec();
    assert_eq!(Protocol::reader(&bytes), Err((FrameError::Oversize, 12)));
}

#[test]
fn head_new_and_frame_from_bytes() {
    let head = ProtocolHead::new();
    assert_eq!(head, ProtocolHead::default());
    assert_eq!(head.identifier, "luminmq");
    let p = frame_of("hello");
    let mut bytes = p.to_byte_vec();
    bytes.push(7);
    assert_eq!(Protocol::from_bytes(&bytes), Ok(p));
    assert_eq!(Protocol::from_bytes(&bytes[..4]), Err(FrameError::ShortRead));
}
