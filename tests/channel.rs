use luminmq::channel::{Channel, ChannelMode, Queue};
use luminmq::group::GroupMode;
use luminmq::msg::{ConsumerType, Message, MessageStatus, MessageType};

fn msg(data: &str) -> Message {
    Message::new(
        "g".to_string(),
        "t".to_string(),
        data.to_string(),
        MessageType::Business,
        ConsumerType::Send,
        MessageStatus::Unspecified,
    )
}

#[test]
fn queue_is_fifo() {
    let mut q = Queue::new();
    assert!(q.is_empty());
    q.enqueue(msg("1"));
    q.enqueue(msg("2"));
    assert_eq!(q.len(), 2);
    assert_eq!(q.dequeue(), Some(msg("1")));
    q.enqueue(msg("3"));
    assert_eq!(q.dequeue(), Some(msg("2")));
    assert_eq!(q.dequeue(), Some(msg("3")));
    assert_eq!(q.dequeue(), None);
    assert!(q.is_empty());
}

#[test]
fn channel_interleaved_operations_keep_order() {
    let mut c = Channel::new("t".to_string(), "g".to_string(), ChannelMode::Pull, GroupMode::Cluster);
    let mut out = Vec::new();
    for i in 0..5 {
        c.enqueue(msg(&i.to_string()));
        if i % 2 == 1 {
            out.push(c.dequeue().unwrap());
        }
    }
    while let Some(m) = c.dequeue() {
        out.push(m);
    }
    let expected: Vec<Message> = (0..5).map(|i| msg(&i.to_string())).collect();
    assert_eq!(out, expected);
    assert!(c.is_empty());
    assert_eq!(c.message_num(), 0);
}

#[test]
fn broadcast_tick_writes_to_every_token() {
    let mut c = Channel::new("t".to_string(), "g".to_string(), ChannelMode::Push, GroupMode::Broadcast);
    c.enqueue(msg("hello"));
    let out = c.tick_with(&vec![4, 5, 6], None);
    assert_eq!(out.len(), 3);
    assert_eq!(out.iter().map(|d| d.token).collect::<Vec<_>>(), vec![4, 5, 6]);
    assert!(out.iter().all(|d| d.message == msg("hello")));
    assert!(c.is_empty());
}

#[test]
fn broadcast_without_tokens_keeps_message() {
    let mut c = Channel::new("t".to_string(), "g".to_string(), ChannelMode::Push, GroupMode::Broadcast);
    c.enqueue(msg("hello"));
    assert!(c.tick_with(&vec![], None).is_empty());
    assert_eq!(c.message_num(), 1);
}

#[test]
fn cluster_tick_writes_once() {
    let mut c = Channel::new("t".to_string(), "g".to_string(), ChannelMode::Push, GroupMode::Cluster);
    c.enqueue(msg("a"));
    c.enqueue(msg("b"));
    let out = c.tick_with(&vec![1, 2, 3], Some(2));
    assert_eq!(out.len(), 1);
    assert_eq!(out[0].token, 2);
    assert_eq!(out[0].message, msg("a"));
    assert_eq!(c.message_num(), 1);
    assert!(c.tick_with(&vec![], None).is_empty());
    assert_eq!(c.message_num(), 1);
}

#[test]
fn pull_channel_never_pushes() {
    let mut c = Channel::new("t".to_string(), "g".to_string(), ChannelMode::Pull, GroupMode::Broadcast);
    c.enqueue(msg("a"));
    assert!(c.tick_with(&vec![1], Some(1)).is_empty());
    assert_eq!(c.message_num(), 1);
    assert_eq!(c.mode(), ChannelMode::Pull);
    assert_eq!(c.group_mode(), GroupMode::Broadcast);
    assert_eq!(c.topic_name(), "t");
}
