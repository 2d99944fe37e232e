use luminmq::channel::ChannelMode;
use luminmq::client::LuminMQClient;
use luminmq::group::GroupMode;
use luminmq::msg::{ConsumerType, Message, MessageStatus, MessageType};
use luminmq::protocol::Protocol;
use luminmq::server::LuminMQServer;

fn s(x: &str) -> String {
    x.to_string()
}

fn frame(kind: MessageType, role: ConsumerType, group: &str, topic: &str, data: &str) -> Vec<u8> {
    Message::new(s(group), s(topic), s(data), kind, role, MessageStatus::Unspecified)
        .frame_bytes()
        .unwrap()
}

fn reply_message(bytes: &[u8]) -> Message {
    let (p, n) = Protocol::reader(bytes).unwrap();
    assert_eq!(n, bytes.len());
    p.get_message().unwrap()
}

fn server(mode: GroupMode, channel: ChannelMode) -> LuminMQServer<()> {
    let mut srv = LuminMQServer::new();
    srv.groups_mut().default_insert_group(s("g"), mode);
    srv.groups_mut().insert_channel(s("g"), s("t"), channel);
    srv
}

fn bind(srv: &mut LuminMQServer<()>) -> u64 {
    let token = srv.accept(()).unwrap();
    let out = srv.on_readable(token, &frame(MessageType::System, ConsumerType::Unspecified, "g", "t", ""));
    assert!(!out.close && out.reply.is_none());
    token
}

#[test]
fn send_frame_enqueues() {
    let mut srv = server(GroupMode::Cluster, ChannelMode::Pull);
    let token = srv.accept(()).unwrap();
    let bytes = frame(MessageType::Business, ConsumerType::Send, "g", "t", "hello");
    let out = srv.on_readable(token, &bytes);
    assert!(!out.close);
    assert!(out.reply.is_none());
    assert_eq!(out.consumed, bytes.len());
    assert_eq!(srv.groups().get_message_num_by_topic(s("g"), s("t")), 1);
}

#[test]
fn pull_frame_replies_with_message() {
    let mut srv = server(GroupMode::Cluster, ChannelMode::Pull);
    let sender = srv.accept(()).unwrap();
    srv.on_readable(sender, &frame(MessageType::Business, ConsumerType::Send, "g", "t", "hello"));
    let puller = bind(&mut srv);
    let out = srv.on_readable(puller, &frame(MessageType::Business, ConsumerType::Pull, "g", "t", ""));
    let reply = reply_message(&out.reply.unwrap());
    assert_eq!(reply.status, MessageStatus::Success);
    assert_eq!(reply.data, "hello");
    assert_eq!(srv.groups().get_message_num_by_topic(s("g"), s("t")), 0);
}

#[test]
fn pull_from_empty_channel_fails() {
    let mut srv = server(GroupMode::Cluster, ChannelMode::Pull);
    let puller = bind(&mut srv);
    let out = srv.on_readable(puller, &frame(MessageType::Business, ConsumerType::Pull, "g", "t", "ask"));
    let reply = reply_message(&out.reply.unwrap());
    assert_eq!(reply.status, MessageStatus::Fail);
    assert_eq!(reply.data, "No message exists.");
    assert_eq!(reply.group_id, "g");
}

#[test]
fn pull_on_push_channel_is_ignored() {
    let mut srv = server(GroupMode::Cluster, ChannelMode::Push);
    let puller = bind(&mut srv);
    let out = srv.on_readable(puller, &frame(MessageType::Business, ConsumerType::Pull, "g", "t", ""));
    assert!(out.reply.is_none() && !out.close);
}

#[test]
fn broadcast_tick_reaches_every_bound_connection() {
    let mut srv = server(GroupMode::Broadcast, ChannelMode::Push);
    let tokens: Vec<u64> = (0..3).map(|_| bind(&mut srv)).collect();
    let sender = srv.accept(()).unwrap();
    srv.on_readable(sender, &frame(MessageType::Business, ConsumerType::Send, "g", "t", "news"));
    let out = srv.tick(s("g"), s("t"));
    assert_eq!(out.len(), 3);
    let mut got: Vec<u64> = out.iter().map(|d| d.token).collect();
    got.sort();
    assert_eq!(got, tokens);
    assert!(out.iter().all(|d| d.message.data == "news"));
    assert_eq!(srv.groups().get_message_num_by_topic(s("g"), s("t")), 0);
    assert!(srv.tick(s("g"), s("t")).is_empty());
}

#[test]
fn cluster_tick_delivers_each_message_once() {
    let mut srv = server(GroupMode::Cluster, ChannelMode::Push);
    let tokens: Vec<u64> = (0..3).map(|_| bind(&mut srv)).collect();
    let sender = srv.accept(()).unwrap();
    for data in ["m1", "m2", "m3"] {
        srv.on_readable(sender, &frame(MessageType::Business, ConsumerType::Send, "g", "t", data));
    }
    let mut seen = Vec::new();
    for _ in 0..3 {
        let out = srv.tick(s("g"), s("t"));
        assert_eq!(out.len(), 1);
        assert!(tokens.contains(&out[0].token));
        seen.push(out[0].message.data.clone());
    }
    assert_eq!(seen, vec![s("m1"), s("m2"), s("m3")]);
    assert_eq!(srv.groups().get_message_num_by_topic(s("g"), s("t")), 0);
    assert!(srv.tick(s("g"), s("t")).is_empty());
}

#[test]
fn cluster_recipients_vary() {
    let mut srv = server(GroupMode::Cluster, ChannelMode::Push);
    for _ in 0..3 {
        bind(&mut srv);
    }
    let sender = srv.accept(()).unwrap();
    let mut recipients = Vec::new();
    for _ in 0..60 {
        srv.on_readable(sender, &frame(MessageType::Business, ConsumerType::Send, "g", "t", "x"));
        let out = srv.tick(s("g"), s("t"));
        recipients.push(out[0].token);
    }
    recipients.sort();
    recipients.dedup();
    assert!(recipients.len() > 1);
}

#[test]
fn corrupt_head_closes_connection() {
    let mut srv = server(GroupMode::Cluster, ChannelMode::Pull);
    let token = bind(&mut srv);
    let mut p = Protocol::default();
    p.head.identifier = s("xxxxmq");
    p.ready().unwrap();
    let bytes = p.to_byte_vec();
    let out = srv.on_readable(token, &bytes);
    assert!(out.close);
    assert_eq!(out.consumed, Protocol::protocol_head_size());
    assert!(!srv.pool().contains(token));
    assert_eq!(srv.binds().get(token), None);
    assert!(srv.binds().get_token_list((s("g"), s("t"))).is_empty());
}

#[test]
fn tokens_are_never_reused() {
    let mut srv: LuminMQServer<()> = LuminMQServer::new();
    let a = srv.accept(()).unwrap();
    let b = srv.accept(()).unwrap();
    assert_eq!((a, b), (1, 2));
    srv.remove(a);
    srv.remove(a);
    assert_eq!(srv.accept(()), Some(3));
    assert!(srv.pool().contains(b));
    assert!(!srv.pool().contains(a));
}

#[test]
fn client_pull_request_and_consumer_choice() {
    let bytes = LuminMQClient::pull_request(s("g"), s("t")).unwrap();
    let m = reply_message(&bytes);
    assert_eq!(m.msg_type, MessageType::Business);
    assert_eq!(m.consumer_type, ConsumerType::Pull);
    let mut client = LuminMQClient::new();
    client.register(s("g"), s("t"), s("handler"));
    let mut delivered = m.clone();
    assert_eq!(client.consumer_for(&delivered), None);
    delivered.status = MessageStatus::Success;
    assert_eq!(client.consumer_for(&delivered), Some(s("handler")));
    delivered.topic.name = s("other");
    assert_eq!(client.consumer_for(&delivered), None);
}

#[test]
fn partial_frame_waits_for_the_rest() {
    let mut srv = server(GroupMode::Cluster, ChannelMode::Pull);
    let token = srv.accept(()).unwrap();
    let bytes = frame(MessageType::Business, ConsumerType::Send, "g", "t", "hello");
    for cut in [0usize, 5, 12, 20, bytes.len() - 1] {
        let out = srv.on_readable(token, &bytes[..cut]);
        assert!(!out.close);
        assert_eq!(out.consumed, 0);
    }
    assert!(srv.pool().contains(token));
    let out = srv.on_readable(token, &bytes);
    assert_eq!(out.consumed, bytes.len());
    assert_eq!(srv.groups().get_message_num_by_topic(s("g"), s("t")), 1);
}
