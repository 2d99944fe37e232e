use luminmq::channel::ChannelMode;
use luminmq::group::{Group, GroupMode, Groups};
use luminmq::msg::{ConsumerType, Message, MessageStatus, MessageType};
use luminmq::types::{get_keys_for_value, ConnectionPool, ConnectionPoolAndGroupBind, ConsumerBinder};

fn s(x: &str) -> String {
    x.to_string()
}

fn msg(data: &str) -> Message {
    Message::new(s("g"), s("t"), s(data), MessageType::Business, ConsumerType::Send, MessageStatus::Unspecified)
}

#[test]
fn groups_create_is_idempotent() {
    let mut groups = Groups::new();
    groups.default_insert_group(s("g"), GroupMode::Cluster);
    groups.insert_channel(s("g"), s("t"), ChannelMode::Pull);
    groups.insert_message(s("g"), s("t"), msg("1"));
    groups.default_insert_group(s("g"), GroupMode::Broadcast);
    assert_eq!(groups.group_num(), 1);
    assert_eq!(groups.get_group_by_id(s("g")).unwrap().mode(), GroupMode::Cluster);
    assert_eq!(groups.get_message_num_by_topic(s("g"), s("t")), 1);
}

#[test]
fn duplicate_topic_is_a_no_op() {
    let mut groups = Groups::new();
    groups.default_insert_group(s("g"), GroupMode::Cluster);
    groups.insert_channel(s("g"), s("t"), ChannelMode::Pull);
    groups.insert_message(s("g"), s("t"), msg("1"));
    groups.insert_channel(s("g"), s("t"), ChannelMode::Push);
    assert_eq!(groups.get_channel_mode(s("g"), s("t")), ChannelMode::Pull);
    assert_eq!(groups.get_message_num_by_topic(s("g"), s("t")), 1);
}

#[test]
fn missing_group_or_topic_is_silent() {
    let mut groups = Groups::new();
    groups.insert_message(s("g"), s("t"), msg("1"));
    groups.insert_channel(s("g"), s("t"), ChannelMode::Pull);
    assert!(!groups.contains_id(s("g")));
    assert!(!groups.contains_topic(s("g"), s("t")));
    assert_eq!(groups.get_message_num_by_topic(s("g"), s("t")), 0);
    assert_eq!(groups.get_channel_mode(s("g"), s("t")), ChannelMode::Unspecified);
    assert_eq!(groups.get_a_message(s("g"), s("t")), Err(()));
    assert!(groups.get_group_by_id(s("g")).is_none());
    groups.default_insert_group(s("g"), GroupMode::Broadcast);
    groups.insert_message(s("g"), s("x"), msg("1"));
    assert!(groups.contains_id(s("g")));
    assert!(!groups.contains_topic(s("g"), s("x")));
    assert_eq!(groups.get_a_message(s("g"), s("x")), Err(()));
}

#[test]
fn get_a_message_dequeues_in_order() {
    let mut groups = Groups::new();
    groups.default_insert_group(s("g"), GroupMode::Cluster);
    groups.insert_channel(s("g"), s("t"), ChannelMode::Pull);
    groups.insert_message(s("g"), s("t"), msg("1"));
    groups.insert_message(s("g"), s("t"), msg("2"));
    assert_eq!(groups.get_a_message(s("g"), s("t")), Ok(msg("1")));
    assert_eq!(groups.get_a_message(s("g"), s("t")), Ok(msg("2")));
    assert_eq!(groups.get_a_message(s("g"), s("t")), Err(()));
}

#[test]
fn insert_group_replaces() {
    let mut groups = Groups::new();
    groups.default_insert_group(s("g"), GroupMode::Cluster);
    let mut g = Group::new(s("g"), GroupMode::Broadcast);
    g.insert_channel(s("t"), ChannelMode::Push);
    groups.insert_group(g);
    assert_eq!(groups.group_num(), 1);
    assert_eq!(groups.get_group_by_id(s("g")).unwrap().mode(), GroupMode::Broadcast);
    assert_eq!(groups.get_channel_mode(s("g"), s("t")), ChannelMode::Push);
    let mut ids = groups.group_ids();
    ids.sort();
    assert_eq!(ids, vec![s("g")]);
}

#[test]
fn group_channels() {
    let mut g = Group::new(s("g"), GroupMode::Cluster);
    g.insert_channel(s("a"), ChannelMode::Pull);
    g.insert_channel(s("b"), ChannelMode::Push);
    assert!(g.contains_channel(s("a")));
    assert_eq!(g.get_channel(s("b")).unwrap().mode(), ChannelMode::Push);
    assert_eq!(g.get_channel(s("b")).unwrap().group_id, s("g"));
    g.insert_message(s("a"), msg("1"));
    assert_eq!(g.get_channel(s("a")).unwrap().message_num(), 1);
    assert_eq!(g.dequeue_message(s("a")), Some(msg("1")));
    g.remove_channel(s("a"));
    assert!(!g.contains_channel(s("a")));
    assert!(g.get_channel(s("a")).is_none());
    assert_eq!(g.topics(), vec![s("b")]);
    assert_eq!(g.id(), "g");
}

#[test]
fn bindings_lookup_and_replace() {
    let mut b = ConnectionPoolAndGroupBind::new();
    b.insert(1, (s("g"), s("t")));
    b.insert(2, (s("g"), s("t")));
    b.insert(3, (s("g"), s("u")));
    assert_eq!(b.get_token_list((s("g"), s("t"))), vec![1, 2]);
    b.insert(1, (s("g"), s("u")));
    assert_eq!(b.get_token_list((s("g"), s("t"))), vec![2]);
    assert_eq!(b.get(1), Some((s("g"), s("u"))));
    assert!(b.get_token_list((s("x"), s("t"))).is_empty());
}

#[test]
fn remove_token_is_idempotent() {
    let mut b = ConnectionPoolAndGroupBind::new();
    b.insert(1, (s("g"), s("t")));
    b.insert(2, (s("g"), s("t")));
    b.remove(1);
    assert_eq!(b.get(1), None);
    assert_eq!(b.get_token_list((s("g"), s("t"))), vec![2]);
    b.remove(1);
    assert_eq!(b.get(1), None);
    assert_eq!(b.get_token_list((s("g"), s("t"))), vec![2]);
}

#[test]
fn random_token_is_a_bound_one() {
    let mut b = ConnectionPoolAndGroupBind::new();
    assert_eq!(b.get_random_token((s("g"), s("t"))), None);
    b.insert(7, (s("g"), s("t")));
    b.insert(8, (s("g"), s("t")));
    b.insert(9, (s("h"), s("t")));
    for _ in 0..50 {
        let t = b.get_random_token((s("g"), s("t"))).unwrap();
        assert!(t == 7 || t == 8);
    }
}

#[test]
fn keys_for_value() {
    let entries = vec![(1u64, (s("a"), s("b"))), (2, (s("c"), s("d"))), (3, (s("a"), s("b")))];
    assert_eq!(get_keys_for_value(&entries, &(s("a"), s("b"))), vec![1, 3]);
    assert!(get_keys_for_value(&entries, &(s("z"), s("b"))).is_empty());
}

#[test]
fn connection_pool_handle() {
    let mut pool: ConnectionPool<&str> = ConnectionPool::new();
    pool.insert(1, "first");
    pool.insert(2, "second");
    assert_eq!(pool.handle(1), Some(&"first"));
    pool.remove(1);
    assert_eq!(pool.handle(1), None);
    assert!(!pool.contains(1));
    pool.remove(1);
    assert!(pool.contains(2));
}

#[test]
fn consumer_binder() {
    let mut binder = ConsumerBinder::new();
    assert_eq!(binder.get((s("g"), s("t"))), Err(s("key does not exist.")));
    binder.insert((s("g"), s("t")), s("on_message"));
    assert_eq!(binder.get((s("g"), s("t"))), Ok(s("on_message")));
}

#[test]
fn remove_group_drops_its_channels() {
    let mut groups = Groups::new();
    groups.default_insert_group(s("g"), GroupMode::Cluster);
    groups.default_insert_group(s("h"), GroupMode::Broadcast);
    groups.insert_channel(s("g"), s("t"), ChannelMode::Pull);
    groups.remove_group(s("g"));
    groups.remove_group(s("g"));
    assert_eq!(groups.group_num(), 1);
    assert!(!groups.contains_topic(s("g"), s("t")));
    assert!(groups.contains_id(s("h")));
}

#[test]
fn group_count_grows_by_one_per_new_group() {
    let mut groups = Groups::new();
    assert_eq!(groups.group_num(), 0);
    groups.default_insert_group(s("a"), GroupMode::Cluster);
    assert_eq!(groups.group_num(), 1);
    groups.default_insert_group(s("b"), GroupMode::Cluster);
    assert_eq!(groups.group_num(), 2);
    groups.default_insert_group(s("a"), GroupMode::Broadcast);
    assert_eq!(groups.group_num(), 2);
}
