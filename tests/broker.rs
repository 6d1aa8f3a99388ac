use robotbroker::broker::Broker;
use robotbroker::error::{BrokerError, ErrorKind, NodeManagerError, PubOrSub, TopicManagerError};

const DIR: &str = "/tmp/rb-test";

fn is_token_char(c: char) -> bool {
    c.is_ascii_alphanumeric()
}

fn check_address(addr: &str) {
    let prefix = format!("{}/", DIR);
    assert!(addr.starts_with(&prefix), "{}", addr);
    assert!(addr.ends_with(".sock"), "{}", addr);
    let token = &addr[prefix.len()..addr.len() - ".sock".len()];
    assert_eq!(token.len(), 20);
    assert!(token.chars().all(is_token_char));
}

fn sorted(mut v: Vec<String>) -> Vec<String> {
    v.sort();
    v
}

#[test]
fn register_and_list() {
    let mut b = Broker::new(DIR);
    let a = b.register_node("alpha", 0).unwrap();
    let c = b.register_node("beta", 0).unwrap();
    check_address(&a);
    check_address(&c);
    assert_ne!(a, c);
    let names = sorted(b.list_nodes().into_iter().map(|n| n.name).collect());
    assert_eq!(names, vec!["alpha".to_string(), "beta".to_string()]);
}

#[test]
fn duplicate_name() {
    let mut b = Broker::new(DIR);
    let a = b.register_node("alpha", 0).unwrap();
    let e = b.register_node("alpha", 1).unwrap_err();
    assert_eq!(e, BrokerError::Node(NodeManagerError::NodeAlreadyExists("alpha".to_string())));
    assert_eq!(e.kind(), ErrorKind::AlreadyExists);
    let nodes = b.list_nodes();
    assert_eq!(nodes.len(), 1);
    assert_eq!(nodes[0].name, "alpha");
    assert_eq!(nodes[0].uds, a);
    assert_eq!(nodes[0].last_hb, 0);
}

#[test]
fn empty_name_is_invalid() {
    let mut b = Broker::new(DIR);
    let e = b.register_node("", 0).unwrap_err();
    assert_eq!(e, BrokerError::Node(NodeManagerError::EmptyName));
    assert_eq!(e.kind(), ErrorKind::InvalidArgument);
    assert!(b.list_nodes().is_empty());
}

fn typed_topic() -> (Broker, String) {
    let mut b = Broker::new(DIR);
    b.register_node("pub", 0).unwrap();
    let sub_addr = b.register_node("sub", 0).unwrap();
    b.add_subscriber("sub", "T", "Int").unwrap();
    assert_eq!(b.get_subscribers("T").unwrap(), vec!["sub".to_string()]);
    assert!(b.get_publishers("T").unwrap().is_empty());
    b.add_publisher("pub", "T", "Int").unwrap();
    (b, sub_addr)
}

#[test]
fn typed_topic_matching() {
    let (b, sub_addr) = typed_topic();
    assert_eq!(b.get_channel("pub", "sub", "T").unwrap(), sub_addr);
    assert_eq!(b.get_publishers("T").unwrap(), vec!["pub".to_string()]);
    assert_eq!(b.topics_published_by("pub"), vec!["T".to_string()]);
    assert_eq!(b.topics_subscribed_by("sub"), vec!["T".to_string()]);
    assert!(b.topics_subscribed_by("pub").is_empty());
}

#[test]
fn subscriber_joining_later_gets_channels_from_every_publisher() {
    let mut b = Broker::new(DIR);
    b.register_node("pa", 0).unwrap();
    b.register_node("pb", 0).unwrap();
    let s = b.register_node("s", 0).unwrap();
    b.add_publisher("pa", "T", "Int").unwrap();
    b.add_publisher("pb", "T", "Int").unwrap();
    b.add_subscriber("s", "T", "Int").unwrap();
    assert_eq!(b.get_channel("pa", "s", "T").unwrap(), s);
    assert_eq!(b.get_channel("pb", "s", "T").unwrap(), s);
    let e = b.get_channel("s", "pa", "T").unwrap_err();
    assert_eq!(e.kind(), ErrorKind::NotFound);
}

#[test]
fn node_can_publish_to_itself() {
    let mut b = Broker::new(DIR);
    let a = b.register_node("loop", 0).unwrap();
    b.add_publisher("loop", "T", "Int").unwrap();
    b.add_subscriber("loop", "T", "Int").unwrap();
    assert_eq!(b.get_channel("loop", "loop", "T").unwrap(), a);
}

#[test]
fn type_mismatch() {
    let (mut b, sub_addr) = typed_topic();
    b.register_node("pub2", 0).unwrap();
    let e = b.add_publisher("pub2", "T", "Float").unwrap_err();
    assert_eq!(
        e,
        BrokerError::Topic(TopicManagerError::TopicTypeDoesNotMatch {
            topic_name: "T".to_string(),
            requested_type: "Float".to_string(),
            real_type: "Int".to_string(),
        })
    );
    assert_eq!(e.kind(), ErrorKind::FailedPrecondition);
    assert_eq!(b.get_publishers("T").unwrap(), vec!["pub".to_string()]);
    assert_eq!(b.get_subscribers("T").unwrap(), vec!["sub".to_string()]);
    assert_eq!(b.get_channel("pub", "sub", "T").unwrap(), sub_addr);
}

#[test]
fn declared_twice_with_other_type() {
    let mut b = Broker::new(DIR);
    b.register_node("n", 0).unwrap();
    b.register_node("m", 0).unwrap();
    b.add_subscriber("n", "T", "A").unwrap();
    let e = b.add_subscriber("m", "T", "B").unwrap_err();
    assert_eq!(e.kind(), ErrorKind::FailedPrecondition);
    assert_eq!(b.get_subscribers("T").unwrap(), vec!["n".to_string()]);
}

#[test]
fn add_publisher_twice_changes_nothing() {
    let (mut b, sub_addr) = typed_topic();
    let e = b.add_publisher("pub", "T", "Int").unwrap_err();
    assert_eq!(
        e,
        BrokerError::Topic(TopicManagerError::NodeAlreadyExists {
            node: "pub".to_string(),
            topic: "T".to_string(),
            pubsub: PubOrSub::Publisher,
        })
    );
    assert_eq!(e.kind(), ErrorKind::AlreadyExists);
    assert_eq!(b.get_publishers("T").unwrap(), vec!["pub".to_string()]);
    assert_eq!(b.get_channel("pub", "sub", "T").unwrap(), sub_addr);
}

#[test]
fn unregistered_node_cannot_join() {
    let mut b = Broker::new(DIR);
    let e = b.add_publisher("ghost", "T", "Int").unwrap_err();
    assert_eq!(e, BrokerError::Node(NodeManagerError::NodeDoesNotExist("ghost".to_string())));
    assert_eq!(e.kind(), ErrorKind::FailedPrecondition);
    assert_eq!(b.get_publishers("T").unwrap_err().kind(), ErrorKind::NotFound);
}

#[test]
fn cascade_on_node_deletion() {
    let (mut b, _) = typed_topic();
    b.delete_node("sub").unwrap();
    assert!(b.get_subscribers("T").unwrap().is_empty());
    assert_eq!(b.get_publishers("T").unwrap(), vec!["pub".to_string()]);
    let e = b.get_channel("pub", "sub", "T").unwrap_err();
    assert_eq!(
        e,
        BrokerError::Topic(TopicManagerError::ChannelDoesNotExist {
            publisher: "pub".to_string(),
            subscriber: "sub".to_string(),
            topic_name: "T".to_string(),
        })
    );
    assert_eq!(e.kind(), ErrorKind::NotFound);
    b.remove_publisher("pub", "T").unwrap();
    let e = b.get_publishers("T").unwrap_err();
    assert_eq!(e, BrokerError::Topic(TopicManagerError::TopicDoesNotExist("T".to_string())));
    assert_eq!(e.kind(), ErrorKind::NotFound);
}

#[test]
fn delete_unknown_node() {
    let mut b = Broker::new(DIR);
    let e = b.delete_node("nobody").unwrap_err();
    assert_eq!(e.kind(), ErrorKind::FailedPrecondition);
}

#[test]
fn removing_last_members_destroys_topic() {
    let (mut b, _) = typed_topic();
    b.remove_publisher("pub", "T").unwrap();
    assert_eq!(b.get_channel("pub", "sub", "T").unwrap_err().kind(), ErrorKind::NotFound);
    assert_eq!(b.get_subscribers("T").unwrap(), vec!["sub".to_string()]);
    b.remove_subscriber("sub", "T").unwrap();
    let e = b.get_channel("pub", "sub", "T").unwrap_err();
    assert_eq!(e, BrokerError::Topic(TopicManagerError::TopicDoesNotExist("T".to_string())));
    assert_eq!(b.get_publishers("T").unwrap_err().kind(), ErrorKind::NotFound);
    assert_eq!(b.get_subscribers("T").unwrap_err().kind(), ErrorKind::NotFound);
    assert!(b.topics_subscribed_by("sub").is_empty());
}

#[test]
fn remove_from_missing_topic() {
    let mut b = Broker::new(DIR);
    b.register_node("n", 0).unwrap();
    let e = b.remove_subscriber("n", "nowhere").unwrap_err();
    assert_eq!(e, BrokerError::Topic(TopicManagerError::TopicDoesNotExist("nowhere".to_string())));
    assert_eq!(e.kind(), ErrorKind::NotFound);
}

#[test]
fn add_then_remove_restores_topic() {
    let (mut b, sub_addr) = typed_topic();
    b.register_node("extra", 0).unwrap();
    b.add_publisher("extra", "T", "Int").unwrap();
    assert_eq!(b.get_channel("extra", "sub", "T").unwrap(), sub_addr);
    b.remove_publisher("extra", "T").unwrap();
    assert_eq!(b.get_publishers("T").unwrap(), vec!["pub".to_string()]);
    assert_eq!(b.get_channel("extra", "sub", "T").unwrap_err().kind(), ErrorKind::NotFound);
    assert_eq!(b.get_channel("pub", "sub", "T").unwrap(), sub_addr);

    b.add_subscriber("extra", "U", "Str").unwrap();
    b.remove_subscriber("extra", "U").unwrap();
    assert_eq!(b.get_subscribers("U").unwrap_err().kind(), ErrorKind::NotFound);
}

#[test]
fn heartbeat_unknown_node() {
    let mut b = Broker::new(DIR);
    let e = b.heartbeat("ghost", 5).unwrap_err();
    assert_eq!(e, BrokerError::Node(NodeManagerError::NodeDoesNotExist("ghost".to_string())));
    assert_eq!(e.kind(), ErrorKind::FailedPrecondition);
}

#[test]
fn heartbeat_is_idempotent_and_monotonic() {
    let mut b = Broker::new(DIR);
    let a = b.register_node("x", 100).unwrap();
    b.heartbeat("x", 250).unwrap();
    b.heartbeat("x", 250).unwrap();
    let nodes = b.list_nodes();
    assert_eq!(nodes.len(), 1);
    assert_eq!(nodes[0].last_hb, 250);
    assert_eq!(nodes[0].uds, a);
    b.heartbeat("x", 200).unwrap();
    assert_eq!(b.list_nodes()[0].last_hb, 250);
}

#[test]
fn heartbeat_staleness() {
    let mut b = Broker::new(DIR);
    b.register_node("x", 0).unwrap();
    b.register_node("y", 0).unwrap();
    b.add_subscriber("x", "T", "Int").unwrap();
    b.heartbeat("y", 4_000).unwrap();
    let evicted = b.reap(6_000, 5_000);
    assert_eq!(evicted, vec!["x".to_string()]);
    let names: Vec<String> = b.list_nodes().into_iter().map(|n| n.name).collect();
    assert_eq!(names, vec!["y".to_string()]);
    assert_eq!(b.heartbeat("x", 6_001).unwrap_err().kind(), ErrorKind::FailedPrecondition);
    assert_eq!(b.get_subscribers("T").unwrap_err().kind(), ErrorKind::NotFound);
}

#[test]
fn reap_keeps_nodes_at_the_threshold() {
    let mut b = Broker::new(DIR);
    b.register_node("x", 1_000).unwrap();
    assert!(b.reap(6_000, 5_000).is_empty());
    assert_eq!(b.list_nodes().len(), 1);
    assert!(b.reap(500, 0).is_empty());
    assert_eq!(b.reap(6_001, 5_000), vec!["x".to_string()]);
    assert!(b.list_nodes().is_empty());
}

#[test]
fn empty_topic_name_is_invalid() {
    let mut b = Broker::new(DIR);
    b.register_node("n", 0).unwrap();
    let e = b.add_publisher("n", "", "Int").unwrap_err();
    assert_eq!(e, BrokerError::Topic(TopicManagerError::EmptyTopicName));
    assert_eq!(e.kind(), ErrorKind::InvalidArgument);
    let e = b.add_subscriber("n", "", "Int").unwrap_err();
    assert_eq!(e.kind(), ErrorKind::InvalidArgument);
    assert!(b.topics_published_by("n").is_empty());
    assert!(b.topics_subscribed_by("n").is_empty());
}

#[test]
fn first_registration_always_succeeds() {
    for _ in 0..50 {
        let mut b = Broker::new(DIR);
        check_address(&b.register_node("alpha", 0).unwrap());
    }
}
