use robotbroker::error::{ErrorKind, PubOrSub, TopicManagerError};
use robotbroker::nodes::NodeManager;
use robotbroker::topic::Topic;
use robotbroker::topic_manager::TopicManager;
use robotbroker::topics::{MemoryTopicStorage, TopicStorage};
use robotbroker::uds::UdsGenerator;

#[test]
fn topic_starts_empty() {
    let t = Topic::new("T", "Int");
    assert_eq!(t.name(), "T");
    assert_eq!(t.msg_type(), "Int");
    assert!(t.is_empty());
    assert!(t.publishers().is_empty());
    assert!(t.subscribers().is_empty());
}

#[test]
fn topic_membership() {
    let mut t = Topic::new("T", "Int");
    t.add_publisher("p").unwrap();
    t.add_subscriber("s").unwrap();
    assert!(!t.is_empty());
    assert!(t.has_member("p", PubOrSub::Publisher));
    assert!(!t.has_member("p", PubOrSub::Subscriber));
    let e = t.add_subscriber("s").unwrap_err();
    assert_eq!(
        e,
        TopicManagerError::NodeAlreadyExists {
            node: "s".to_string(),
            topic: "T".to_string(),
            pubsub: PubOrSub::Subscriber,
        }
    );
    assert_eq!(e.kind(), ErrorKind::AlreadyExists);
    t.remove_subscriber("s").unwrap();
    let e = t.remove_subscriber("s").unwrap_err();
    assert_eq!(
        e,
        TopicManagerError::NodeDoesntExist {
            node: "s".to_string(),
            topic: "T".to_string(),
            pubsub: PubOrSub::Subscriber,
        }
    );
    assert_eq!(e.kind(), ErrorKind::NotFound);
    t.remove_publisher("p").unwrap();
    assert!(t.is_empty());
    assert!(t.remove_publisher("p").is_err());
}

#[test]
fn topic_channels() {
    let mut t = Topic::new("T", "Int");
    let e = t.add_channel("p", "s", "/c").unwrap_err();
    assert_eq!(
        e,
        TopicManagerError::NotPublishing { publisher: "p".to_string(), topic_name: "T".to_string() }
    );
    assert_eq!(e.kind(), ErrorKind::FailedPrecondition);
    t.add_publisher("p").unwrap();
    let e = t.add_channel("p", "s", "/c").unwrap_err();
    assert_eq!(
        e,
        TopicManagerError::NotSubscribed { subscriber: "s".to_string(), topic_name: "T".to_string() }
    );
    t.add_subscriber("s").unwrap();
    t.add_channel("p", "s", "/c").unwrap();
    assert_eq!(t.get_channel("p", "s"), Some("/c".to_string()));
    assert_eq!(t.get_channel("s", "p"), None);
    let e = t.add_channel("p", "s", "/d").unwrap_err();
    assert_eq!(e.kind(), ErrorKind::AlreadyExists);
    assert_eq!(t.get_channel("p", "s"), Some("/c".to_string()));
    t.remove_publisher("p").unwrap();
    assert_eq!(t.get_channel("p", "s"), None);
}

#[test]
fn topic_remove_node_drops_both_roles() {
    let mut t = Topic::new("T", "Int");
    t.add_publisher("a").unwrap();
    t.add_subscriber("a").unwrap();
    t.add_subscriber("b").unwrap();
    t.add_channel("a", "a", "/a").unwrap();
    t.add_channel("a", "b", "/b").unwrap();
    t.remove_node("a");
    assert!(t.publishers().is_empty());
    assert_eq!(t.subscribers(), vec!["b".to_string()]);
    assert_eq!(t.get_channel("a", "b"), None);
    assert_eq!(t.get_channel("a", "a"), None);
}

#[test]
fn storage_round_trip() {
    let mut s = MemoryTopicStorage::new();
    assert_eq!(s.get_subscribers("T").unwrap_err(), TopicManagerError::TopicDoesNotExist("T".to_string()));
    s.add_subscriber("s", "T", "Int").unwrap();
    s.add_publisher("p", "T", "Int").unwrap();
    s.add_channel("p", "s", "T", "/s").unwrap();
    assert_eq!(s.get_channel("p", "s", "T").unwrap(), "/s");
    let e = s.add_channel("p", "s", "U", "/s").unwrap_err();
    assert_eq!(e, TopicManagerError::TopicDoesNotExist("U".to_string()));
    assert_eq!(s.topics_subscribed_to("s").unwrap(), vec!["T".to_string()]);
    assert_eq!(s.topics_publishing_to("p").unwrap(), vec!["T".to_string()]);
    assert!(s.topics_publishing_to("s").unwrap().is_empty());
    let e = s.add_publisher("q", "T", "Str").unwrap_err();
    assert_eq!(e.kind(), ErrorKind::FailedPrecondition);
    s.remove_publisher("p", "T").unwrap();
    s.remove_publisher("p", "T").unwrap();
    assert!(s.get_publishers("T").unwrap().is_empty());
    s.remove_subscriber("s", "T").unwrap();
    assert!(s.get_subscribers("T").is_err());
    assert!(s.remove_subscriber("s", "T").is_err());
}

#[test]
fn storage_remove_node_cascades() {
    let mut s = MemoryTopicStorage::new();
    s.add_publisher("a", "T", "Int").unwrap();
    s.add_subscriber("b", "T", "Int").unwrap();
    s.add_subscriber("a", "U", "Int").unwrap();
    s.add_channel("a", "b", "T", "/b").unwrap();
    s.remove_node("a");
    assert!(s.get_publishers("T").unwrap().is_empty());
    assert_eq!(s.get_subscribers("T").unwrap(), vec!["b".to_string()]);
    assert!(s.get_channel("a", "b", "T").is_err());
    assert!(s.get_subscribers("U").is_err());
}

#[test]
fn pubsub_labels() {
    assert_eq!(PubOrSub::Publisher.label(), "Publisher");
    assert_eq!(PubOrSub::Subscriber.label(), "Subscriber");
}

#[test]
fn manager_matches_members_at_the_subscriber_address() {
    let mut nodes = NodeManager::new(UdsGenerator::new("/tmp/m"));
    nodes.register_node_with_address("p", "/tmp/m/p.sock", 0).unwrap();
    nodes.register_node_with_address("s", "/tmp/m/s.sock", 0).unwrap();
    let mut tm = TopicManager::new(MemoryTopicStorage::new());
    tm.add_subscriber(&nodes, "s", "T", "Int").unwrap();
    tm.add_publisher(&nodes, "p", "T", "Int").unwrap();
    assert_eq!(tm.get_channel("p", "s", "T").unwrap(), "/tmp/m/s.sock");
    assert!(tm.get_channel("s", "p", "T").is_err());
    assert_eq!(tm.topics_of_node("p", PubOrSub::Publisher), vec!["T".to_string()]);
    assert!(tm.topics_of_node("p", PubOrSub::Subscriber).is_empty());
    let e = tm.add_publisher(&nodes, "s", "T", "Str").unwrap_err();
    assert_eq!(e.kind(), ErrorKind::FailedPrecondition);
    tm.remove_node("s");
    assert!(tm.get_channel("p", "s", "T").is_err());
    assert!(tm.get_subscribers("T").unwrap().is_empty());
    tm.remove_publisher("p", "T").unwrap();
    assert!(tm.get_publishers("T").is_err());
}
