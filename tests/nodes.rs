use robotbroker::error::{ErrorKind, NodeManagerError};
use robotbroker::nodes::NodeManager;
use robotbroker::uds::UdsGenerator;

#[test]
fn generated_paths_live_in_the_scratch_dir() {
    let g = UdsGenerator::new("/tmp/scratch");
    assert_eq!(g.scratch_dir(), "/tmp/scratch");
    let a = g.generate_uds();
    let b = g.generate_uds();
    assert_ne!(a, b);
    for p in [a, b] {
        assert!(p.starts_with("/tmp/scratch/"));
        assert!(p.ends_with(".sock"));
        assert_eq!(p.len(), "/tmp/scratch/".len() + 20 + ".sock".len());
        let token = &p["/tmp/scratch/".len()..p.len() - 5];
        assert!(token.chars().all(|c| c.is_ascii_alphanumeric()));
    }
}

#[test]
fn register_with_given_address() {
    let mut m = NodeManager::new(UdsGenerator::new("/tmp/d"));
    let n = m.register_node_with_address("a", "/tmp/d/x.sock", 7).unwrap();
    assert_eq!(n.name, "a");
    assert_eq!(n.uds, "/tmp/d/x.sock");
    assert_eq!(n.last_hb, 7);
    let e = m.register_node_with_address("b", "/tmp/d/x.sock", 7).unwrap_err();
    assert_eq!(e, NodeManagerError::AddressUnavailable);
    assert_eq!(e.kind(), ErrorKind::Internal);
    let e = m.register_node_with_address("a", "/tmp/d/y.sock", 7).unwrap_err();
    assert_eq!(e, NodeManagerError::NodeAlreadyExists("a".to_string()));
    assert!(m.contains_node("a"));
    assert!(!m.contains_node("b"));
    assert_eq!(m.get_address("a").unwrap(), "/tmp/d/x.sock");
}

#[test]
fn node_registry_lifecycle() {
    let mut m = NodeManager::new(UdsGenerator::new("/tmp/d"));
    let n = m.register_node("a", 1).unwrap();
    assert!(n.uds.starts_with("/tmp/d/"));
    m.update_heartbeat("a", 9).unwrap();
    let listed = m.list_nodes().unwrap();
    assert_eq!(listed.len(), 1);
    assert_eq!(listed[0].last_hb, 9);
    assert_eq!(m.stale_nodes(20, 10), vec!["a".to_string()]);
    assert!(m.stale_nodes(19, 10).is_empty());
    m.remove_node("a").unwrap();
    let e = m.remove_node("a").unwrap_err();
    assert_eq!(e, NodeManagerError::NodeDoesNotExist("a".to_string()));
    assert_eq!(m.update_heartbeat("a", 10).unwrap_err().kind(), ErrorKind::FailedPrecondition);
    assert_eq!(m.get_address("a").unwrap_err().kind(), ErrorKind::FailedPrecondition);
}
