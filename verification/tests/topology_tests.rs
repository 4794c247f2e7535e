use cache_proxy::client::{ETCDClient, MetaClient, MetaError};
use cache_proxy::config::{Config, MetaType};
use cache_proxy::manager::{diff_topology, CacheProxyManager, ProxyTopology};
use cache_proxy::node::{Node, NodeList};
use cache_proxy::ring::HashRing;
use cache_proxy::rpc::{RPCClient, RPCRequest, RPCResponse};
use cache_proxy::slot::{Slot, SlotMapping};

#[test]
fn test_mapping_slot() {
    let mut slot = Slot::new(3, 9);
    assert_eq!(slot.id(), 3);
    assert_eq!(slot.backend_node_id(), 9);
    assert!(!slot.is_migrating());

    slot.set_migrating(true);
    assert!(slot.is_migrating());
    slot.set_backend_node_id(4);
    assert_eq!(slot.backend_node_id(), 4);
    assert_eq!(slot.id(), 3);
}

#[test]
fn test_slot_mapping_default() {
    let mapping = SlotMapping::default();
    let slots = mapping.inner();
    assert_eq!(slots.len(), 1024);
    for (i, s) in slots.iter().enumerate() {
        assert_eq!(s.id(), i as u64);
        assert_eq!(s.backend_node_id(), 0);
        assert!(!s.is_migrating());
    }

    assert_eq!(mapping.get_slot(5).unwrap().id(), 5);
    assert!(mapping.get_slot(1024).is_none());
    assert_eq!(mapping.available_slot().len(), 1024);
}

#[test]
fn test_node_list() {
    let mut list = NodeList::new();
    list.add(Node::new(1, String::from("10.0.0.1"), 7000, 1));
    list.add(Node::new(2, String::from("10.0.0.2"), 7000, 2));
    list.add(Node::new(3, String::from("10.0.0.3"), 7001, 1));

    assert_eq!(list.list().len(), 3);

    let n = list.get(2).unwrap();
    assert_eq!(n.id(), 2);
    assert_eq!(n.ip(), "10.0.0.2");
    assert_eq!(n.port(), 7000);
    assert_eq!(n.weight(), 2);
    assert!(list.get(9).is_none());

    list.remove(2);
    assert_eq!(list.list().len(), 2);
    assert!(list.get(2).is_none());
    assert_eq!(list.get(3).unwrap().id(), 3);
}

#[test]
fn test_config() {
    let config = Config::new(
        1024,
        "etcd",
        vec![String::from("127.0.0.1:2379")],
        5,
        String::from("0.0.0.0"),
        9000,
    );
    assert_eq!(config.slot_size(), 1024);
    assert_eq!(config.time_period(), 5);
    assert_eq!(config.meta_endpoints().len(), 1);
    assert_eq!(config.meta_type, MetaType::ETCD);
}

#[test]
fn test_meta_type() {
    assert_eq!(MetaType::from_string("etcd"), MetaType::ETCD);
    assert_eq!(MetaType::from_string("redis"), MetaType::Redis);
    assert_eq!(MetaType::ETCD.get_meta_type(), "etcd");
    assert_eq!(MetaType::Redis.get_meta_type(), "redis");
}

#[test]
fn test_hash_ring_over_mapping() {
    let mapping = SlotMapping::default();
    let ring = HashRing::new(mapping.inner());
    assert_eq!(ring.version(), 0);

    // A non-empty ring answers with one of its slots.
    let slot = ring.get_slot("some-key").unwrap();
    assert!(slot.id() < 1024);
    assert_eq!(slot.backend_node_id(), 0);

    // An empty ring answers with nothing.
    let empty = HashRing::new(Vec::new());
    assert!(empty.get_slot("some-key").is_none());

    // A single-slot ring must answer with exactly that slot.
    let only = HashRing::new(vec![Slot::new(42, 7)]);
    let hit = only.get_slot("another-key").unwrap();
    assert_eq!(hit.id(), 42);
    assert_eq!(hit.backend_node_id(), 7);
}

#[test]
fn test_diff_topology() {
    let local: Vec<u64> = vec![1, 2, 3];
    let remote: Vec<u64> = vec![2, 3, 4, 5];
    let (to_add, to_remove) = diff_topology(&local, &remote);
    assert_eq!(to_add, vec![4, 5]);
    assert_eq!(to_remove, vec![1]);

    let (none_add, none_remove) = diff_topology(&remote, &remote);
    assert!(none_add.is_empty());
    assert!(none_remove.is_empty());
}

/// A metadata client whose store is gone: every operation reports the
/// failure kind it was built with.
struct FailingMetaClient {
    error: MetaError,
}

impl MetaClient for FailingMetaClient {
    fn create(&self, _path: &str, _data: &[u8]) -> Result<(), MetaError> {
        Err(self.error)
    }

    fn update(&self, _path: &str, _data: &[u8]) -> Result<(), MetaError> {
        Err(self.error)
    }

    fn delete(&self, _path: &str) -> Result<(), MetaError> {
        Err(self.error)
    }

    fn read(&self, _path: &str, _must: bool) -> Result<Vec<u8>, MetaError> {
        Err(self.error)
    }

    fn list(&self, _path: &str, _must: bool) -> Result<Vec<String>, MetaError> {
        Err(self.error)
    }

    fn close(&self) -> Result<(), MetaError> {
        Ok(())
    }
}

#[test]
fn test_meta_errors_surface() {
    for error in [
        MetaError::NotFound,
        MetaError::Conflict,
        MetaError::Unavailable,
        MetaError::Timeout,
    ] {
        let client = FailingMetaClient { error };
        assert_eq!(client.read("/ring", true).unwrap_err(), error);
        assert_eq!(client.create("/nodes/1", b"x").unwrap_err(), error);
        assert_eq!(client.close(), Ok(()));
    }
}

#[test]
fn test_manager() {
    let config = Config::new(
        1024,
        "etcd",
        vec![String::from("127.0.0.1:2379")],
        5,
        String::from("0.0.0.0"),
        9000,
    );
    let client = FailingMetaClient { error: MetaError::Unavailable };
    let manager = CacheProxyManager::new(config, client);

    assert_eq!(manager.inner().slot_size(), 1024);
    assert_eq!(manager.inner().nodes().list().len(), 0);
    assert_eq!(manager.config().slot_size(), 1024);
    assert!(manager.allocate_free_slot().is_ok());
    assert!(manager.rebalancing().is_ok());
    assert!(manager.client().read("/ring", true).is_err());
}

#[test]
fn test_topology_update() {
    let config = Config::new(
        1024,
        "etcd",
        vec![String::from("127.0.0.1:2379")],
        5,
        String::from("0.0.0.0"),
        9000,
    );
    let mut topology = ProxyTopology::new(&config);
    assert_eq!(topology.slot_mapping().inner().len(), 1024);
    assert_eq!(topology.hash_ring().version(), 0);

    let mut nodes = NodeList::new();
    nodes.add(Node::new(1, String::from("10.0.0.1"), 7000, 1));
    assert!(topology.init(SlotMapping::default(), nodes).is_ok());
    assert_eq!(topology.nodes().list().len(), 1);
}

#[test]
fn test_meta_client_handle() {
    let client = new_meta_client_handle();
    assert_eq!(client.endpoints.len(), 2);
}

fn new_meta_client_handle() -> ETCDClient {
    cache_proxy::client::new_meta_client(vec![
        String::from("127.0.0.1:2379"),
        String::from("127.0.0.2:2379"),
    ])
}

#[test]
fn test_rpc_types() {
    let request = RPCRequest { id: 1, header: 2, body: Some(vec![1, 2, 3]) };
    let response = RPCResponse { id: 1, header: 2, msg: None, body: Some(vec![4]) };
    assert_eq!(request.id, response.id);
    assert_eq!(request.body.unwrap().len(), 3);
    assert!(response.msg.is_none());

    let client = RPCClient::new(String::from("127.0.0.1"), 9000, 30);
    assert_eq!(client.server_ip, "127.0.0.1");
    assert_eq!(client.server_port, 9000);
    assert_eq!(client.timeout, 30);
    assert!(!client.close);
}
