//! The mobile layer: the local store, identities, discovery records and the
//! transport model.

use deepnet_core::discovery::{DiscoveredNode, DiscoveryType, StaticDiscovery};
use deepnet_core::identity::{verify_signature, NodeId, NodeIdentity};
use deepnet_core::localstore::LocalStore;
use deepnet_core::mesh::{federation_status, ConnectionStatus, DeepNetState};
use deepnet_core::transport::{BandwidthTier, NodeAddress, TransportType};
use deepnet_core::message::{DataLayer, VectorClock};

#[test]
fn test_exports() {
    let _: NodeId = NodeId::from_bytes([0; 32]);
    let _: VectorClock = VectorClock::new();
    let _: DataLayer = DataLayer::Federated;
}

#[test]
fn test_identity_generation() {
    let identity = NodeIdentity::generate("TestNode".to_string());
    assert_eq!(identity.manifest.display_name, "TestNode");
    assert!(!identity.manifest.capabilities.is_empty());
}

#[test]
fn identity_test_sign_and_verify() {
    let identity = NodeIdentity::generate("Signer".to_string());
    let message = b"Hello, Deep Net!";

    let signature = identity.sign(message);
    assert!(verify_signature(&identity.node_id(), message, &signature).is_ok());
}

#[test]
fn identity_test_serialization_roundtrip() {
    let identity = NodeIdentity::generate("Serializable".to_string());
    let bytes = identity.to_bytes();
    let restored = NodeIdentity::from_bytes(&bytes).unwrap();

    assert_eq!(identity.node_id(), restored.node_id());
    assert_eq!(identity.manifest.display_name, restored.manifest.display_name);
}

#[test]
fn test_node_id_hex() {
    let identity = NodeIdentity::generate("HexTest".to_string());
    let hex_text = identity.node_id().to_hex();
    let parsed = NodeId::from_hex(&hex_text).unwrap();

    assert_eq!(identity.node_id(), parsed);
}

#[test]
fn test_local_store_dm() {
    let mut store = LocalStore::default();

    let id = store.insert_dm("alice-101", "bob-202", "Hello Bob!");
    assert_eq!(id, 0);

    let dms = store.get_dms("bob-202", 10);
    assert_eq!(dms.len(), 1);
    assert_eq!(dms[0].from_ai, "alice-101");
    assert_eq!(dms[0].content, "Hello Bob!");
}

#[test]
fn test_local_store_broadcast() {
    let mut store = LocalStore::default();

    let id = store.insert_broadcast("alice-101", "general", "Team update!");
    assert_eq!(id, 0);

    let broadcasts = store.get_broadcasts("general", 10);
    assert_eq!(broadcasts.len(), 1);
    assert_eq!(broadcasts[0].from_ai, "alice-101");
}

#[test]
fn test_local_store_presence() {
    let mut store = LocalStore::default();

    store.update_presence("alice-101", "active", "Working on Deep Net");

    let presence = store.get_presence("alice-101").unwrap();
    assert_eq!(presence.status, "active");
}

#[test]
fn test_local_store_serialization() {
    let mut store = LocalStore::default();
    store.insert_dm("a", "b", "test");
    store.insert_broadcast("c", "general", "hello");

    let bytes = store.to_bytes();
    let restored = LocalStore::from_bytes(&bytes).unwrap();

    assert_eq!(restored.dms.len(), 1);
    assert_eq!(restored.broadcasts.len(), 1);
}

#[test]
fn local_store_dm_is_stored_for_its_recipient() {
    let mut store = LocalStore::default();
    let id = store.insert_dm("alice-101", "bob-202", "Hello Bob!");
    assert_eq!(id, 0);
    let dms = store.get_dms("bob-202", 10);
    assert_eq!(dms.len(), 1);
    assert_eq!(dms[0].from_ai, "alice-101");
    assert_eq!(dms[0].content, "Hello Bob!");
    assert!(store.get_dms("nobody", 10).is_empty());
}

#[test]
fn test_federation_status_default() {
    let state = DeepNetState::new();
    let status = federation_status(&state);
    assert!(matches!(
        status,
        ConnectionStatus::Disconnected | ConnectionStatus::Connected
    ));
}

#[test]
fn test_bandwidth_tier_ordering() {
    assert_ne!(BandwidthTier::VeryLow, BandwidthTier::VeryHigh);
}

#[test]
fn test_address_transport_type() {
    let local = NodeAddress::Local { path: "/tmp/test".to_string() };
    assert_eq!(local.transport_type(), TransportType::Local);

    let tcp = NodeAddress::Tcp { addr: "127.0.0.1:8080".to_string() };
    assert_eq!(tcp.transport_type(), TransportType::Lan);
}

#[test]
fn test_discovered_node_stale() {
    let node_id = NodeId::from_bytes([1; 32]);
    let mut node = DiscoveredNode::new(node_id, DiscoveryType::Static);

    assert!(!node.is_stale(60));

    node.last_seen -= 120;
    assert!(node.is_stale(60));
}

#[test]
fn test_discovered_node_merge() {
    let node_id = NodeId::from_bytes([1; 32]);
    let mut node1 = DiscoveredNode::new(node_id, DiscoveryType::Mdns);
    node1.addresses.push(NodeAddress::Tcp { addr: "192.168.1.1:8080".to_string() });

    let mut node2 = DiscoveredNode::new(node_id, DiscoveryType::Static);
    node2.addresses.push(NodeAddress::Tcp { addr: "192.168.1.2:8080".to_string() });
    node2.last_seen += 100;

    node1.merge(&node2);

    assert_eq!(node1.addresses.len(), 2);
    assert_eq!(node1.last_seen, node2.last_seen);
}

#[test]
fn test_static_discovery() {
    let mut discovery = StaticDiscovery::new();

    let node_id = NodeId::from_bytes([1; 32]);
    discovery.add_address(node_id, NodeAddress::Tcp { addr: "127.0.0.1:8080".to_string() });

    let nodes = discovery.discover();
    assert_eq!(nodes.len(), 1);
    assert_eq!(nodes[0].node_id, node_id);

    let resolved = discovery.resolve(&node_id);
    assert!(resolved.is_some());
}

#[test]
fn framed_recv_rejects_ten_mebibytes_plus_one() {
    let too_long: u32 = 10 * 1024 * 1024 + 1;
    let header = too_long.to_be_bytes();
    match deepnet_core::transport::read_frame_length(&header) {
        Err(deepnet_core::transport::TransportError::ProtocolError(text)) => {
            assert_eq!(text, "Message too large");
        },
        other => panic!("oversized frame unexpectedly accepted: {:?}", other.is_ok()),
    }
    let fine: u32 = 10 * 1024 * 1024;
    assert_eq!(
        deepnet_core::transport::read_frame_length(&fine.to_be_bytes()).unwrap(),
        fine as usize
    );
}

#[test]
fn framing_round_trips_small_payloads() {
    let payload = b"framed envelope bytes".to_vec();
    let framed = deepnet_core::transport::frame_message(&payload).unwrap();
    assert_eq!(framed.len(), payload.len() + 4);
    let len = deepnet_core::transport::read_frame_length(&framed[0..4]).unwrap();
    assert_eq!(len, payload.len());
    assert_eq!(&framed[4..], &payload[..]);
}

#[test]
fn mesh_connect_requires_discovery() {
    let mut mesh = deepnet_core::mesh::MeshState::new();
    let miss = deepnet_core::mesh::mesh_connect(&mut mesh, "unknown".to_string());
    assert!(!miss.success);

    mesh.discovered_peers.push((
        "abcd".to_string(),
        deepnet_core::mesh::StoredMeshPeer {
            node_id: "abcd".to_string(),
            display_name: "Peer".to_string(),
            address: "10.0.0.2:31415".to_string(),
            transport_type: "QuicLan".to_string(),
            status: "discovered".to_string(),
            latency_ms: 0,
            last_seen: 0,
            trust_level: 0,
            connection_state: 0,
            connected_at: 0,
            bytes_sent: 0,
            bytes_received: 0,
            available_transports: vec!["QuicLan".to_string()],
        },
    ));
    let hit = deepnet_core::mesh::mesh_connect(&mut mesh, "abcd".to_string());
    assert!(hit.success);
    let info = deepnet_core::mesh::mesh_get_connection_info(&mesh, "abcd").unwrap();
    assert_eq!(
        info.state,
        deepnet_core::mesh::FederationConnectionState::Connected
    );
    deepnet_core::mesh::mesh_disconnect(&mut mesh, "abcd");
    assert!(deepnet_core::mesh::mesh_get_connection_info(&mesh, "abcd").is_none());
}
