//! Vector clocks, envelopes and their canonical byte form.

use deepnet_core::identity::NodeId;
use deepnet_core::message::{DataLayer, MessageEnvelope, MessagePayload, VectorClock};

#[test]
fn test_vector_clock_increment() {
    let node1 = NodeId::from_bytes([1; 32]);
    let mut clock = VectorClock::new();

    clock.increment(node1);
    assert_eq!(clock.get(&node1), 1);

    clock.increment(node1);
    assert_eq!(clock.get(&node1), 2);
}

#[test]
fn test_vector_clock_merge() {
    let node1 = NodeId::from_bytes([1; 32]);
    let node2 = NodeId::from_bytes([2; 32]);

    let mut clock1 = VectorClock::new();
    clock1.increment(node1);
    clock1.increment(node1);

    let mut clock2 = VectorClock::new();
    clock2.increment(node2);
    clock2.increment(node2);
    clock2.increment(node2);

    clock1.merge(&clock2);

    assert_eq!(clock1.get(&node1), 2);
    assert_eq!(clock1.get(&node2), 3);
}

#[test]
fn test_happened_before() {
    let node1 = NodeId::from_bytes([1; 32]);

    let mut clock1 = VectorClock::new();
    clock1.increment(node1);

    let mut clock2 = VectorClock::new();
    clock2.increment(node1);
    clock2.increment(node1);

    assert!(clock1.happened_before(&clock2));
    assert!(!clock2.happened_before(&clock1));
}

#[test]
fn test_concurrent_clocks() {
    let node1 = NodeId::from_bytes([1; 32]);
    let node2 = NodeId::from_bytes([2; 32]);

    let mut clock1 = VectorClock::new();
    clock1.increment(node1);

    let mut clock2 = VectorClock::new();
    clock2.increment(node2);

    assert!(clock1.is_concurrent(&clock2));
}

#[test]
fn test_message_envelope_serialization() {
    let origin = NodeId::from_bytes([1; 32]);
    let clock = VectorClock::new();

    let msg = MessageEnvelope::broadcast(origin, clock, "Hello, mesh!".to_string(), None);

    let bytes = msg.to_bytes();
    let restored = MessageEnvelope::from_bytes(&bytes).unwrap();

    assert_eq!(msg.id.0, restored.id.0);
    assert_eq!(msg.origin, restored.origin);
}

#[test]
fn envelope_round_trip_preserves_fields() {
    let origin = NodeId::from_bytes([7; 32]);
    let recipient = NodeId::from_bytes([9; 32]);
    let mut clock = VectorClock::new();
    clock.increment(origin);
    clock.increment(recipient);

    let msg = MessageEnvelope::direct_message(
        origin,
        clock,
        recipient,
        b"hello there".to_vec(),
        true,
    );
    let bytes = msg.to_bytes();
    let restored = MessageEnvelope::from_bytes(&bytes).unwrap();

    assert_eq!(msg.id, restored.id);
    assert_eq!(msg.origin, restored.origin);
    assert_eq!(msg.layer, restored.layer);
    assert_eq!(msg.ttl, restored.ttl);
    assert_eq!(msg.timestamp, restored.timestamp);
    assert_eq!(restored.clock.get(&origin), 1);
    assert_eq!(restored.clock.get(&recipient), 1);
    match restored.payload {
        MessagePayload::DirectMessage(dm) => {
            assert_eq!(dm.to, recipient);
            assert_eq!(dm.content, b"hello there".to_vec());
            assert!(dm.encrypted);
            assert!(dm.thread_id.is_none());
        },
        _ => panic!("payload variant changed in transit"),
    }
}

#[test]
fn federated_envelope_with_zero_ttl_never_forwards() {
    let origin = NodeId::from_bytes([3; 32]);
    let mut msg = MessageEnvelope::broadcast(
        origin,
        VectorClock::new(),
        "fading".to_string(),
        None,
    );
    msg.ttl = 0;
    assert_eq!(msg.layer, DataLayer::Federated);
    assert!(!msg.should_forward());
    assert!(!msg.decrement_ttl());
    assert_eq!(msg.ttl, 0);
}

#[test]
fn default_ttl_follows_layer() {
    let origin = NodeId::from_bytes([4; 32]);
    let broadcast = MessageEnvelope::broadcast(
        origin,
        VectorClock::new(),
        "wide".to_string(),
        Some("general".to_string()),
    );
    assert_eq!(broadcast.ttl, 3);
    let dm = MessageEnvelope::direct_message(
        origin,
        VectorClock::new(),
        NodeId::from_bytes([5; 32]),
        b"x".to_vec(),
        false,
    );
    assert_eq!(dm.ttl, 1);
    assert_eq!(dm.layer, DataLayer::Shared);
}

#[test]
fn corrupted_envelope_bytes_are_rejected() {
    let origin = NodeId::from_bytes([6; 32]);
    let msg = MessageEnvelope::broadcast(origin, VectorClock::new(), "ok".to_string(), None);
    let mut bytes = msg.to_bytes();
    bytes.truncate(bytes.len() - 1);
    assert!(MessageEnvelope::from_bytes(&bytes).is_none());
}
