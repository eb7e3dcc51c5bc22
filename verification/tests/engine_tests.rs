//! The sync engine's deduplication, queues and CRDTs.

use deepnet_core::crdt::{GCounter, LwwRegister};
use deepnet_core::engine::{SyncDecision, SyncManager};
use deepnet_core::identity::NodeId;
use deepnet_core::message::{DataLayer, MessageEnvelope, VectorClock};

#[test]
fn test_sync_manager_tick() {
    let node_id = NodeId::from_bytes([1; 32]);
    let mut manager = SyncManager::new(node_id);

    let clock1 = manager.tick();
    assert_eq!(clock1.get(&node_id), 1);

    let clock2 = manager.tick();
    assert_eq!(clock2.get(&node_id), 2);
}

#[test]
fn test_sync_decision_dedup() {
    let node_id = NodeId::from_bytes([1; 32]);
    let mut manager = SyncManager::new(node_id);

    let msg = MessageEnvelope::broadcast(node_id, VectorClock::new(), "test".to_string(), None);

    let decision1 = manager.process_incoming(&msg);
    assert!(matches!(decision1, SyncDecision::Process { .. }));

    let decision2 = manager.process_incoming(&msg);
    assert_eq!(decision2, SyncDecision::AlreadySeen);
}

#[test]
fn test_gcounter() {
    let node1 = NodeId::from_bytes([1; 32]);
    let node2 = NodeId::from_bytes([2; 32]);

    let mut counter1 = GCounter::new();
    counter1.increment(node1);
    counter1.increment(node1);

    let mut counter2 = GCounter::new();
    counter2.increment(node2);
    counter2.increment(node2);
    counter2.increment(node2);

    counter1.merge(&counter2);
    assert_eq!(counter1.value(), 5);
}

#[test]
fn lww_register_later_write_wins() {
    let node1 = NodeId::from_bytes([1; 32]);
    let node2 = NodeId::from_bytes([2; 32]);

    let mut reg1 = LwwRegister::new("value1".to_string(), node1);
    let mut reg2 = LwwRegister::new("value2".to_string(), node2);
    reg2.timestamp = reg1.timestamp + 1;

    reg1.merge(&reg2);
    assert_eq!(reg1.value(), "value2");

    // A tie goes to the larger origin id.
    let mut reg3 = LwwRegister::new("a".to_string(), node1);
    let mut reg4 = LwwRegister::new("b".to_string(), node2);
    reg4.timestamp = reg3.timestamp;
    reg3.merge(&reg4);
    assert_eq!(reg3.value(), "b");
    // Merging the smaller origin back changes nothing.
    let mut reg5 = LwwRegister::new("keep".to_string(), node2);
    let mut reg6 = LwwRegister::new("lose".to_string(), node1);
    reg6.timestamp = reg5.timestamp;
    reg5.merge(&reg6);
    assert_eq!(reg5.value(), "keep");
}

#[test]
fn dedup_survives_repeats_and_forwards_federated_only() {
    let me = NodeId::from_bytes([8; 32]);
    let all_ones = NodeId::from_bytes([0xFF; 32]);
    let mut manager = SyncManager::new(me);

    let env = MessageEnvelope::broadcast(all_ones, VectorClock::new(), "test".to_string(), None);
    match manager.process_incoming(&env) {
        SyncDecision::Process { should_forward } => assert!(should_forward),
        other => panic!("first sighting not processed: {:?}", other),
    }
    assert_eq!(manager.process_incoming(&env), SyncDecision::AlreadySeen);

    // A private message is processed but never forwarded.
    let quiet = MessageEnvelope::new(
        me,
        VectorClock::new(),
        DataLayer::Private,
        deepnet_core::message::MessagePayload::Ping { nonce: 1 },
    );
    match manager.process_incoming(&quiet) {
        SyncDecision::Process { should_forward } => assert!(!should_forward),
        other => panic!("fresh message not processed: {:?}", other),
    }
}

#[test]
fn prepare_outbound_stamps_and_queues() {
    let me = NodeId::from_bytes([1; 32]);
    let peer = NodeId::from_bytes([2; 32]);
    let mut manager = SyncManager::new(me);

    let mut fed = MessageEnvelope::broadcast(peer, VectorClock::new(), "wide".to_string(), None);
    fed.ttl = 0;
    let stamped = manager.prepare_outbound(fed);
    assert_eq!(stamped.origin, me);
    assert_eq!(stamped.ttl, 3);
    assert_eq!(stamped.clock.get(&me), 1);
    let batch = manager.get_gossip_batch(10);
    assert_eq!(batch.len(), 1);
    assert!(manager.get_gossip_batch(10).is_empty());

    let dm = MessageEnvelope::direct_message(me, VectorClock::new(), peer, b"hi".to_vec(), false);
    let _ = manager.prepare_outbound(dm);
    let peer_batch = manager.get_peer_sync_batch(&peer, 5);
    assert_eq!(peer_batch.len(), 1);

    let private = MessageEnvelope::new(
        me,
        VectorClock::new(),
        DataLayer::Private,
        deepnet_core::message::MessagePayload::Ping { nonce: 9 },
    );
    let _ = manager.prepare_outbound(private);
    assert!(manager.get_gossip_batch(10).is_empty());
}

#[test]
fn whats_new_reports_missing_ranges() {
    let me = NodeId::from_bytes([1; 32]);
    let mut manager = SyncManager::new(me);
    let _ = manager.tick();
    let _ = manager.tick();
    let _ = manager.tick();

    let mut since = VectorClock::new();
    since.increment(me);

    let whats_new = manager.whats_new_since(&since);
    assert!(whats_new.has_updates());
    assert_eq!(whats_new.total_new(), 2);
    assert_eq!(whats_new.ranges.len(), 1);
    let (node, from, to) = whats_new.ranges[0];
    assert_eq!(node, me);
    assert_eq!(from, 2);
    assert_eq!(to, 3);
}

#[test]
fn vector_clock_merge_laws_on_values() {
    let a_node = NodeId::from_bytes([1; 32]);
    let b_node = NodeId::from_bytes([2; 32]);
    let mut a = VectorClock::new();
    a.increment(a_node);
    a.increment(a_node);
    let mut b = VectorClock::new();
    b.increment(b_node);

    // Idempotent: merging a copy of itself changes nothing observable.
    let mut aa = a.clone();
    aa.merge(&a);
    assert_eq!(aa.get(&a_node), a.get(&a_node));
    assert_eq!(aa.get(&b_node), a.get(&b_node));

    // Commutative and associative at every key.
    let mut ab = a.clone();
    ab.merge(&b);
    let mut ba = b.clone();
    ba.merge(&a);
    assert_eq!(ab.get(&a_node), ba.get(&a_node));
    assert_eq!(ab.get(&b_node), ba.get(&b_node));

    let mut c = VectorClock::new();
    c.increment(a_node);
    let mut ab_c = ab.clone();
    ab_c.merge(&c);
    let mut bc = b.clone();
    bc.merge(&c);
    let mut a_bc = a.clone();
    a_bc.merge(&bc);
    assert_eq!(ab_c.get(&a_node), a_bc.get(&a_node));
    assert_eq!(ab_c.get(&b_node), a_bc.get(&b_node));
}
