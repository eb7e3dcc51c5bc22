//! Peer registration and the push pipeline.

use deepnet_core::crypto::{SignedEvent, TeambookIdentity};
use deepnet_core::federation::{FederationState, PeerRegistrationRequest};
use deepnet_core::fedsync::{process_push, EventPushRequest, SyncRejectReason};
use deepnet_core::hex;
use deepnet_core::hlc::HlcTimestamp;

fn fresh_state(name: &str, endpoint: &str) -> FederationState {
    FederationState::init(
        TeambookIdentity::generate(),
        name.to_string(),
        endpoint.to_string(),
        Vec::new(),
    )
}

fn register_sender(federation: &mut FederationState, sender: &TeambookIdentity, nonce: &str) {
    let req = PeerRegistrationRequest {
        public_key: sender.public_key(),
        display_name: "sender".to_string(),
        endpoint: "http://localhost:8081".to_string(),
        challenge_nonce: nonce.to_string(),
        challenge_signature: hex::encode(&sender.sign(nonce.as_bytes())),
    };
    let resp = federation.handle_registration(&req);
    assert!(resp.accepted);
}

#[test]
fn test_registration_roundtrip() {
    let mut state_a = fresh_state("teambook-a", "http://localhost:8080");
    let mut state_b = fresh_state("teambook-b", "http://localhost:8081");

    let req = state_a.build_registration_request();

    let resp = state_b.handle_registration(&req);
    assert!(resp.accepted);

    let result = state_a.handle_registration_response(&resp);
    assert!(result.is_ok());

    assert!(state_a.is_known_peer(&state_b.identity.public_key()));
    assert!(state_b.is_known_peer(&state_a.identity.public_key()));
}

#[test]
fn test_event_dedup() {
    let mut state = fresh_state("test", "http://localhost:8080");

    let hash = "abc123def456".to_string();

    assert!(state.is_new_event(&hash));
    state.mark_event_seen(hash.clone());
    assert!(!state.is_new_event(&hash));
}

#[test]
fn test_federation_status() {
    let state = fresh_state("my-teambook", "http://localhost:8080");

    let status = state.status();
    assert_eq!(status.display_name, "my-teambook");
    assert_eq!(status.endpoint, "http://localhost:8080");
    assert_eq!(status.pubkey.len(), 64);
    assert!(status.pubkey.chars().all(|c| c.is_ascii_hexdigit()));
    assert_eq!(status.short_id, &status.pubkey[..8]);
}

#[test]
fn test_process_push_valid_event() {
    let mut federation = fresh_state("receiver", "http://localhost:8080");

    let sender = TeambookIdentity::generate();
    register_sender(&mut federation, &sender, "test-nonce");

    let event = SignedEvent::sign(b"test event data".to_vec(), &sender);

    let push_req = EventPushRequest {
        events: vec![event],
        sender_hlc: HlcTimestamp::zero(42),
        sender_head_seq: 1,
    };

    let resp = process_push(&mut federation, &push_req);

    assert_eq!(resp.accepted, 1);
    assert_eq!(resp.rejected, 0);
    assert_eq!(resp.duplicates, 0);
}

#[test]
fn test_process_push_duplicate_event() {
    let mut federation = fresh_state("receiver", "http://localhost:8080");

    let sender = TeambookIdentity::generate();
    register_sender(&mut federation, &sender, "nonce");

    let event = SignedEvent::sign(b"event data".to_vec(), &sender);

    let push_req = EventPushRequest {
        events: vec![event.clone(), event],
        sender_hlc: HlcTimestamp::zero(42),
        sender_head_seq: 1,
    };

    let resp = process_push(&mut federation, &push_req);

    assert_eq!(resp.accepted, 1);
    assert_eq!(resp.duplicates, 1);
}

#[test]
fn test_process_push_unknown_peer() {
    let mut federation = fresh_state("receiver", "http://localhost:8080");

    let unknown = TeambookIdentity::generate();
    let event = SignedEvent::sign(b"suspicious data".to_vec(), &unknown);

    let push_req = EventPushRequest {
        events: vec![event],
        sender_hlc: HlcTimestamp::zero(99),
        sender_head_seq: 1,
    };

    let resp = process_push(&mut federation, &push_req);

    assert_eq!(resp.accepted, 0);
    assert_eq!(resp.rejected, 1);
    assert_eq!(resp.errors[0].reason, SyncRejectReason::UnknownPeer);
}

#[test]
fn test_process_push_tampered_event() {
    let mut federation = fresh_state("receiver", "http://localhost:8080");

    let sender = TeambookIdentity::generate();
    register_sender(&mut federation, &sender, "n");

    let mut event = SignedEvent::sign(b"original data".to_vec(), &sender);
    event.event_bytes[0] ^= 0xFF;

    let push_req = EventPushRequest {
        events: vec![event],
        sender_hlc: HlcTimestamp::zero(42),
        sender_head_seq: 1,
    };

    let resp = process_push(&mut federation, &push_req);

    assert_eq!(resp.accepted, 0);
    assert_eq!(resp.rejected, 1);
    assert_eq!(resp.errors[0].reason, SyncRejectReason::ContentHashMismatch);
}

#[test]
fn push_mixed_batch_counts_each_event_separately() {
    let mut federation = fresh_state("receiver", "http://localhost:8080");
    let sender = TeambookIdentity::generate();
    register_sender(&mut federation, &sender, "mix");

    let good = SignedEvent::sign(b"test event data".to_vec(), &sender);
    let mut bad = SignedEvent::sign(b"original data".to_vec(), &sender);
    bad.event_bytes[0] ^= 0xFF;

    let resp = process_push(
        &mut federation,
        &EventPushRequest {
            events: vec![good.clone(), bad],
            sender_hlc: HlcTimestamp::zero(7),
            sender_head_seq: 2,
        },
    );
    assert_eq!(resp.accepted, 1);
    assert_eq!(resp.rejected, 1);
    assert_eq!(resp.duplicates, 0);
    assert_eq!(resp.errors[0].reason, SyncRejectReason::ContentHashMismatch);

    // Resubmitting the accepted event twice: one duplicate from the cache,
    // and the second copy duplicates the first within the batch.
    let resp2 = process_push(
        &mut federation,
        &EventPushRequest {
            events: vec![good.clone(), good],
            sender_hlc: HlcTimestamp::zero(7),
            sender_head_seq: 2,
        },
    );
    assert_eq!(resp2.accepted, 0);
    assert_eq!(resp2.duplicates, 2);
    assert_eq!(resp2.rejected, 0);
}

#[test]
fn removed_peers_leave_the_fanout() {
    let mut federation = fresh_state("hub", "http://localhost:8080");
    let keep = TeambookIdentity::generate();
    let drop_peer = TeambookIdentity::generate();
    register_sender(&mut federation, &keep, "k");
    register_sender(&mut federation, &drop_peer, "d");

    let drop_hex = hex::encode(&drop_peer.public_key());
    assert!(federation.remove_peer(&drop_hex));

    let fanout = deepnet_core::fedsync::fanout_peers(&federation);
    assert_eq!(fanout.len(), 1);
    assert_eq!(fanout[0].public_key, keep.public_key());
    assert!(!federation.is_known_peer(&drop_peer.public_key()));
}

#[test]
fn empty_event_bytes_are_malformed() {
    let mut federation = fresh_state("receiver", "http://localhost:8080");
    let sender = TeambookIdentity::generate();
    register_sender(&mut federation, &sender, "e");
    let empty = SignedEvent::sign(Vec::new(), &sender);
    let resp = process_push(
        &mut federation,
        &EventPushRequest {
            events: vec![empty],
            sender_hlc: HlcTimestamp::zero(1),
            sender_head_seq: 0,
        },
    );
    assert_eq!(resp.rejected, 1);
    assert_eq!(resp.errors[0].reason, SyncRejectReason::MalformedEvent);
}

#[test]
fn registration_rejects_bad_signature_text() {
    let mut federation = fresh_state("receiver", "http://localhost:8080");
    let sender = TeambookIdentity::generate();
    let req = PeerRegistrationRequest {
        public_key: sender.public_key(),
        display_name: "sender".to_string(),
        endpoint: "http://localhost:8081".to_string(),
        challenge_nonce: "nonce".to_string(),
        challenge_signature: "not-hex".to_string(),
    };
    let resp = federation.handle_registration(&req);
    assert!(!resp.accepted);
    assert_eq!(resp.reason.as_deref(), Some("invalid challenge signature format"));
}

#[test]
fn registration_rejects_wrong_key_signature() {
    let mut federation = fresh_state("receiver", "http://localhost:8080");
    let sender = TeambookIdentity::generate();
    let other = TeambookIdentity::generate();
    let req = PeerRegistrationRequest {
        public_key: sender.public_key(),
        display_name: "sender".to_string(),
        endpoint: "http://localhost:8081".to_string(),
        challenge_nonce: "nonce".to_string(),
        challenge_signature: hex::encode(&other.sign(b"nonce")),
    };
    let resp = federation.handle_registration(&req);
    assert!(!resp.accepted);
    assert_eq!(
        resp.reason.as_deref(),
        Some("challenge signature verification failed")
    );
}

#[test]
fn registration_enforces_peer_limit() {
    let mut federation = fresh_state("receiver", "http://localhost:8080");
    let mut policy = federation.policy();
    policy.max_peers = 1;
    federation.set_policy(policy);

    let first = TeambookIdentity::generate();
    register_sender(&mut federation, &first, "a");

    let second = TeambookIdentity::generate();
    let req = PeerRegistrationRequest {
        public_key: second.public_key(),
        display_name: "second".to_string(),
        endpoint: "http://localhost:8082".to_string(),
        challenge_nonce: "b".to_string(),
        challenge_signature: hex::encode(&second.sign(b"b")),
    };
    let resp = federation.handle_registration(&req);
    assert!(!resp.accepted);
    assert_eq!(resp.reason.as_deref(), Some("peer limit reached (1/1)"));
}

#[test]
fn identity_export_import_preserves_node_and_rejects_tampering() {
    let identity = deepnet_core::identity::NodeIdentity::generate("Carrier".to_string());
    let bytes = identity.to_bytes();
    let restored = deepnet_core::identity::NodeIdentity::from_bytes(&bytes).unwrap();
    assert_eq!(identity.node_id(), restored.node_id());
    assert_eq!(identity.manifest.display_name, restored.manifest.display_name);

    // Tampering with the embedded manifest's node id must fail key matching.
    let mut tampered = bytes.clone();
    tampered[32] ^= 0xFF;
    match deepnet_core::identity::NodeIdentity::from_bytes(&tampered) {
        Err(deepnet_core::identity::IdentityError::KeyMismatch) => {},
        Err(deepnet_core::identity::IdentityError::DeserializationFailed) => {},
        other => panic!("tampered import unexpectedly gave {:?}", other.is_ok()),
    }
}
