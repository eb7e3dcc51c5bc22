//! Signing, verification and content addressing of federation events.

use base64::Engine;
use deepnet_core::crypto::{content_hash, SignedEvent, SignedEventError, TeambookIdentity};
use deepnet_core::hex;

#[test]
fn crypto_test_sign_and_verify() {
    let identity = TeambookIdentity::generate();
    let event_bytes = b"test event data for signing".to_vec();

    let signed = SignedEvent::sign(event_bytes.clone(), &identity);

    assert!(signed.verify().is_ok());
    assert_eq!(signed.content_id, content_hash(&event_bytes));
}

#[test]
fn test_tampered_bytes_fail_verification() {
    let identity = TeambookIdentity::generate();
    let event_bytes = b"original event data".to_vec();

    let mut signed = SignedEvent::sign(event_bytes, &identity);

    signed.event_bytes[0] ^= 0xFF;

    assert_eq!(signed.verify(), Err(SignedEventError::ContentHashMismatch));
}

#[test]
fn test_wrong_key_fails_verification() {
    let identity_a = TeambookIdentity::generate();
    let identity_b = TeambookIdentity::generate();
    let event_bytes = b"event from teambook A".to_vec();

    let mut signed = SignedEvent::sign(event_bytes, &identity_a);

    signed.origin_pubkey = identity_b.public_key();

    assert_eq!(signed.verify(), Err(SignedEventError::InvalidSignature));
}

#[test]
fn test_content_hash_deterministic() {
    let data = b"identical event bytes";
    let hash1 = content_hash(data);
    let hash2 = content_hash(data);
    assert_eq!(hash1, hash2);
}

#[test]
fn test_content_hash_different_data() {
    let hash1 = content_hash(b"event A");
    let hash2 = content_hash(b"event B");
    assert_ne!(hash1, hash2);
}

#[test]
fn test_signed_event_serialization_roundtrip() {
    let identity = TeambookIdentity::generate();
    let event_bytes = b"serializable event".to_vec();

    let signed = SignedEvent::sign(event_bytes, &identity);

    // The wire form: event bytes in base64, keys and hashes in hex.
    let b64 = base64::engine::general_purpose::STANDARD;
    let mut obj = serde_json::Map::new();
    obj.insert(
        "event_bytes".to_string(),
        serde_json::Value::String(b64.encode(&signed.event_bytes)),
    );
    obj.insert(
        "origin_pubkey".to_string(),
        serde_json::Value::String(signed.origin_pubkey_hex()),
    );
    obj.insert(
        "signature".to_string(),
        serde_json::Value::String(hex::encode(&signed.signature)),
    );
    obj.insert(
        "content_id".to_string(),
        serde_json::Value::String(signed.content_id_hex()),
    );
    let json = serde_json::to_string(&serde_json::Value::Object(obj)).unwrap();

    let value: serde_json::Value = serde_json::from_str(&json).unwrap();
    let event_bytes = b64
        .decode(value["event_bytes"].as_str().unwrap())
        .unwrap();
    let origin_vec = hex::decode(value["origin_pubkey"].as_str().unwrap()).unwrap();
    let signature_vec = hex::decode(value["signature"].as_str().unwrap()).unwrap();
    let content_vec = hex::decode(value["content_id"].as_str().unwrap()).unwrap();
    let deserialized = SignedEvent {
        event_bytes,
        origin_pubkey: origin_vec.try_into().unwrap(),
        signature: signature_vec.try_into().unwrap(),
        content_id: content_vec.try_into().unwrap(),
    };

    assert!(deserialized.verify().is_ok());
    assert_eq!(signed.content_id, deserialized.content_id);
    assert_eq!(signed.origin_pubkey, deserialized.origin_pubkey);
    assert_eq!(signed.event_bytes, deserialized.event_bytes);
}

#[test]
fn test_short_id() {
    let identity = TeambookIdentity::generate();
    let short = identity.short_id();
    assert_eq!(short.len(), 8);
    assert!(short.chars().all(|c| c.is_ascii_hexdigit()));
}

#[test]
fn hex_round_trip_and_rejects() {
    let bytes = vec![0u8, 15, 16, 255, 171];
    let text = hex::encode(&bytes);
    assert_eq!(text, "000f10ffab");
    assert_eq!(hex::decode(&text).unwrap(), bytes);
    assert!(hex::decode("abc").is_err());
    assert!(hex::decode("zz").is_err());
    assert_eq!(hex::decode("ABCDEF").unwrap(), vec![0xAB, 0xCD, 0xEF]);
}
