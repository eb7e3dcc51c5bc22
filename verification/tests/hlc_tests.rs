//! Behavior of the hybrid logical clock against the wall clock.

use deepnet_core::hlc::{HlcTimestamp, HybridClock, MAX_DRIFT_US};

fn now_microseconds() -> u64 {
    std::time::SystemTime::now()
        .duration_since(std::time::UNIX_EPOCH)
        .map(|d| d.as_micros() as u64)
        .unwrap_or(0)
}

#[test]
fn test_tick_monotonic() {
    let mut clock = HybridClock::new(1);

    let t1 = clock.tick();
    let t2 = clock.tick();
    let t3 = clock.tick();

    assert!(t2 > t1, "t2 should be after t1");
    assert!(t3 > t2, "t3 should be after t2");
}

#[test]
fn test_tick_same_microsecond_increments_counter() {
    let mut clock = HybridClock::new(1);

    let t1 = clock.tick();
    let t2 = clock.tick();

    if t2.physical_time_us == t1.physical_time_us {
        assert!(
            t2.counter > t1.counter,
            "counter should increment when physical time hasn't advanced"
        );
    }
    assert!(t2 > t1);
}

#[test]
fn test_receive_advances_past_remote() {
    let mut clock_a = HybridClock::new(1);
    let mut clock_b = HybridClock::new(2);

    let t_a = clock_a.tick();
    let t_b = clock_b.receive(&t_a).unwrap();

    assert!(t_b > t_a, "receive should produce timestamp > remote");
}

#[test]
fn test_receive_rejects_excessive_drift() {
    let mut clock = HybridClock::new(1);

    let far_future = HlcTimestamp {
        physical_time_us: now_microseconds() + MAX_DRIFT_US + 1_000_000,
        counter: 0,
        node_id: 99,
    };

    let result = clock.receive(&far_future);
    assert!(result.is_err(), "should reject timestamps beyond drift bound");
}

#[test]
fn test_receive_accepts_within_drift() {
    let mut clock = HybridClock::new(1);

    let near_future = HlcTimestamp {
        physical_time_us: now_microseconds() + MAX_DRIFT_US - 1_000_000,
        counter: 0,
        node_id: 99,
    };

    let result = clock.receive(&near_future);
    assert!(result.is_ok(), "should accept timestamps within drift bound");
}

#[test]
fn test_causal_ordering_two_nodes() {
    let mut clock_a = HybridClock::new(1);
    let mut clock_b = HybridClock::new(2);

    let t1 = clock_a.tick();

    let _ = clock_b.receive(&t1).unwrap();
    let t2 = clock_b.tick();

    let _ = clock_a.receive(&t2).unwrap();
    let t3 = clock_a.tick();

    assert!(t2 > t1, "t2 should be causally after t1");
    assert!(t3 > t2, "t3 should be causally after t2");
}

#[test]
fn test_timestamp_serialization_roundtrip() {
    let ts = HlcTimestamp {
        physical_time_us: 1_708_000_000_000_000,
        counter: 42,
        node_id: 0xDEAD_BEEF_CAFE_BABE,
    };

    let bytes = ts.to_bytes();
    assert_eq!(bytes.len(), 20);
    let recovered = HlcTimestamp::from_bytes(&bytes);

    assert_eq!(ts, recovered);
}

#[test]
fn test_timestamp_ordering() {
    let a = HlcTimestamp { physical_time_us: 100, counter: 5, node_id: 1 };
    let b = HlcTimestamp { physical_time_us: 100, counter: 5, node_id: 2 };
    let c = HlcTimestamp { physical_time_us: 100, counter: 6, node_id: 1 };
    let d = HlcTimestamp { physical_time_us: 101, counter: 0, node_id: 1 };

    assert!(a < b, "same time/counter, higher node_id wins");
    assert!(a < c, "same time, higher counter wins");
    assert!(c < d, "higher physical time wins regardless of counter");
}

#[test]
fn test_node_id_from_pubkey() {
    let mut pubkey = [0u8; 32];
    pubkey[0..8].copy_from_slice(&42u64.to_le_bytes());

    assert_eq!(HybridClock::node_id_from_pubkey(&pubkey), 42);
}

#[test]
fn hlc_test_display() {
    let ts = HlcTimestamp { physical_time_us: 1000000, counter: 3, node_id: 0xFF };
    let s = ts.display_string();
    assert!(s.contains("1000000"));
    assert!(s.contains(":3:"));
}

#[test]
fn receive_at_exact_drift_bound_succeeds() {
    let mut clock = HybridClock::new(1);
    let now = 5_000_000_000u64;
    let remote = HlcTimestamp { physical_time_us: now + MAX_DRIFT_US, counter: 0, node_id: 99 };
    assert!(clock.receive_at(&remote, now).is_ok());
}

#[test]
fn receive_at_one_past_drift_bound_fails_unchanged() {
    let mut clock = HybridClock::new(1);
    let before = clock.now();
    let now = 5_000_000_000u64;
    let remote = HlcTimestamp {
        physical_time_us: now + MAX_DRIFT_US + 1,
        counter: 0,
        node_id: 99,
    };
    let err = clock.receive_at(&remote, now).unwrap_err();
    assert_eq!(err.local_time_us, now);
    assert_eq!(err.max_drift_us, MAX_DRIFT_US);
    assert_eq!(clock.now(), before);
    let after = clock.tick_at(now);
    assert!(after.physical_time_us >= now);
    assert!(after.counter == 0 || after.counter == 1);
    assert_eq!(after.node_id, 1);
}
