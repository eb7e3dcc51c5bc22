//! Core of a sovereign peer-to-peer mesh for communicating nodes.
//!
//! Each node owns a long-lived Ed25519 keypair (its identity), stamps events
//! with a hybrid logical clock and per-origin vector clocks, exchanges signed
//! content-addressed events with registered peers, and converges shared state
//! through grow-only CRDTs.

use vstd::prelude::*;

pub mod bytesutil;
pub mod codec;
pub mod crdt;
pub mod discovery;
pub mod engine;
pub mod federation;
pub mod fedsync;
pub mod hex;
pub mod crypto;
pub mod hlc;
pub mod identity;
pub mod localstore;
pub mod mesh;
pub mod message;
pub mod profile;
pub mod transport;
pub mod vclock;

verus! {

/// Protocol version advertised in node manifests.
pub const PROTOCOL_VERSION: u32 = 1;

/// Default number of gossip hops for federated messages.
pub const DEFAULT_GOSSIP_TTL: u8 = 3;

} // verus!
