//! Federation peer management: registration, the peer registry, auth policy
//! and the seen-event cache.
//!
//! Peers are named by their Ed25519 public keys and prove key possession by
//! signing a challenge nonce during registration. Removal leaves a tombstone
//! so a key is never silently reused.

use vstd::prelude::*;
use crate::bytesutil::{bytes_eq, to_array_32, to_array_64};
use crate::crypto::{verify_signature, PeerPublicKey, TeambookIdentity};
use crate::hex::{bytes_of_hex, hex_of, is_hex_digit};
use crate::hlc::HybridClock;
use crate::identity::{os_random_bytes, sig_valid};

verus! {

/// Relies on std::time::SystemTime::now: microseconds since the UNIX epoch,
/// zero if the system clock reads before the epoch. Nothing is promised of
/// the value.
#[verifier::external_body]
pub(crate) fn now_micros() -> u64 {
    std::time::SystemTime::now()
        .duration_since(std::time::UNIX_EPOCH)
        .map(|d| d.as_micros() as u64)
        .unwrap_or(0)
}

/// The connection status of a registered peer.
#[derive(Debug, Clone, Copy, PartialEq, Eq, Structural, Hash)]
pub enum PeerStatus {
    /// Registered and recently responsive.
    Online,
    /// Registered but silent lately.
    Offline,
    /// Registration awaiting the other side's confirmation.
    PendingMutual,
    /// Explicitly removed; the tombstone stays for audit.
    Removed,
}

/// The identity tier a node can require of its peers, weakest first.
#[derive(Debug, Clone, Copy, PartialEq, Eq, PartialOrd, Ord, Structural, Hash)]
pub enum AuthTier {
    /// A keypair generated on the device.
    DeviceBound,
    /// An identity backed by an OAuth provider.
    OAuthVerified,
    /// An identity attested by hardware.
    HardwareAttested,
}

/// The federation policy of one node.
#[derive(Debug, Clone, Copy, PartialEq, Eq, Structural)]
pub struct FederationPolicy {
    /// The weakest identity tier accepted from new peers.
    pub min_auth_tier: AuthTier,
    /// Whether both sides must approve a connection.
    pub require_mutual: bool,
    /// Whether already-known keys are accepted without review.
    pub auto_accept_known: bool,
    /// The most active peers allowed; zero means unlimited.
    pub max_peers: usize,
}

impl Default for FederationPolicy {
    /// The default policy: device-bound keys, mutual registration, no
    /// auto-accept, at most ten peers.
    fn default() -> (r: FederationPolicy)
        ensures
            r.min_auth_tier == AuthTier::DeviceBound,
            r.require_mutual == true,
            r.auto_accept_known == false,
            r.max_peers == 10,
    {
        FederationPolicy {
            min_auth_tier: AuthTier::DeviceBound,
            require_mutual: true,
            auto_accept_known: false,
            max_peers: 10,
        }
    }
}

/// A registered federation peer.
#[derive(Debug)]
pub struct PeerInfo {
    /// The peer's Ed25519 public key: its identity.
    pub public_key: PeerPublicKey,
    /// The peer's chosen display name.
    pub display_name: String,
    /// The HTTP endpoint events are pushed to.
    pub endpoint: String,
    /// When the peer was registered, microseconds since the epoch.
    pub registered_at: u64,
    /// When the peer was last heard from.
    pub last_seen_at: u64,
    /// The last event sequence this peer is known to have received from us.
    pub last_synced_seq: u64,
    /// Whether this side initiated the registration.
    pub initiated_by_us: bool,
    /// The peer's connection status.
    pub status: PeerStatus,
}

/// Whether two peer records carry the same data.
pub open spec fn peer_eq(a: PeerInfo, b: PeerInfo) -> bool {
    &&& a.public_key@ == b.public_key@
    &&& a.display_name@ == b.display_name@
    &&& a.endpoint@ == b.endpoint@
    &&& a.registered_at == b.registered_at
    &&& a.last_seen_at == b.last_seen_at
    &&& a.last_synced_seq == b.last_synced_seq
    &&& a.initiated_by_us == b.initiated_by_us
    &&& a.status == b.status
}

impl Clone for PeerInfo {
    /// A copy carrying the same data.
    fn clone(&self) -> (res: PeerInfo)
        ensures
            peer_eq(res, *self),
    {
        PeerInfo {
            public_key: self.public_key,
            display_name: self.display_name.clone(),
            endpoint: self.endpoint.clone(),
            registered_at: self.registered_at,
            last_seen_at: self.last_seen_at,
            last_synced_seq: self.last_synced_seq,
            initiated_by_us: self.initiated_by_us,
            status: self.status,
        }
    }
}

impl PeerInfo {
    /// The public key as 64 hex characters.
    pub fn pubkey_hex(&self) -> (r: String)
        ensures
            r@ == hex_of(self.public_key@),
            r@.len() == 64,
    {
        crate::hex::encode(self.public_key.as_slice())
    }

    /// A short display form: the first four key bytes as 8 hex characters.
    pub fn short_id(&self) -> (r: String)
        ensures
            r@ == hex_of(self.public_key@.take(4)),
    {
        let prefix = vstd::slice::slice_subrange(self.public_key.as_slice(), 0, 4);
        proof {
            assert(self.public_key@.subrange(0, 4) =~= self.public_key@.take(4));
        }
        crate::hex::encode(prefix)
    }
}

/// Whether a peer list mentions a key.
pub open spec fn peers_has(s: Seq<PeerInfo>, key: Seq<u8>) -> bool {
    exists|i: int| 0 <= i < s.len() && (#[trigger] s[i]).public_key@ == key
}

/// The first record for a key; meaningful only when the key is present.
pub open spec fn peers_at(s: Seq<PeerInfo>, key: Seq<u8>) -> PeerInfo
    recommends
        peers_has(s, key),
    decreases s.len(),
    when s.len() > 0
{
    if s[0].public_key@ == key {
        s[0]
    } else {
        peers_at(s.drop_first(), key)
    }
}

/// Whether a peer list names each key at most once.
pub open spec fn peers_unique(s: Seq<PeerInfo>) -> bool {
    forall|i: int, j: int|
        0 <= i < j < s.len() ==> (#[trigger] s[i]).public_key@ != (#[trigger] s[j]).public_key@
}

/// Whether a key names a known peer: present and not removed.
pub open spec fn peer_known(s: Seq<PeerInfo>, key: Seq<u8>) -> bool {
    peers_has(s, key) && peers_at(s, key).status != PeerStatus::Removed
}

/// The number of active (non-removed) peers.
pub open spec fn active_count(s: Seq<PeerInfo>) -> nat
    decreases s.len(),
{
    if s.len() == 0 {
        0
    } else {
        (if s[0].status != PeerStatus::Removed {
            1nat
        } else {
            0nat
        }) + active_count(s.drop_first())
    }
}

/// With unique keys, the record at a position is the record for its key.
pub proof fn lemma_peers_at_found(s: Seq<PeerInfo>, i: int)
    requires
        peers_unique(s),
        0 <= i < s.len(),
    ensures
        peers_has(s, s[i].public_key@),
        peers_at(s, s[i].public_key@) == s[i],
    decreases s.len(),
{
    if i == 0 {
    } else {
        assert(s[0].public_key@ != s[i].public_key@);
        assert(peers_unique(s.drop_first())) by {
            assert forall|x: int, y: int|
                0 <= x < y < s.drop_first().len() implies (#[trigger] s.drop_first()[x]).public_key@
                != (#[trigger] s.drop_first()[y]).public_key@ by {
                assert(s.drop_first()[x] == s[x + 1]);
                assert(s.drop_first()[y] == s[y + 1]);
            }
        }
        assert(s.drop_first()[i - 1] == s[i]);
        lemma_peers_at_found(s.drop_first(), i - 1);
        assert(peers_has(s, s[i].public_key@));
    }
}

/// Replacing a record with one for the same key changes only that key.
pub proof fn lemma_peers_update(s: Seq<PeerInfo>, i: int, p: PeerInfo, key: Seq<u8>)
    requires
        peers_unique(s),
        0 <= i < s.len(),
        s[i].public_key@ == p.public_key@,
    ensures
        peers_has(s.update(i, p), key) == peers_has(s, key),
        peers_has(s, key) ==> peers_at(s.update(i, p), key) == if key == p.public_key@ {
            p
        } else {
            peers_at(s, key)
        },
        peers_unique(s.update(i, p)),
    decreases s.len(),
{
    let t = s.update(i, p);
    assert forall|x: int, y: int|
        0 <= x < y < t.len() implies (#[trigger] t[x]).public_key@ != (#[trigger] t[y]).public_key@
        by {
        assert(t[x].public_key@ == s[x].public_key@);
        assert(t[y].public_key@ == s[y].public_key@);
    }
    assert forall|j: int| 0 <= j < s.len() implies (#[trigger] t[j]).public_key@
        == s[j].public_key@ by {}
    assert(peers_has(t, key) == peers_has(s, key)) by {
        if peers_has(s, key) {
            let j = choose|j: int| 0 <= j < s.len() && (#[trigger] s[j]).public_key@ == key;
            assert(t[j].public_key@ == key);
        }
        if peers_has(t, key) {
            let j = choose|j: int| 0 <= j < t.len() && (#[trigger] t[j]).public_key@ == key;
            assert(s[j].public_key@ == key);
        }
    }
    if peers_has(s, key) {
        if i == 0 {
            assert(t[0] == p);
            assert(t.drop_first() =~= s.drop_first());
            if key != p.public_key@ {
                assert(s[0].public_key@ != key);
            }
        } else {
            assert(t[0] == s[0]);
            assert(t.drop_first() =~= s.drop_first().update(i - 1, p));
            assert(peers_unique(s.drop_first())) by {
                assert forall|x: int, y: int|
                    0 <= x < y < s.drop_first().len() implies (#[trigger] s.drop_first()[x]).public_key@ != (#[trigger] s.drop_first()[y]).public_key@ by {
                    assert(s.drop_first()[x] == s[x + 1]);
                    assert(s.drop_first()[y] == s[y + 1]);
                }
            }
            assert(s.drop_first()[i - 1] == s[i]);
            if s[0].public_key@ == key {
                assert(key != p.public_key@);
            } else {
                assert forall|j: int|
                    0 <= j < s.drop_first().len() && (#[trigger] s.drop_first()[j]).public_key@
                        == key implies true by {}
                if peers_has(s.drop_first(), key) {
                    lemma_peers_update(s.drop_first(), i - 1, p, key);
                } else {
                    let j = choose|j: int|
                        0 <= j < s.len() && (#[trigger] s[j]).public_key@ == key;
                    assert(j > 0);
                    assert(s.drop_first()[j - 1] == s[j]);
                    assert(false);
                }
            }
        }
    }
}

/// Appending a record for a fresh key leaves every other key unchanged.
pub proof fn lemma_peers_push(s: Seq<PeerInfo>, p: PeerInfo, key: Seq<u8>)
    requires
        peers_unique(s),
        !peers_has(s, p.public_key@),
    ensures
        peers_unique(s.push(p)),
        peers_has(s.push(p), key) == (peers_has(s, key) || key == p.public_key@),
        key == p.public_key@ ==> peers_at(s.push(p), key) == p,
        peers_has(s, key) && key != p.public_key@ ==> peers_at(s.push(p), key) == peers_at(s, key),
    decreases s.len(),
{
    let t = s.push(p);
    assert forall|x: int, y: int|
        0 <= x < y < t.len() implies (#[trigger] t[x]).public_key@ != (#[trigger] t[y]).public_key@
        by {
        if y < s.len() {
        } else {
            assert(t[y] == p);
            assert(t[x] == s[x]);
        }
    }
    assert(peers_has(t, key) == (peers_has(s, key) || key == p.public_key@)) by {
        if peers_has(s, key) {
            let j = choose|j: int| 0 <= j < s.len() && (#[trigger] s[j]).public_key@ == key;
            assert(t[j].public_key@ == key);
        }
        if key == p.public_key@ {
            assert(t[s.len() as int].public_key@ == key);
        }
        if peers_has(t, key) && !peers_has(s, key) {
            let j = choose|j: int| 0 <= j < t.len() && (#[trigger] t[j]).public_key@ == key;
            if j < s.len() {
                assert(s[j].public_key@ == key);
            }
        }
    }
    if s.len() == 0 {
        assert(t[0] == p);
    } else {
        assert(t[0] == s[0]);
        assert(t.drop_first() =~= s.drop_first().push(p));
        assert(peers_unique(s.drop_first())) by {
            assert forall|x: int, y: int|
                0 <= x < y < s.drop_first().len() implies (#[trigger] s.drop_first()[x]).public_key@ != (#[trigger] s.drop_first()[y]).public_key@ by {
                assert(s.drop_first()[x] == s[x + 1]);
                assert(s.drop_first()[y] == s[y + 1]);
            }
        }
        assert(!peers_has(s.drop_first(), p.public_key@)) by {
            if peers_has(s.drop_first(), p.public_key@) {
                let j = choose|j: int|
                    0 <= j < s.drop_first().len() && (#[trigger] s.drop_first()[j]).public_key@
                        == p.public_key@;
                assert(s[j + 1].public_key@ == p.public_key@);
            }
        }
        lemma_peers_push(s.drop_first(), p, key);
        if s[0].public_key@ == p.public_key@ {
            assert(false);
        }
        if peers_has(s, key) && key != p.public_key@ {
            assert(peers_at(t, key) == if t[0].public_key@ == key {
                t[0]
            } else {
                peers_at(t.drop_first(), key)
            });
            assert(peers_at(s, key) == if s[0].public_key@ == key {
                s[0]
            } else {
                peers_at(s.drop_first(), key)
            });
            if s[0].public_key@ != key {
                assert(peers_has(s.drop_first(), key)) by {
                    let j = choose|j: int|
                        0 <= j < s.len() && (#[trigger] s[j]).public_key@ == key;
                    assert(j > 0);
                    assert(s.drop_first()[j - 1] == s[j]);
                }
            }
        }
        if key == p.public_key@ {
            assert(peers_at(t, key) == if t[0].public_key@ == key {
                t[0]
            } else {
                peers_at(t.drop_first(), key)
            });
        }
    }
}


/// A peer registration request: the requester's identity and endpoint, and
/// a signed challenge proving possession of the secret key.
#[derive(Debug)]
pub struct PeerRegistrationRequest {
    /// The requester's public key.
    pub public_key: PeerPublicKey,
    /// The requester's display name.
    pub display_name: String,
    /// The requester's HTTP endpoint.
    pub endpoint: String,
    /// Random challenge text the requester signed.
    pub challenge_nonce: String,
    /// The signature over the nonce bytes, as 128 hex characters.
    pub challenge_signature: String,
}

impl Clone for PeerRegistrationRequest {
    /// A copy carrying the same data.
    fn clone(&self) -> (res: PeerRegistrationRequest)
        ensures
            res.public_key@ == self.public_key@,
            res.display_name@ == self.display_name@,
            res.endpoint@ == self.endpoint@,
            res.challenge_nonce@ == self.challenge_nonce@,
            res.challenge_signature@ == self.challenge_signature@,
    {
        PeerRegistrationRequest {
            public_key: self.public_key,
            display_name: self.display_name.clone(),
            endpoint: self.endpoint.clone(),
            challenge_nonce: self.challenge_nonce.clone(),
            challenge_signature: self.challenge_signature.clone(),
        }
    }
}

/// The answer to a registration request: acceptance or a reason, and the
/// responder's own identity with a fresh signed challenge for the mutual
/// registration.
#[derive(Debug)]
pub struct PeerRegistrationResponse {
    /// Whether the registration was accepted.
    pub accepted: bool,
    /// Why it was rejected, when it was.
    pub reason: Option<String>,
    /// The responder's public key.
    pub public_key: PeerPublicKey,
    /// The responder's display name.
    pub display_name: String,
    /// The responder's endpoint.
    pub endpoint: String,
    /// The responder's challenge nonce.
    pub challenge_nonce: String,
    /// The responder's signature over its nonce, as hex.
    pub challenge_signature: String,
}

impl Clone for PeerRegistrationResponse {
    /// A copy carrying the same data.
    fn clone(&self) -> (res: PeerRegistrationResponse)
        ensures
            res.accepted == self.accepted,
            crate::bytesutil::opt_str_eq(res.reason, self.reason),
            res.public_key@ == self.public_key@,
            res.display_name@ == self.display_name@,
            res.endpoint@ == self.endpoint@,
            res.challenge_nonce@ == self.challenge_nonce@,
            res.challenge_signature@ == self.challenge_signature@,
    {
        PeerRegistrationResponse {
            accepted: self.accepted,
            reason: crate::bytesutil::clone_opt_string(&self.reason),
            public_key: self.public_key,
            display_name: self.display_name.clone(),
            endpoint: self.endpoint.clone(),
            challenge_nonce: self.challenge_nonce.clone(),
            challenge_signature: self.challenge_signature.clone(),
        }
    }
}

/// Whether a seen-event list mentions a hash key.
pub open spec fn seen_has(s: Seq<(String, u64)>, k: Seq<char>) -> bool {
    exists|i: int| 0 <= i < s.len() && (#[trigger] s[i]).0@ == k
}

/// Whether a seen-event list names each hash at most once.
pub open spec fn seen_unique(s: Seq<(String, u64)>) -> bool {
    forall|i: int, j: int| 0 <= i < j < s.len() ==> (#[trigger] s[i]).0@ != (#[trigger] s[j]).0@
}

/// Core federation state: this node's identity and clock, its peer registry,
/// its seen-event cache and its policy. Persistence and transport stand
/// outside; they hand values in and out.
pub struct FederationState {
    /// This node's keypair.
    pub identity: TeambookIdentity,
    /// This node's hybrid logical clock.
    pub clock: HybridClock,
    /// The registered peers, each key at most once.
    pub peers: Vec<PeerInfo>,
    /// Content hashes of events already seen, as hex, with the time first
    /// seen; memory-only.
    pub seen_events: Vec<(String, u64)>,
    /// This node's federation policy.
    pub policy: FederationPolicy,
    /// This node's display name.
    pub display_name: String,
    /// The HTTP endpoint this node receives events at.
    pub local_endpoint: String,
}

/// A summary of federation health.
#[derive(Debug)]
pub struct FederationStatus {
    /// This node's public key as hex.
    pub pubkey: String,
    /// The first 8 hex characters of the key.
    pub short_id: String,
    /// This node's display name.
    pub display_name: String,
    /// This node's endpoint.
    pub endpoint: String,
    /// Registered peers currently online.
    pub peers_online: usize,
    /// Registered peers not removed.
    pub peers_total: usize,
    /// Events in the dedup cache.
    pub events_seen: usize,
    /// The node's policy.
    pub policy: FederationPolicy,
}

impl FederationState {
    /// The registry and cache are well formed: each peer key and each seen
    /// hash occurs at most once, and the identity is sound.
    pub open spec fn wf(self) -> bool {
        &&& self.identity.wf()
        &&& peers_unique(self.peers@)
        &&& seen_unique(self.seen_events@)
    }

    /// Assembles federation state from an identity, this node's naming and
    /// previously persisted peers. The clock seeds from the first eight
    /// bytes of the public key.
    pub fn init(
        identity: TeambookIdentity,
        display_name: String,
        local_endpoint: String,
        peers: Vec<PeerInfo>,
    ) -> (r: FederationState)
        requires
            identity.wf(),
            peers_unique(peers@),
        ensures
            r.wf(),
            r.identity == identity,
            r.peers@ == peers@,
            r.seen_events@.len() == 0,
            r.policy == (FederationPolicy {
                min_auth_tier: AuthTier::DeviceBound,
                require_mutual: true,
                auto_accept_known: false,
                max_peers: 10,
            }),
            r.display_name@ == display_name@,
            r.local_endpoint@ == local_endpoint@,
            r.clock.state.physical_time_us == 0,
            r.clock.state.counter == 0,
    {
        let pk = identity.public_key();
        let node_id = HybridClock::node_id_from_pubkey(pk.as_slice());
        let clock = HybridClock::new(node_id);
        let policy = FederationPolicy {
            min_auth_tier: AuthTier::DeviceBound,
            require_mutual: true,
            auto_accept_known: false,
            max_peers: 10,
        };
        FederationState {
            identity,
            clock,
            peers,
            seen_events: Vec::new(),
            policy,
            display_name,
            local_endpoint,
        }
    }

    /// Finds a peer's position by key.
    fn find_peer(&self, key: &[u8]) -> (r: Option<usize>)
        ensures
            match r {
                Some(i) => i < self.peers@.len() && self.peers@[i as int].public_key@ == key@,
                None => !peers_has(self.peers@, key@),
            },
    {
        let n = self.peers.len();
        let mut i: usize = 0;
        while i < n
            invariant
                n == self.peers@.len(),
                i <= n,
                forall|j: int| 0 <= j < i ==> (#[trigger] self.peers@[j]).public_key@ != key@,
            decreases n - i,
        {
            if bytes_eq(self.peers[i].public_key.as_slice(), key) {
                return Some(i);
            }
            i = i + 1;
        }
        None
    }

    /// Whether a key names a known (non-removed) peer.
    pub fn is_known_peer(&self, pubkey: &PeerPublicKey) -> (r: bool)
        requires
            self.wf(),
        ensures
            r == peer_known(self.peers@, pubkey@),
    {
        match self.find_peer(pubkey.as_slice()) {
            Some(i) => {
                proof {
                    lemma_peers_at_found(self.peers@, i as int);
                }
                !matches!(self.peers[i].status, PeerStatus::Removed)
            },
            None => false,
        }
    }

    /// The record for a key given as hex text, if any.
    pub fn get_peer(&self, pubkey_hex: &str) -> (r: Option<PeerInfo>)
        requires
            self.wf(),
        ensures
            r is Some <==> (pubkey_hex@.len() == 64 && (forall|i: int|
                0 <= i < pubkey_hex@.len() ==> is_hex_digit(#[trigger] pubkey_hex@[i]))
                && peers_has(self.peers@, bytes_of_hex(pubkey_hex@))),
            match r {
                Some(p) => peers_has(self.peers@, bytes_of_hex(pubkey_hex@)) && peer_eq(
                    p,
                    peers_at(self.peers@, bytes_of_hex(pubkey_hex@)),
                ),
                None => true,
            },
    {
        let key = match crate::hex::decode(pubkey_hex) {
            Ok(k) => k,
            Err(_) => {
                return None;
            },
        };
        if key.len() != 32 {
            proof {
                crate::hex::lemma_hex_bytes_len(pubkey_hex@);
            }
            return None;
        }
        proof {
            crate::hex::lemma_hex_bytes_len(pubkey_hex@);
        }
        match self.find_peer(key.as_slice()) {
            Some(i) => {
                proof {
                    lemma_peers_at_found(self.peers@, i as int);
                }
                Some(self.peers[i].clone())
            },
            None => None,
        }
    }

    /// The non-removed peers, in registry order.
    pub fn list_peers(&self) -> (r: Vec<PeerInfo>)
        requires
            self.wf(),
        ensures
            peers_unique(r@),
            forall|i: int|
                0 <= i < r@.len() ==> (#[trigger] r@[i]).status != PeerStatus::Removed,
            forall|i: int|
                0 <= i < r@.len() ==> peer_known(self.peers@, (#[trigger] r@[i]).public_key@),
            forall|j: int|
                0 <= j < self.peers@.len() && (#[trigger] self.peers@[j]).status
                    != PeerStatus::Removed ==> peers_has(r@, self.peers@[j].public_key@),
    {
        let n = self.peers.len();
        let mut out: Vec<PeerInfo> = Vec::new();
        let mut i: usize = 0;
        while i < n
            invariant
                self.wf(),
                n == self.peers@.len(),
                i <= n,
                peers_unique(out@),
                forall|k: int|
                    0 <= k < out@.len() ==> exists|j: int|
                        0 <= j < i && (#[trigger] out@[k]).public_key@
                            == self.peers@[j].public_key@,
                forall|k: int|
                    0 <= k < out@.len() ==> (#[trigger] out@[k]).status != PeerStatus::Removed,
                forall|k: int|
                    0 <= k < out@.len() ==> peer_known(self.peers@, (#[trigger] out@[k]).public_key@),
                forall|j: int|
                    0 <= j < i && (#[trigger] self.peers@[j]).status != PeerStatus::Removed
                        ==> peers_has(out@, self.peers@[j].public_key@),
            decreases n - i,
        {
            if !matches!(self.peers[i].status, PeerStatus::Removed) {
                let ghost out_before = out@;
                let copy = self.peers[i].clone();
                out.push(copy);
                proof {
                    lemma_peers_at_found(self.peers@, i as int);
                    assert(out@[out@.len() - 1].public_key@ == self.peers@[i as int].public_key@);
                    assert forall|x: int, y: int|
                        0 <= x < y < out@.len() implies (#[trigger] out@[x]).public_key@
                        != (#[trigger] out@[y]).public_key@ by {
                        if y == out@.len() - 1 {
                            let j = choose|j: int|
                                0 <= j < i && (#[trigger] out_before[x]).public_key@
                                    == self.peers@[j].public_key@;
                            assert(self.peers@[j].public_key@ != self.peers@[i as int].public_key@);
                        }
                    }
                    assert forall|k: int|
                        0 <= k < out@.len() implies exists|j: int|
                        0 <= j < i + 1 && (#[trigger] out@[k]).public_key@
                            == self.peers@[j].public_key@ by {
                        if k < out_before.len() {
                            let j = choose|j: int|
                                0 <= j < i && (#[trigger] out_before[k]).public_key@
                                    == self.peers@[j].public_key@;
                            assert(out@[k].public_key@ == self.peers@[j].public_key@);
                        } else {
                            assert(out@[k].public_key@ == self.peers@[i as int].public_key@);
                        }
                    }
                    assert forall|j: int|
                        0 <= j < i + 1 && (#[trigger] self.peers@[j]).status
                            != PeerStatus::Removed implies peers_has(
                        out@,
                        self.peers@[j].public_key@,
                    ) by {
                        if j < i {
                            let k = choose|k: int|
                                0 <= k < out_before.len() && (#[trigger] out_before[k]).public_key@
                                    == self.peers@[j].public_key@;
                            assert(out@[k].public_key@ == self.peers@[j].public_key@);
                        } else {
                            assert(out@[out@.len() - 1].public_key@
                                == self.peers@[j].public_key@);
                        }
                    }
                }
            } else {
                proof {
                    assert forall|j: int|
                        0 <= j < i + 1 && (#[trigger] self.peers@[j]).status
                            != PeerStatus::Removed implies peers_has(
                        out@,
                        self.peers@[j].public_key@,
                    ) by {}
                    assert forall|k: int|
                        0 <= k < out@.len() implies exists|j: int|
                        0 <= j < i + 1 && (#[trigger] out@[k]).public_key@
                            == self.peers@[j].public_key@ by {
                        let j = choose|j: int|
                            0 <= j < i && (#[trigger] out@[k]).public_key@
                                == self.peers@[j].public_key@;
                    }
                }
            }
            i = i + 1;
        }
        out
    }

    /// Marks a peer removed, keeping the tombstone. True when the key named
    /// a peer.
    pub fn remove_peer(&mut self, pubkey_hex: &str) -> (r: bool)
        requires
            old(self).wf(),
        ensures
            final(self).wf(),
            final(self).identity == old(self).identity,
            final(self).seen_events@ == old(self).seen_events@,
            final(self).peers@.len() == old(self).peers@.len(),
            final(self).policy == old(self).policy,
            final(self).clock == old(self).clock,
            final(self).display_name == old(self).display_name,
            final(self).local_endpoint == old(self).local_endpoint,
            r == (pubkey_hex@.len() == 64 && (forall|i: int|
                0 <= i < pubkey_hex@.len() ==> is_hex_digit(#[trigger] pubkey_hex@[i]))
                && peers_has(old(self).peers@, bytes_of_hex(pubkey_hex@))),
            r ==> !peer_known(final(self).peers@, bytes_of_hex(pubkey_hex@)),
            r ==> forall|k: Seq<u8>|
                k != bytes_of_hex(pubkey_hex@) && peers_has(old(self).peers@, k) ==> peers_has(
                    final(self).peers@,
                    k,
                ) && peers_at(final(self).peers@, k) == peers_at(old(self).peers@, k),
            !r ==> final(self).peers@ == old(self).peers@,
    {
        let key = match crate::hex::decode(pubkey_hex) {
            Ok(k) => k,
            Err(_) => {
                return false;
            },
        };
        if key.len() != 32 {
            proof {
                crate::hex::lemma_hex_bytes_len(pubkey_hex@);
            }
            return false;
        }
        proof {
            crate::hex::lemma_hex_bytes_len(pubkey_hex@);
        }
        let ghost s0 = self.peers@;
        match self.find_peer(key.as_slice()) {
            Some(i) => {
                proof {
                    lemma_peers_at_found(s0, i as int);
                }
                let mut updated = self.peers[i].clone();
                updated.status = PeerStatus::Removed;
                let ghost upd = updated;
                self.peers[i] = updated;
                proof {
                    assert(self.peers@ =~= s0.update(i as int, upd));
                    lemma_peers_update(s0, i as int, upd, key@);
                    assert forall|k: Seq<u8>|
                        k != bytes_of_hex(pubkey_hex@) && peers_has(s0, k) implies peers_has(
                        self.peers@,
                        k,
                    ) && peers_at(self.peers@, k) == peers_at(s0, k) by {
                        lemma_peers_update(s0, i as int, upd, k);
                    }
                }
                true
            },
            None => false,
        }
    }

    /// Records life from a peer at a given time: updates its last-seen time
    /// and flips it online. Unknown keys change nothing.
    pub fn touch_peer_at(&mut self, pubkey_hex: &str, now_us: u64)
        requires
            old(self).wf(),
        ensures
            final(self).wf(),
            final(self).identity == old(self).identity,
            final(self).seen_events@ == old(self).seen_events@,
            final(self).policy == old(self).policy,
            final(self).clock == old(self).clock,
            final(self).display_name == old(self).display_name,
            final(self).local_endpoint == old(self).local_endpoint,
            peers_has(old(self).peers@, bytes_of_hex(pubkey_hex@)) && pubkey_hex@.len() == 64
                && (forall|i: int|
                0 <= i < pubkey_hex@.len() ==> is_hex_digit(#[trigger] pubkey_hex@[i])) ==> {
                let k = bytes_of_hex(pubkey_hex@);
                let old_p = peers_at(old(self).peers@, k);
                let new_p = peers_at(final(self).peers@, k);
                &&& peers_has(final(self).peers@, k)
                &&& new_p.last_seen_at == now_us
                &&& new_p.status == PeerStatus::Online
                &&& new_p.public_key@ == old_p.public_key@
                &&& new_p.display_name@ == old_p.display_name@
                &&& new_p.endpoint@ == old_p.endpoint@
                &&& new_p.registered_at == old_p.registered_at
                &&& new_p.initiated_by_us == old_p.initiated_by_us
                &&& new_p.last_synced_seq == old_p.last_synced_seq
            },
            forall|k: Seq<u8>|
                k != bytes_of_hex(pubkey_hex@) && peers_has(old(self).peers@, k) ==> peers_has(
                    final(self).peers@,
                    k,
                ) && peers_at(final(self).peers@, k) == peers_at(old(self).peers@, k),
            forall|k: Seq<u8>|
                peers_has(final(self).peers@, k) == peers_has(old(self).peers@, k),
    {
        let key = match crate::hex::decode(pubkey_hex) {
            Ok(k) => k,
            Err(_) => {
                return ;
            },
        };
        if key.len() != 32 {
            proof {
                crate::hex::lemma_hex_bytes_len(pubkey_hex@);
            }
            return ;
        }
        proof {
            crate::hex::lemma_hex_bytes_len(pubkey_hex@);
        }
        let ghost s0 = self.peers@;
        match self.find_peer(key.as_slice()) {
            Some(i) => {
                proof {
                    lemma_peers_at_found(s0, i as int);
                }
                let mut updated = self.peers[i].clone();
                updated.last_seen_at = now_us;
                updated.status = PeerStatus::Online;
                let ghost upd = updated;
                self.peers[i] = updated;
                proof {
                    assert(self.peers@ =~= s0.update(i as int, upd));
                    lemma_peers_update(s0, i as int, upd, key@);
                    assert forall|k: Seq<u8>|
                        k != bytes_of_hex(pubkey_hex@) && peers_has(s0, k) implies peers_has(
                        self.peers@,
                        k,
                    ) && peers_at(self.peers@, k) == peers_at(s0, k) by {
                        lemma_peers_update(s0, i as int, upd, k);
                    }
                    assert forall|k: Seq<u8>| peers_has(self.peers@, k) == peers_has(
                        s0,
                        k,
                    ) by {
                        lemma_peers_update(s0, i as int, upd, k);
                    }
                }
            },
            None => {
            },
        }
    }

    /// Records life from a peer now.
    pub fn touch_peer(&mut self, pubkey_hex: &str)
        requires
            old(self).wf(),
        ensures
            final(self).wf(),
            final(self).identity == old(self).identity,
            final(self).seen_events@ == old(self).seen_events@,
            final(self).policy == old(self).policy,
            final(self).clock == old(self).clock,
            final(self).display_name == old(self).display_name,
            final(self).local_endpoint == old(self).local_endpoint,
            final(self).policy == old(self).policy,
            final(self).clock == old(self).clock,
            final(self).display_name == old(self).display_name,
            final(self).local_endpoint == old(self).local_endpoint,
            peers_has(old(self).peers@, bytes_of_hex(pubkey_hex@)) && pubkey_hex@.len() == 64
                && (forall|i: int|
                0 <= i < pubkey_hex@.len() ==> is_hex_digit(#[trigger] pubkey_hex@[i])) ==> {
                let k = bytes_of_hex(pubkey_hex@);
                let old_p = peers_at(old(self).peers@, k);
                let new_p = peers_at(final(self).peers@, k);
                &&& peers_has(final(self).peers@, k)
                &&& new_p.status == PeerStatus::Online
                &&& new_p.public_key@ == old_p.public_key@
                &&& new_p.display_name@ == old_p.display_name@
                &&& new_p.endpoint@ == old_p.endpoint@
                &&& new_p.registered_at == old_p.registered_at
                &&& new_p.initiated_by_us == old_p.initiated_by_us
                &&& new_p.last_synced_seq == old_p.last_synced_seq
            },
            forall|k: Seq<u8>|
                k != bytes_of_hex(pubkey_hex@) && peers_has(old(self).peers@, k) ==> peers_has(
                    final(self).peers@,
                    k,
                ) && peers_at(final(self).peers@, k) == peers_at(old(self).peers@, k),
            forall|k: Seq<u8>|
                peers_has(final(self).peers@, k) == peers_has(old(self).peers@, k),
    {
        let now_us = now_micros();
        self.touch_peer_at(pubkey_hex, now_us);
    }

    /// Advances the sequence a peer is known to have received from us.
    pub fn update_peer_sync_seq(&mut self, pubkey_hex: &str, seq_no: u64)
        requires
            old(self).wf(),
        ensures
            final(self).wf(),
            final(self).identity == old(self).identity,
            peers_has(old(self).peers@, bytes_of_hex(pubkey_hex@)) && pubkey_hex@.len() == 64
                && (forall|i: int|
                0 <= i < pubkey_hex@.len() ==> is_hex_digit(#[trigger] pubkey_hex@[i]))
                ==> peers_at(final(self).peers@, bytes_of_hex(pubkey_hex@)).last_synced_seq
                == seq_no,
            forall|k: Seq<u8>|
                k != bytes_of_hex(pubkey_hex@) && peers_has(old(self).peers@, k) ==> peers_has(
                    final(self).peers@,
                    k,
                ) && peers_at(final(self).peers@, k) == peers_at(old(self).peers@, k),
            forall|k: Seq<u8>|
                peers_has(final(self).peers@, k) == peers_has(old(self).peers@, k),
            final(self).policy == old(self).policy,
            final(self).clock == old(self).clock,
            final(self).seen_events@ == old(self).seen_events@,
            final(self).display_name == old(self).display_name,
            final(self).local_endpoint == old(self).local_endpoint,
    {
        let key = match crate::hex::decode(pubkey_hex) {
            Ok(k) => k,
            Err(_) => {
                return ;
            },
        };
        if key.len() != 32 {
            proof {
                crate::hex::lemma_hex_bytes_len(pubkey_hex@);
            }
            return ;
        }
        proof {
            crate::hex::lemma_hex_bytes_len(pubkey_hex@);
        }
        let ghost s0 = self.peers@;
        match self.find_peer(key.as_slice()) {
            Some(i) => {
                proof {
                    lemma_peers_at_found(s0, i as int);
                }
                let mut updated = self.peers[i].clone();
                updated.last_synced_seq = seq_no;
                let ghost upd = updated;
                self.peers[i] = updated;
                proof {
                    assert(self.peers@ =~= s0.update(i as int, upd));
                    lemma_peers_update(s0, i as int, upd, key@);
                    assert forall|k: Seq<u8>|
                        k != bytes_of_hex(pubkey_hex@) && peers_has(s0, k) implies peers_has(
                        self.peers@,
                        k,
                    ) && peers_at(self.peers@, k) == peers_at(s0, k) by {
                        lemma_peers_update(s0, i as int, upd, k);
                    }
                    assert forall|k: Seq<u8>| peers_has(self.peers@, k) == peers_has(
                        s0,
                        k,
                    ) by {
                        lemma_peers_update(s0, i as int, upd, k);
                    }
                }
            },
            None => {
            },
        }
    }
}


/// Whether a seen-event list holds a given hash with a given timestamp.
pub open spec fn seen_entry(s: Seq<(String, u64)>, k: Seq<char>, ts: u64) -> bool {
    exists|i: int| 0 <= i < s.len() && (#[trigger] s[i]).0@ == k && s[i].1 == ts
}

impl FederationState {
    /// Finds a hash's position in the seen cache.
    fn find_seen(&self, content_hash_hex: &str) -> (r: Option<usize>)
        ensures
            match r {
                Some(i) => i < self.seen_events@.len() && self.seen_events@[i as int].0@
                    == content_hash_hex@,
                None => !seen_has(self.seen_events@, content_hash_hex@),
            },
    {
        let n = self.seen_events.len();
        let mut i: usize = 0;
        while i < n
            invariant
                n == self.seen_events@.len(),
                i <= n,
                forall|j: int|
                    0 <= j < i ==> (#[trigger] self.seen_events@[j]).0@ != content_hash_hex@,
            decreases n - i,
        {
            if crate::bytesutil::str_eq(self.seen_events[i].0.as_str(), content_hash_hex) {
                return Some(i);
            }
            i = i + 1;
        }
        None
    }

    /// Whether an event hash has not been seen yet.
    pub fn is_new_event(&self, content_hash_hex: &str) -> (r: bool)
        ensures
            r == !seen_has(self.seen_events@, content_hash_hex@),
    {
        match self.find_seen(content_hash_hex) {
            Some(_) => false,
            None => true,
        }
    }

    /// Records an event hash as seen at a given time; a hash already present
    /// keeps one entry with the fresher time.
    pub fn mark_event_seen_at(&mut self, content_hash_hex: String, now_us: u64)
        requires
            old(self).wf(),
        ensures
            final(self).wf(),
            final(self).identity == old(self).identity,
            final(self).peers@ == old(self).peers@,
            final(self).policy == old(self).policy,
            final(self).clock == old(self).clock,
            final(self).display_name == old(self).display_name,
            final(self).local_endpoint == old(self).local_endpoint,
            seen_has(final(self).seen_events@, content_hash_hex@),
            seen_entry(final(self).seen_events@, content_hash_hex@, now_us),
            forall|k: Seq<char>|
                k != content_hash_hex@ ==> seen_has(final(self).seen_events@, k) == seen_has(
                    old(self).seen_events@,
                    k,
                ),
    {
        let ghost s0 = self.seen_events@;
        match self.find_seen(content_hash_hex.as_str()) {
            Some(i) => {
                self.seen_events[i] = (content_hash_hex, now_us);
                proof {
                    let t = self.seen_events@;
                    assert(t[i as int].0@ == s0[i as int].0@);
                    assert forall|x: int, y: int|
                        0 <= x < y < t.len() implies (#[trigger] t[x]).0@ != (#[trigger] t[y]).0@
                        by {
                        assert(t[x].0@ == s0[x].0@);
                        assert(t[y].0@ == s0[y].0@);
                    }
                    assert forall|k: Seq<char>|
                        k != t[i as int].0@ implies seen_has(t, k) == seen_has(s0, k) by {
                        if seen_has(s0, k) {
                            let j = choose|j: int|
                                0 <= j < s0.len() && (#[trigger] s0[j]).0@ == k;
                            assert(t[j].0@ == k);
                        }
                        if seen_has(t, k) {
                            let j = choose|j: int|
                                0 <= j < t.len() && (#[trigger] t[j]).0@ == k;
                            assert(s0[j].0@ == k);
                        }
                    }
                }
            },
            None => {
                let ghost key_view = content_hash_hex@;
                self.seen_events.push((content_hash_hex, now_us));
                proof {
                    let t = self.seen_events@;
                    assert(t[t.len() - 1].0@ == key_view);
                    assert forall|x: int, y: int|
                        0 <= x < y < t.len() implies (#[trigger] t[x]).0@ != (#[trigger] t[y]).0@
                        by {
                        if y < s0.len() {
                        } else {
                            assert(t[y].0@ == key_view);
                            assert(t[x] == s0[x]);
                        }
                    }
                    assert forall|k: Seq<char>|
                        k != key_view implies seen_has(t, k) == seen_has(s0, k) by {
                        if seen_has(s0, k) {
                            let j = choose|j: int|
                                0 <= j < s0.len() && (#[trigger] s0[j]).0@ == k;
                            assert(t[j].0@ == k);
                        }
                        if seen_has(t, k) {
                            let j = choose|j: int|
                                0 <= j < t.len() && (#[trigger] t[j]).0@ == k;
                            if j < s0.len() {
                                assert(s0[j].0@ == k);
                            }
                        }
                    }
                }
            },
        }
    }

    /// Records an event hash as seen now.
    pub fn mark_event_seen(&mut self, content_hash_hex: String)
        requires
            old(self).wf(),
        ensures
            final(self).wf(),
            final(self).identity == old(self).identity,
            final(self).peers@ == old(self).peers@,
            final(self).policy == old(self).policy,
            final(self).clock == old(self).clock,
            final(self).display_name == old(self).display_name,
            final(self).local_endpoint == old(self).local_endpoint,
            seen_has(final(self).seen_events@, content_hash_hex@),
            forall|k: Seq<char>|
                k != content_hash_hex@ ==> seen_has(final(self).seen_events@, k) == seen_has(
                    old(self).seen_events@,
                    k,
                ),
    {
        let now_us = now_micros();
        self.mark_event_seen_at(content_hash_hex, now_us);
    }

    /// Evicts seen-event entries last refreshed at or before the cutoff:
    /// what stays is exactly what was fresher than `now - max_age`.
    pub fn prune_seen_events_at(&mut self, max_age_us: u64, now_us: u64)
        requires
            old(self).wf(),
        ensures
            final(self).wf(),
            final(self).identity == old(self).identity,
            final(self).peers@ == old(self).peers@,
            final(self).policy == old(self).policy,
            final(self).clock == old(self).clock,
            final(self).display_name == old(self).display_name,
            final(self).local_endpoint == old(self).local_endpoint,
            forall|i: int|
                0 <= i < final(self).seen_events@.len() ==> (#[trigger] final(self).seen_events@[i]).1
                    > now_us - max_age_us && seen_entry(
                    old(self).seen_events@,
                    final(self).seen_events@[i].0@,
                    final(self).seen_events@[i].1,
                ),
            forall|j: int|
                0 <= j < old(self).seen_events@.len() && (#[trigger] old(self).seen_events@[j]).1
                    > (if now_us >= max_age_us {
                    (now_us - max_age_us) as u64
                } else {
                    0u64
                }) ==> seen_entry(
                    final(self).seen_events@,
                    old(self).seen_events@[j].0@,
                    old(self).seen_events@[j].1,
                ),
    {
        let cutoff = if now_us >= max_age_us {
            now_us - max_age_us
        } else {
            0
        };
        let ghost s0 = self.seen_events@;
        let n = self.seen_events.len();
        let mut kept: Vec<(String, u64)> = Vec::new();
        let mut i: usize = 0;
        while i < n
            invariant
                n == s0.len(),
                i <= n,
                self.seen_events@ == s0,
                self.wf(),
                cutoff == if now_us >= max_age_us { (now_us - max_age_us) as u64 } else { 0u64 },
                forall|x: int|
                    0 <= x < kept@.len() ==> (#[trigger] kept@[x]).1 > cutoff && seen_entry(
                        s0,
                        kept@[x].0@,
                        kept@[x].1,
                    ),
                forall|j: int|
                    0 <= j < i && (#[trigger] s0[j]).1 > cutoff ==> seen_entry(
                        kept@,
                        s0[j].0@,
                        s0[j].1,
                    ),
                forall|x: int, y: int|
                    0 <= x < y < kept@.len() ==> (#[trigger] kept@[x]).0@
                        != (#[trigger] kept@[y]).0@,
                forall|x: int|
                    0 <= x < kept@.len() ==> seen_has(s0.take(i as int), (#[trigger] kept@[x]).0@),
            decreases n - i,
        {
            let ts = self.seen_events[i].1;
            if ts > cutoff {
                let ghost kept0 = kept@;
                let entry = (self.seen_events[i].0.clone(), ts);
                kept.push(entry);
                proof {
                    assert(kept@[kept@.len() - 1].0@ == s0[i as int].0@);
                    assert(seen_entry(s0, s0[i as int].0@, s0[i as int].1)) by {
                        let idx = i as int;
                        assert(s0[idx].0@ == s0[idx].0@ && s0[idx].1 == s0[idx].1);
                    }
                    assert forall|x: int, y: int|
                        0 <= x < y < kept@.len() implies (#[trigger] kept@[x]).0@
                        != (#[trigger] kept@[y]).0@ by {
                        if y == kept@.len() - 1 {
                            assert(seen_has(s0.take(i as int), kept0[x].0@));
                            let j = choose|j: int|
                                0 <= j < s0.take(i as int).len() && (#[trigger] s0.take(
                                    i as int,
                                )[j]).0@ == kept0[x].0@;
                            assert(s0.take(i as int)[j] == s0[j]);
                            if s0[j].0@ == s0[i as int].0@ {
                                assert(false);
                            }
                        }
                    }
                    assert forall|x: int|
                        0 <= x < kept@.len() implies seen_has(
                        s0.take(i + 1),
                        (#[trigger] kept@[x]).0@,
                    ) by {
                        if x < kept0.len() {
                            let j = choose|j: int|
                                0 <= j < s0.take(i as int).len() && (#[trigger] s0.take(
                                    i as int,
                                )[j]).0@ == kept0[x].0@;
                            assert(s0.take(i + 1)[j] == s0[j]);
                        } else {
                            assert(s0.take(i + 1)[i as int].0@ == kept@[x].0@);
                        }
                    }
                    assert forall|j: int|
                        0 <= j < i + 1 && (#[trigger] s0[j]).1 > cutoff implies seen_entry(
                        kept@,
                        s0[j].0@,
                        s0[j].1,
                    ) by {
                        if j < i {
                            let x = choose|x: int|
                                0 <= x < kept0.len() && (#[trigger] kept0[x]).0@ == s0[j].0@
                                    && kept0[x].1 == s0[j].1;
                            assert(kept@[x].0@ == s0[j].0@ && kept@[x].1 == s0[j].1);
                        } else {
                            assert(kept@[kept@.len() - 1].0@ == s0[j].0@ && kept@[kept@.len()
                                - 1].1 == s0[j].1);
                        }
                    }
                }
            } else {
                proof {
                    assert forall|j: int|
                        0 <= j < i + 1 && (#[trigger] s0[j]).1 > cutoff implies seen_entry(
                        kept@,
                        s0[j].0@,
                        s0[j].1,
                    ) by {}
                    assert forall|x: int|
                        0 <= x < kept@.len() implies seen_has(
                        s0.take(i + 1),
                        (#[trigger] kept@[x]).0@,
                    ) by {
                        let j = choose|j: int|
                            0 <= j < s0.take(i as int).len() && (#[trigger] s0.take(
                                i as int,
                            )[j]).0@ == kept@[x].0@;
                        assert(s0.take(i + 1)[j] == s0[j]);
                    }
                }
            }
            i = i + 1;
        }
        self.seen_events = kept;
        proof {
            assert forall|x: int|
                0 <= x < self.seen_events@.len() implies seen_entry(
                s0,
                (#[trigger] self.seen_events@[x]).0@,
                self.seen_events@[x].1,
            ) by {}
        }
    }

    /// Evicts seen-event entries older than the given age.
    pub fn prune_seen_events(&mut self, max_age_us: u64)
        requires
            old(self).wf(),
        ensures
            final(self).wf(),
            final(self).identity == old(self).identity,
            final(self).peers@ == old(self).peers@,
            final(self).policy == old(self).policy,
            final(self).clock == old(self).clock,
            final(self).display_name == old(self).display_name,
            final(self).local_endpoint == old(self).local_endpoint,
            forall|i: int|
                0 <= i < final(self).seen_events@.len() ==> seen_entry(
                    old(self).seen_events@,
                    (#[trigger] final(self).seen_events@[i]).0@,
                    final(self).seen_events@[i].1,
                ),
    {
        let now_us = now_micros();
        self.prune_seen_events_at(max_age_us, now_us);
    }

    /// The current policy.
    pub fn policy(&self) -> (r: FederationPolicy)
        ensures
            r == self.policy,
    {
        self.policy
    }

    /// Replaces the policy.
    pub fn set_policy(&mut self, policy: FederationPolicy)
        requires
            old(self).wf(),
        ensures
            final(self).wf(),
            final(self).policy == policy,
            final(self).peers@ == old(self).peers@,
            final(self).seen_events@ == old(self).seen_events@,
            final(self).identity == old(self).identity,
    {
        self.policy = policy;
    }
}

/// The number of online peers.
pub open spec fn online_count(s: Seq<PeerInfo>) -> nat
    decreases s.len(),
{
    if s.len() == 0 {
        0
    } else {
        (if s[0].status == PeerStatus::Online {
            1nat
        } else {
            0nat
        }) + online_count(s.drop_first())
    }
}

/// Counting peers over a prefix extends one element at a time.
proof fn lemma_counts_take(s: Seq<PeerInfo>, i: int)
    requires
        0 <= i < s.len(),
    ensures
        active_count(s.take(i + 1)) == active_count(s.take(i)) + (if s[i].status
            != PeerStatus::Removed {
            1nat
        } else {
            0nat
        }),
        online_count(s.take(i + 1)) == online_count(s.take(i)) + (if s[i].status
            == PeerStatus::Online {
            1nat
        } else {
            0nat
        }),
    decreases i,
{
    if i == 0 {
        assert(s.take(1)[0] == s[0]);
        assert(s.take(1).drop_first() =~= s.take(0));
        assert(active_count(s.take(0)) == 0);
        assert(online_count(s.take(0)) == 0);
    } else {
        assert(s.take(i + 1)[0] == s[0]);
        assert(s.take(i)[0] == s[0]);
        assert(s.take(i + 1).drop_first() =~= s.drop_first().take(i));
        assert(s.take(i).drop_first() =~= s.drop_first().take(i - 1));
        assert(s.drop_first()[i - 1] == s[i]);
        lemma_counts_take(s.drop_first(), i - 1);
    }
}

impl FederationState {
    /// Counts active and online peers.
    fn count_peers(&self) -> (r: (usize, usize))
        ensures
            r.0 == active_count(self.peers@),
            r.1 == online_count(self.peers@),
    {
        let n = self.peers.len();
        let mut active: usize = 0;
        let mut online: usize = 0;
        let mut i: usize = 0;
        proof {
            assert(self.peers@.take(0) =~= Seq::<PeerInfo>::empty());
        }
        while i < n
            invariant
                n == self.peers@.len(),
                i <= n,
                active == active_count(self.peers@.take(i as int)),
                online == online_count(self.peers@.take(i as int)),
                active <= i,
                online <= i,
            decreases n - i,
        {
            proof {
                lemma_counts_take(self.peers@, i as int);
            }
            if !matches!(self.peers[i].status, PeerStatus::Removed) {
                active = active + 1;
            }
            if matches!(self.peers[i].status, PeerStatus::Online) {
                online = online + 1;
            }
            i = i + 1;
        }
        proof {
            assert(self.peers@.take(n as int) =~= self.peers@);
        }
        (active, online)
    }

    /// A summary of federation health.
    pub fn status(&self) -> (r: FederationStatus)
        requires
            self.wf(),
        ensures
            r.pubkey@ == hex_of(self.identity.public@),
            r.short_id@ == hex_of(self.identity.public@).take(8),
            r.display_name@ == self.display_name@,
            r.endpoint@ == self.local_endpoint@,
            r.peers_online == online_count(self.peers@),
            r.peers_total == active_count(self.peers@),
            r.events_seen == self.seen_events@.len(),
            r.policy == self.policy,
    {
        let (active, online) = self.count_peers();
        FederationStatus {
            pubkey: self.identity.public_key_hex(),
            short_id: self.identity.short_id(),
            display_name: self.display_name.clone(),
            endpoint: self.local_endpoint.clone(),
            peers_online: online,
            peers_total: active,
            events_seen: self.seen_events.len(),
            policy: self.policy,
        }
    }
}


/// Whether hex text denotes exactly 64 bytes: 128 hex digits.
pub open spec fn is_hex_sig(s: Seq<char>) -> bool {
    s.len() == 128 && (forall|i: int| 0 <= i < s.len() ==> is_hex_digit(#[trigger] s[i]))
}

/// Whether a registration request proves possession of its key: its
/// signature text is 128 hex digits whose bytes verify over the nonce text.
pub open spec fn challenge_ok(req: PeerRegistrationRequest) -> bool {
    is_hex_sig(req.challenge_signature@) && sig_valid(
        req.public_key@,
        vstd::utf8::encode_utf8(req.challenge_nonce@),
        bytes_of_hex(req.challenge_signature@),
    )
}

impl FederationState {
    /// Inserts or replaces the record for a peer's key; every other peer is
    /// untouched.
    fn upsert_peer(&mut self, peer: PeerInfo)
        requires
            old(self).wf(),
        ensures
            final(self).wf(),
            final(self).identity == old(self).identity,
            final(self).seen_events@ == old(self).seen_events@,
            final(self).policy == old(self).policy,
            final(self).display_name == old(self).display_name,
            final(self).local_endpoint == old(self).local_endpoint,
            final(self).clock == old(self).clock,
            peers_has(final(self).peers@, peer.public_key@),
            peers_at(final(self).peers@, peer.public_key@) == peer,
            forall|k: Seq<u8>|
                k != peer.public_key@ ==> (peers_has(final(self).peers@, k) == peers_has(
                    old(self).peers@,
                    k,
                ) && (peers_has(old(self).peers@, k) ==> peers_at(final(self).peers@, k)
                    == peers_at(old(self).peers@, k))),
    {
        let ghost s0 = self.peers@;
        let key = peer.public_key;
        match self.find_peer(key.as_slice()) {
            Some(i) => {
                proof {
                    lemma_peers_at_found(s0, i as int);
                }
                self.peers[i] = peer;
                proof {
                    let ghost p = self.peers@[i as int];
                    assert(self.peers@ =~= s0.update(i as int, p));
                    lemma_peers_update(s0, i as int, p, peer.public_key@);
                    assert forall|k: Seq<u8>| k != peer.public_key@ implies (peers_has(
                        self.peers@,
                        k,
                    ) == peers_has(s0, k) && (peers_has(s0, k) ==> peers_at(self.peers@, k)
                        == peers_at(s0, k))) by {
                        lemma_peers_update(s0, i as int, p, k);
                    }
                }
            },
            None => {
                let ghost p = peer;
                self.peers.push(peer);
                proof {
                    assert(self.peers@ =~= s0.push(p));
                    lemma_peers_push(s0, p, p.public_key@);
                    assert forall|k: Seq<u8>| k != p.public_key@ implies (peers_has(
                        self.peers@,
                        k,
                    ) == peers_has(s0, k) && (peers_has(s0, k) ==> peers_at(self.peers@, k)
                        == peers_at(s0, k))) by {
                        lemma_peers_push(s0, p, k);
                    }
                }
            },
        }
    }

    /// Builds a rejection response carrying the reason and our identity.
    fn reject_registration(&self, reason: String) -> (r: PeerRegistrationResponse)
        ensures
            r.accepted == false,
            r.reason matches Some(why) && why@ == reason@,
            r.public_key@ == self.identity.public@,
            r.display_name@ == self.display_name@,
            r.endpoint@ == self.local_endpoint@,
    {
        PeerRegistrationResponse {
            accepted: false,
            reason: Some(reason),
            public_key: self.identity.public_key(),
            display_name: self.display_name.clone(),
            endpoint: self.local_endpoint.clone(),
            challenge_nonce: String::new(),
            challenge_signature: String::new(),
        }
    }

    /// A fresh random challenge nonce: 32 random bytes as 64 hex characters.
    fn generate_challenge_nonce(&self) -> (r: String)
        ensures
            r@.len() == 64,
    {
        let bytes = os_random_bytes(32);
        let r = crate::hex::encode(bytes.as_slice());
        proof {
            crate::hex::lemma_hex_of_len(bytes@);
        }
        r
    }

    /// Handles an incoming registration. The challenge signature is checked
    /// first, then the peer limit; acceptance records the peer online and
    /// answers with our own signed challenge so the requester can register
    /// us in turn.
    pub fn handle_registration(&mut self, req: &PeerRegistrationRequest) -> (r:
        PeerRegistrationResponse)
        requires
            old(self).wf(),
        ensures
            final(self).wf(),
            final(self).identity == old(self).identity,
            final(self).seen_events@ == old(self).seen_events@,
            r.accepted == (challenge_ok(*req) && (old(self).policy.max_peers == 0 || active_count(
                old(self).peers@,
            ) < old(self).policy.max_peers)),
            r.accepted ==> {
                let p = peers_at(final(self).peers@, req.public_key@);
                &&& peer_known(final(self).peers@, req.public_key@)
                &&& p.display_name@ == req.display_name@
                &&& p.endpoint@ == req.endpoint@
                &&& p.initiated_by_us == false
                &&& p.status == PeerStatus::Online
                &&& p.last_synced_seq == 0
            },
            r.accepted ==> forall|k: Seq<u8>|
                k != req.public_key@ && peers_has(old(self).peers@, k) ==> peers_has(
                    final(self).peers@,
                    k,
                ) && peers_at(final(self).peers@, k) == peers_at(old(self).peers@, k),
            !r.accepted ==> final(self).peers@ == old(self).peers@ && (r.reason is Some),
            !is_hex_sig(req.challenge_signature@) ==> (r.reason matches Some(why) && why@
                == "invalid challenge signature format"@),
            is_hex_sig(req.challenge_signature@) && !sig_valid(
                req.public_key@,
                vstd::utf8::encode_utf8(req.challenge_nonce@),
                bytes_of_hex(req.challenge_signature@),
            ) ==> (r.reason matches Some(why) && why@
                == "challenge signature verification failed"@),
            challenge_ok(*req) && !(old(self).policy.max_peers == 0 || active_count(
                old(self).peers@,
            ) < old(self).policy.max_peers) ==> (r.reason matches Some(why) && why@
                == "peer limit reached ("@ + crate::hlc::dec_chars_of(
                active_count(old(self).peers@),
            ) + "/"@ + crate::hlc::dec_chars_of(old(self).policy.max_peers as nat) + ")"@),
            r.public_key@ == old(self).identity.public@,
            r.display_name@ == old(self).display_name@,
            r.endpoint@ == old(self).local_endpoint@,
            r.accepted ==> is_hex_sig(r.challenge_signature@) && sig_valid(
                old(self).identity.public@,
                vstd::utf8::encode_utf8(r.challenge_nonce@),
                bytes_of_hex(r.challenge_signature@),
            ),
    {
        // The challenge signature must be 64 bytes of hex.
        let sig_bytes = match crate::hex::decode(req.challenge_signature.as_str()) {
            Ok(b) => b,
            Err(_) => {
                return self.reject_registration(signature_format_reason());
            },
        };
        if sig_bytes.len() != 64 {
            proof {
                crate::hex::lemma_hex_bytes_len(req.challenge_signature@);
            }
            return self.reject_registration(signature_format_reason());
        }
        proof {
            crate::hex::lemma_hex_bytes_len(req.challenge_signature@);
        }
        let sig = to_array_64(sig_bytes.as_slice());
        // The signature must verify over the nonce text under the claimed key.
        if !verify_signature(&req.public_key, req.challenge_nonce.as_str().as_bytes(), &sig) {
            return self.reject_registration(signature_verify_reason());
        }
        // The active-peer limit must leave room.
        let (active, _) = self.count_peers();
        if self.policy.max_peers > 0 && active >= self.policy.max_peers {
            return self.reject_registration(peer_limit_reason(active, self.policy.max_peers));
        }
        // Record the peer.
        let now_us = now_micros();
        let peer = PeerInfo {
            public_key: req.public_key,
            display_name: req.display_name.clone(),
            endpoint: req.endpoint.clone(),
            registered_at: now_us,
            last_seen_at: now_us,
            last_synced_seq: 0,
            initiated_by_us: false,
            status: PeerStatus::Online,
        };
        self.upsert_peer(peer);
        // Answer with our own signed challenge.
        let our_nonce = self.generate_challenge_nonce();
        let our_sig = self.identity.sign(our_nonce.as_str().as_bytes());
        let sig_hex = crate::hex::encode(our_sig.as_slice());
        proof {
            crate::hex::lemma_hex_of_len(our_sig@);
            crate::hex::lemma_hex_of_digits(our_sig@);
            crate::hex::lemma_bytes_of_hex_of(our_sig@);
        }
        PeerRegistrationResponse {
            accepted: true,
            reason: None,
            public_key: self.identity.public_key(),
            display_name: self.display_name.clone(),
            endpoint: self.local_endpoint.clone(),
            challenge_nonce: our_nonce,
            challenge_signature: sig_hex,
        }
    }

    /// Builds the registration request this node sends to another: its
    /// identity, endpoint and a freshly signed challenge.
    pub fn build_registration_request(&self) -> (r: PeerRegistrationRequest)
        requires
            self.wf(),
        ensures
            r.public_key@ == self.identity.public@,
            r.display_name@ == self.display_name@,
            r.endpoint@ == self.local_endpoint@,
            challenge_ok(r),
    {
        let nonce = self.generate_challenge_nonce();
        let sig = self.identity.sign(nonce.as_str().as_bytes());
        let sig_hex = crate::hex::encode(sig.as_slice());
        proof {
            crate::hex::lemma_hex_of_len(sig@);
            crate::hex::lemma_hex_of_digits(sig@);
            crate::hex::lemma_bytes_of_hex_of(sig@);
        }
        PeerRegistrationRequest {
            public_key: self.identity.public_key(),
            display_name: self.display_name.clone(),
            endpoint: self.local_endpoint.clone(),
            challenge_nonce: nonce,
            challenge_signature: sig_hex,
        }
    }

    /// Processes the answer to a registration we initiated: checks the
    /// responder's challenge signature and records the peer.
    pub fn handle_registration_response(&mut self, resp: &PeerRegistrationResponse) -> (r: Result<
        (),
        String,
    >)
        requires
            old(self).wf(),
        ensures
            final(self).wf(),
            final(self).identity == old(self).identity,
            final(self).seen_events@ == old(self).seen_events@,
            r is Ok <==> (resp.accepted && is_hex_sig(resp.challenge_signature@) && sig_valid(
                resp.public_key@,
                vstd::utf8::encode_utf8(resp.challenge_nonce@),
                bytes_of_hex(resp.challenge_signature@),
            )),
            r is Ok ==> {
                let p = peers_at(final(self).peers@, resp.public_key@);
                &&& peer_known(final(self).peers@, resp.public_key@)
                &&& p.display_name@ == resp.display_name@
                &&& p.endpoint@ == resp.endpoint@
                &&& p.initiated_by_us == true
                &&& p.status == PeerStatus::Online
                &&& p.last_synced_seq == 0
            },
            r is Ok ==> forall|k: Seq<u8>|
                k != resp.public_key@ && peers_has(old(self).peers@, k) ==> peers_has(
                    final(self).peers@,
                    k,
                ) && peers_at(final(self).peers@, k) == peers_at(old(self).peers@, k),
            r is Err ==> final(self).peers@ == old(self).peers@,
    {
        if !resp.accepted {
            let why = match &resp.reason {
                Some(text) => text.clone(),
                None => rejected_reason(),
            };
            return Err(why);
        }
        let sig_bytes = match crate::hex::decode(resp.challenge_signature.as_str()) {
            Ok(b) => b,
            Err(_) => {
                return Err(signature_format_reason());
            },
        };
        if sig_bytes.len() != 64 {
            proof {
                crate::hex::lemma_hex_bytes_len(resp.challenge_signature@);
            }
            return Err(signature_length_reason());
        }
        proof {
            crate::hex::lemma_hex_bytes_len(resp.challenge_signature@);
        }
        let sig = to_array_64(sig_bytes.as_slice());
        if !verify_signature(&resp.public_key, resp.challenge_nonce.as_str().as_bytes(), &sig) {
            return Err(signature_verify_reason());
        }
        let now_us = now_micros();
        let peer = PeerInfo {
            public_key: resp.public_key,
            display_name: resp.display_name.clone(),
            endpoint: resp.endpoint.clone(),
            registered_at: now_us,
            last_seen_at: now_us,
            last_synced_seq: 0,
            initiated_by_us: true,
            status: PeerStatus::Online,
        };
        self.upsert_peer(peer);
        Ok(())
    }
}

/// The rejection text for a malformed challenge signature.
fn signature_format_reason() -> (r: String)
    ensures
        r@ == "invalid challenge signature format"@,
{
    let base = "invalid challenge signature format";
    base.to_owned()
}

/// The rejection text for a failed challenge verification.
fn signature_verify_reason() -> (r: String)
    ensures
        r@ == "challenge signature verification failed"@,
{
    let base = "challenge signature verification failed";
    base.to_owned()
}

/// The error text for a signature of the wrong length.
fn signature_length_reason() -> String {
    let base = "invalid signature length";
    base.to_owned()
}

/// The fallback text for a rejection without a reason.
fn rejected_reason() -> String {
    let base = "registration rejected";
    base.to_owned()
}

/// The rejection text when the peer limit is reached, naming the counts.
fn peer_limit_reason(active: usize, max: usize) -> (r: String)
    ensures
        r@ == "peer limit reached ("@ + crate::hlc::dec_chars_of(active as nat) + "/"@
            + crate::hlc::dec_chars_of(max as nat) + ")"@,
{
    let mut out = String::new();
    out.append("peer limit reached (");
    let active_str = crate::hlc::dec_string(active as u64);
    out.append(active_str.as_str());
    out.append("/");
    let max_str = crate::hlc::dec_string(max as u64);
    out.append(max_str.as_str());
    out.append(")");
    proof {
        assert(out@ =~= "peer limit reached ("@ + crate::hlc::dec_chars_of(active as nat) + "/"@
            + crate::hlc::dec_chars_of(max as nat) + ")"@);
    }
    out
}

} // verus!
