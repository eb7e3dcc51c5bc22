//! The federation push/pull protocol: batched signed events between peers.
//!
//! Each received event is verified, checked against the peer registry,
//! deduplicated by content hash and only then accepted. One bad event never
//! poisons a batch, and a sender's drifting clock is rejected for adoption
//! without rejecting its events.

use vstd::prelude::*;
use crate::crypto::{hash_of, SignedEvent, SignedEventError};
use crate::federation::{
    now_micros, peer_known, peers_at, peers_has, seen_has, FederationState, PeerInfo, PeerStatus,
};
use crate::hex::{bytes_of_hex, hex_of};
use crate::hlc::HlcTimestamp;
use crate::identity::sig_valid;

verus! {

/// A batch of signed events pushed to a peer, with the sender's clock and
/// its head sequence.
#[derive(Debug)]
pub struct EventPushRequest {
    /// The events delivered.
    pub events: Vec<SignedEvent>,
    /// The sender's hybrid logical clock.
    pub sender_hlc: HlcTimestamp,
    /// The sender's latest local sequence number.
    pub sender_head_seq: u64,
}

/// The answer to a push: how many events were accepted, skipped as
/// duplicates, or rejected, with a reason per rejection.
#[derive(Debug)]
pub struct EventPushResponse {
    /// Events newly accepted.
    pub accepted: usize,
    /// Events already seen.
    pub duplicates: usize,
    /// Events rejected.
    pub rejected: usize,
    /// One entry per rejected event.
    pub errors: Vec<SyncError>,
    /// The receiver's clock after processing.
    pub receiver_hlc: HlcTimestamp,
    /// The receiver's head sequence.
    pub receiver_head_seq: u64,
}

/// A request to pull events after a sequence number.
#[derive(Debug)]
pub struct EventPullRequest {
    /// Only events with a later sequence are wanted.
    pub since_seq: u64,
    /// At most this many events.
    pub limit: usize,
    /// The requester's public key as hex, for authorization.
    pub requester_pubkey: String,
}

/// The default number of events a pull returns.
pub fn default_pull_limit() -> (r: usize)
    ensures
        r == 100,
{
    100
}

/// The answer to a pull.
#[derive(Debug)]
pub struct EventPullResponse {
    /// The events after the requested sequence.
    pub events: Vec<SignedEvent>,
    /// The sender's current head sequence.
    pub head_seq: u64,
    /// Whether more events remain.
    pub has_more: bool,
    /// The sender's clock.
    pub sender_hlc: HlcTimestamp,
}

/// Why one event of a batch was rejected.
#[derive(Debug)]
pub struct SyncError {
    /// The event's position in the batch.
    pub index: usize,
    /// The event's content hash as hex.
    pub content_id: String,
    /// The reason.
    pub reason: SyncRejectReason,
}

/// The reasons an event can be rejected during sync.
#[derive(Debug, Clone, Copy, PartialEq, Eq, Structural)]
pub enum SyncRejectReason {
    /// The Ed25519 signature did not verify.
    InvalidSignature,
    /// The content hash did not match the event bytes.
    ContentHashMismatch,
    /// The event came from an unregistered peer.
    UnknownPeer,
    /// The sender's clock was too far ahead.
    ExcessiveDrift,
    /// The event bytes were empty or malformed.
    MalformedEvent,
}

/// Why an event is rejected regardless of the dedup cache, or nothing when
/// it passes the checks: empty bytes first, then integrity, then the origin
/// against the registry.
pub open spec fn reject_reason(ev: SignedEvent, peers: Seq<PeerInfo>) -> Option<SyncRejectReason> {
    if ev.event_bytes@.len() == 0 {
        Some(SyncRejectReason::MalformedEvent)
    } else if ev.content_id@ != hash_of(ev.event_bytes@) {
        Some(SyncRejectReason::ContentHashMismatch)
    } else if !sig_valid(ev.origin_pubkey@, ev.event_bytes@, ev.signature@) {
        Some(SyncRejectReason::InvalidSignature)
    } else if !peer_known(peers, ev.origin_pubkey@) {
        Some(SyncRejectReason::UnknownPeer)
    } else {
        None
    }
}

/// The accepted, duplicate and rejected counts of a batch against a registry
/// and an initial set of seen hashes: rejections never enter the cache, and
/// an accepted event's hash dedups the rest of the batch.
/// The seen-set after one event: an accepted event's hash joins it.
pub open spec fn step_seen(ev: SignedEvent, peers: Seq<PeerInfo>, seen: Set<Seq<char>>) -> Set<
    Seq<char>,
> {
    let hash_hex = hex_of(ev.content_id@);
    if reject_reason(ev, peers) is None && !seen.contains(hash_hex) {
        seen.insert(hash_hex)
    } else {
        seen
    }
}

pub open spec fn push_counts(
    events: Seq<SignedEvent>,
    peers: Seq<PeerInfo>,
    seen: Set<Seq<char>>,
) -> (nat, nat, nat)
    decreases events.len(),
{
    if events.len() == 0 {
        (0nat, 0nat, 0nat)
    } else {
        let ev = events[0];
        let hash_hex = hex_of(ev.content_id@);
        let rest = push_counts(events.drop_first(), peers, step_seen(ev, peers, seen));
        if reject_reason(ev, peers) is Some {
            (rest.0, rest.1, (rest.2 + 1) as nat)
        } else if seen.contains(hash_hex) {
            (rest.0, (rest.1 + 1) as nat, rest.2)
        } else {
            ((rest.0 + 1) as nat, rest.1, rest.2)
        }
    }
}

/// Counting a batch one event longer adds that event's own outcome, taken
/// against the seen-set the prefix built.
proof fn lemma_push_counts_snoc(
    events: Seq<SignedEvent>,
    i: int,
    peers: Seq<PeerInfo>,
    seen: Set<Seq<char>>,
)
    requires
        0 <= i < events.len(),
    ensures
        ({
            let prefix = push_counts(events.take(i), peers, seen);
            let seen_i = push_seen(events.take(i), peers, seen);
            let ev = events[i];
            let hash_hex = hex_of(ev.content_id@);
            push_counts(events.take(i + 1), peers, seen) == if reject_reason(ev, peers) is Some {
                ((prefix.0) as nat, (prefix.1) as nat, (prefix.2 + 1) as nat)
            } else if seen_i.contains(hash_hex) {
                ((prefix.0) as nat, (prefix.1 + 1) as nat, (prefix.2) as nat)
            } else {
                ((prefix.0 + 1) as nat, (prefix.1) as nat, (prefix.2) as nat)
            }
        }),
        push_seen(events.take(i + 1), peers, seen) == step_seen(
            events[i],
            peers,
            push_seen(events.take(i), peers, seen),
        ),
    decreases i,
{
    if i == 0 {
        assert(events.take(1)[0] == events[0]);
        assert(events.take(1).drop_first() =~= events.take(0));
        assert(events.take(0).len() == 0);
        assert(push_counts(events.take(0), peers, seen) == (0nat, 0nat, 0nat));
        assert(push_seen(events.take(0), peers, seen) == seen);
        assert(push_counts(events.take(1), peers, seen) == {
            let ev = events.take(1)[0];
            let hash_hex = hex_of(ev.content_id@);
            let rest = push_counts(
                events.take(1).drop_first(),
                peers,
                step_seen(ev, peers, seen),
            );
            if reject_reason(ev, peers) is Some {
                (rest.0, rest.1, (rest.2 + 1) as nat)
            } else if seen.contains(hash_hex) {
                (rest.0, (rest.1 + 1) as nat, rest.2)
            } else {
                ((rest.0 + 1) as nat, rest.1, rest.2)
            }
        });
        assert(push_counts(events.take(0), peers, step_seen(events[0], peers, seen)) == (
            0nat,
            0nat,
            0nat,
        ));
        assert(push_seen(events.take(1), peers, seen) == push_seen(
            events.take(0),
            peers,
            step_seen(events[0], peers, seen),
        ));
    } else {
        assert(events.take(i + 1)[0] == events[0]);
        assert(events.take(i)[0] == events[0]);
        assert(events.take(i + 1).drop_first() =~= events.drop_first().take(i));
        assert(events.take(i).drop_first() =~= events.drop_first().take(i - 1));
        assert(events.drop_first()[i - 1] == events[i]);
        let ev0 = events[0];
        let hash0 = hex_of(ev0.content_id@);
        if reject_reason(ev0, peers) is Some {
            lemma_push_counts_snoc(events.drop_first(), i - 1, peers, seen);
        } else if seen.contains(hash0) {
            lemma_push_counts_snoc(events.drop_first(), i - 1, peers, seen);
        } else {
            lemma_push_counts_snoc(events.drop_first(), i - 1, peers, seen.insert(hash0));
        }
    }
}

/// The set of seen hashes after a batch: the initial set plus the hashes of
/// the accepted events.
pub open spec fn push_seen(
    events: Seq<SignedEvent>,
    peers: Seq<PeerInfo>,
    seen: Set<Seq<char>>,
) -> Set<Seq<char>>
    decreases events.len(),
{
    if events.len() == 0 {
        seen
    } else {
        push_seen(events.drop_first(), peers, step_seen(events[0], peers, seen))
    }
}

/// The set of hashes a federation state has seen.
pub open spec fn state_seen(st: FederationState) -> Set<Seq<char>> {
    Set::new(|k: Seq<char>| seen_has(st.seen_events@, k))
}

/// Processes a pushed batch. Each event is checked in order: empty bytes,
/// content hash, signature, known origin, then deduplication; a failure of
/// one event never blocks the others. The sender's clock is adopted when it
/// is within drift, and the response carries this node's clock afterward.
pub fn process_push(federation: &mut FederationState, request: &EventPushRequest) -> (r:
    EventPushResponse)
    requires
        old(federation).wf(),
    ensures
        final(federation).wf(),
        final(federation).identity == old(federation).identity,
        ({
            let counts = push_counts(
                request.events@,
                old(federation).peers@,
                state_seen(*old(federation)),
            );
            r.accepted == counts.0 && r.duplicates == counts.1 && r.rejected == counts.2
        }),
        r.errors@.len() == r.rejected,
        forall|j: int|
            0 <= j < r.errors@.len() ==> {
                let e = #[trigger] r.errors@[j];
                &&& e.index < request.events@.len()
                &&& reject_reason(request.events@[e.index as int], old(federation).peers@)
                    == Some(e.reason)
                &&& e.content_id@ == hex_of(request.events@[e.index as int].content_id@)
            },
        r.receiver_hlc == final(federation).clock.state,
        final(federation).clock.state.node_id == old(federation).clock.state.node_id,
        old(federation).clock.state.counter < u32::MAX ==> crate::hlc::hlc_lt(
            old(federation).clock.state,
            r.receiver_hlc,
        ),
        r.receiver_head_seq == 0,
        state_seen(*final(federation)) == push_seen(
            request.events@,
            old(federation).peers@,
            state_seen(*old(federation)),
        ),
        push_counts(request.events@, old(federation).peers@, state_seen(*old(federation))).0 == 0
            ==> final(federation).peers@ == old(federation).peers@,
        forall|k: Seq<u8>|
            peers_has(final(federation).peers@, k) == peers_has(old(federation).peers@, k),
        forall|k: Seq<u8>|
            peer_known(final(federation).peers@, k) == peer_known(old(federation).peers@, k),
        forall|k: Seq<u8>| #[trigger]
            peers_has(old(federation).peers@, k) ==> {
                let old_p = peers_at(old(federation).peers@, k);
                let new_p = peers_at(final(federation).peers@, k);
                &&& new_p.public_key@ == old_p.public_key@
                &&& new_p.display_name@ == old_p.display_name@
                &&& new_p.endpoint@ == old_p.endpoint@
                &&& new_p.registered_at == old_p.registered_at
                &&& new_p.initiated_by_us == old_p.initiated_by_us
                &&& new_p.last_synced_seq == old_p.last_synced_seq
                &&& (new_p.status == old_p.status || new_p.status == PeerStatus::Online)
            },
        forall|k: Seq<char>|
            seen_has(old(federation).seen_events@, k) ==> seen_has(
                final(federation).seen_events@,
                k,
            ),
{
    // Adopt the sender's clock when it is sane and within drift; a drifting
    // clock rejects adoption only, never the events.
    if request.sender_hlc.counter < u32::MAX && federation.clock.state.counter < u32::MAX {
        let _ = federation.clock.receive(&request.sender_hlc);
    }
    let ghost clock_mid = federation.clock.state;
    let ghost peers0 = federation.peers@;
    let ghost seen0 = state_seen(*federation);
    proof {
        assert(state_seen(*federation) =~= state_seen(*old(federation)));
        assert(clock_mid == old(federation).clock.state || crate::hlc::hlc_lt(
            old(federation).clock.state,
            clock_mid,
        ));
        assert(clock_mid.node_id == old(federation).clock.state.node_id);
    }
    let n = request.events.len();
    let mut accepted: usize = 0;
    let mut duplicates: usize = 0;
    let mut rejected: usize = 0;
    let mut errors: Vec<SyncError> = Vec::new();
    let mut i: usize = 0;
    proof {
        assert(request.events@.take(0).len() == 0);
        assert(push_seen(request.events@.take(0), peers0, seen0) =~= seen0);
    }
    while i < n
        invariant
            n == request.events@.len(),
            i <= n,
            federation.wf(),
            federation.identity == old(federation).identity,
            accepted <= i && duplicates <= i && rejected <= i,
            ({
                let counts = push_counts(request.events@.take(i as int), peers0, seen0);
                accepted == counts.0 && duplicates == counts.1 && rejected == counts.2
            }),
            state_seen(*federation) == push_seen(request.events@.take(i as int), peers0, seen0),
            errors@.len() == rejected,
            forall|j: int|
                0 <= j < errors@.len() ==> {
                    let e = #[trigger] errors@[j];
                    &&& e.index < request.events@.len()
                    &&& reject_reason(request.events@[e.index as int], peers0) == Some(e.reason)
                    &&& e.content_id@ == hex_of(request.events@[e.index as int].content_id@)
                },
            federation.clock.state == clock_mid,
            accepted == 0 ==> federation.peers@ == peers0,
            forall|k: Seq<u8>| peers_has(federation.peers@, k) == peers_has(peers0, k),
            forall|k: Seq<u8>| peer_known(federation.peers@, k) == peer_known(peers0, k),
            forall|k: Seq<u8>| #[trigger]
                peers_has(peers0, k) ==> {
                    let old_p = peers_at(peers0, k);
                    let new_p = peers_at(federation.peers@, k);
                    &&& new_p.public_key@ == old_p.public_key@
                    &&& new_p.display_name@ == old_p.display_name@
                    &&& new_p.endpoint@ == old_p.endpoint@
                    &&& new_p.registered_at == old_p.registered_at
                    &&& new_p.initiated_by_us == old_p.initiated_by_us
                    &&& new_p.last_synced_seq == old_p.last_synced_seq
                    &&& (new_p.status == old_p.status || new_p.status == PeerStatus::Online)
                },
            forall|k: Seq<char>|
                seen_has(old(federation).seen_events@, k) ==> seen_has(
                    federation.seen_events@,
                    k,
                ),
        decreases n - i,
    {
        proof {
            lemma_push_counts_snoc(request.events@, i as int, peers0, seen0);
        }
        let event = &request.events[i];
        let content_id_hex = event.content_id_hex();
        let ghost ev = request.events@[i as int];
        // Empty bytes are malformed.
        if event.event_bytes.len() == 0 {
            errors.push(
                SyncError {
                    index: i,
                    content_id: content_id_hex,
                    reason: SyncRejectReason::MalformedEvent,
                },
            );
            rejected = rejected + 1;
            i = i + 1;
            continue ;
        }
        // Content hash, then signature.
        match event.verify() {
            Ok(_) => {
            },
            Err(e) => {
                let reason = match e {
                    SignedEventError::InvalidSignature => SyncRejectReason::InvalidSignature,
                    SignedEventError::ContentHashMismatch => SyncRejectReason::ContentHashMismatch,
                };
                errors.push(SyncError { index: i, content_id: content_id_hex, reason });
                rejected = rejected + 1;
                i = i + 1;
                continue ;
            },
        }
        // The origin must be a registered, non-removed peer.
        if !federation.is_known_peer(&event.origin_pubkey) {
            errors.push(
                SyncError {
                    index: i,
                    content_id: content_id_hex,
                    reason: SyncRejectReason::UnknownPeer,
                },
            );
            rejected = rejected + 1;
            i = i + 1;
            continue ;
        }
        // Deduplicate by content hash.
        if !federation.is_new_event(content_id_hex.as_str()) {
            duplicates = duplicates + 1;
            i = i + 1;
            continue ;
        }
        // Accept: remember the hash and mark the origin alive.
        let ghost seen_before = federation.seen_events@;
        federation.mark_event_seen(content_id_hex);
        let origin_hex = event.origin_pubkey_hex();
        proof {
            crate::hex::lemma_hex_of_digits(ev.origin_pubkey@);
            crate::hex::lemma_hex_of_len(ev.origin_pubkey@);
            crate::hex::lemma_bytes_of_hex_of(ev.origin_pubkey@);
        }
        let ghost peers_before_touch = federation.peers@;
        federation.touch_peer(origin_hex.as_str());
        accepted = accepted + 1;
        proof {
            assert(state_seen(*federation) =~= push_seen(
                request.events@.take(i + 1),
                peers0,
                seen0,
            ));
            assert(bytes_of_hex(origin_hex@) == ev.origin_pubkey@);
            assert forall|k: Seq<u8>| peer_known(federation.peers@, k) == peer_known(
                peers0,
                k,
            ) by {
                if k == ev.origin_pubkey@ {
                    assert(peer_known(peers_before_touch, k));
                    assert(peers_at(federation.peers@, k).status == PeerStatus::Online);
                } else {
                    if peers_has(peers_before_touch, k) {
                        assert(peers_at(federation.peers@, k) == peers_at(
                            peers_before_touch,
                            k,
                        ));
                    }
                }
            }
            assert forall|k: Seq<u8>| #[trigger]
                peers_has(peers0, k) implies {
                let old_p = peers_at(peers0, k);
                let new_p = peers_at(federation.peers@, k);
                &&& new_p.public_key@ == old_p.public_key@
                &&& new_p.display_name@ == old_p.display_name@
                &&& new_p.endpoint@ == old_p.endpoint@
                &&& new_p.registered_at == old_p.registered_at
                &&& new_p.initiated_by_us == old_p.initiated_by_us
                &&& new_p.last_synced_seq == old_p.last_synced_seq
                &&& (new_p.status == old_p.status || new_p.status == PeerStatus::Online)
            } by {
                if k == ev.origin_pubkey@ {
                } else {
                    assert(peers_at(federation.peers@, k) == peers_at(peers_before_touch, k));
                }
            }
        }
        i = i + 1;
    }
    proof {
        assert(request.events@.take(n as int) =~= request.events@);
    }
    // Stamp the response with this node's clock, advanced for the reply.
    let receiver_hlc = if federation.clock.state.counter < u32::MAX {
        federation.clock.tick()
    } else {
        federation.clock.now()
    };
    proof {
        if old(federation).clock.state.counter < u32::MAX {
            if clock_mid == old(federation).clock.state {
                assert(crate::hlc::hlc_lt(old(federation).clock.state, receiver_hlc));
            } else {
                if crate::hlc::hlc_lt(clock_mid, receiver_hlc) {
                    crate::hlc::lemma_hlc_lt_transitive(
                        old(federation).clock.state,
                        clock_mid,
                        receiver_hlc,
                    );
                }
            }
        }
    }
    EventPushResponse {
        accepted,
        duplicates,
        rejected,
        errors,
        receiver_hlc,
        receiver_head_seq: 0,
    }
}

/// The peers a fan-out reaches: exactly the registered peers that are not
/// removed. Push and pull both skip removed peers.
pub fn fanout_peers(federation: &FederationState) -> (r: Vec<PeerInfo>)
    requires
        federation.wf(),
    ensures
        forall|i: int| 0 <= i < r@.len() ==> (#[trigger] r@[i]).status != PeerStatus::Removed,
        forall|i: int|
            0 <= i < r@.len() ==> peer_known(federation.peers@, (#[trigger] r@[i]).public_key@),
        forall|j: int|
            0 <= j < federation.peers@.len() && (#[trigger] federation.peers@[j]).status
                != PeerStatus::Removed ==> peers_has(r@, federation.peers@[j].public_key@),
{
    federation.list_peers()
}

/// Builds the push request for a batch: the events, this node's clock
/// stamped once for the whole fan-out, and its head sequence.
pub fn build_push_request(
    federation: &mut FederationState,
    events: Vec<SignedEvent>,
    head_seq: u64,
) -> (r: EventPushRequest)
    requires
        old(federation).wf(),
    ensures
        final(federation).wf(),
        final(federation).identity == old(federation).identity,
        final(federation).peers@ == old(federation).peers@,
        final(federation).seen_events@ == old(federation).seen_events@,
        r.events@ == events@,
        r.sender_hlc == final(federation).clock.state,
        r.sender_head_seq == head_seq,
{
    let sender_hlc = if federation.clock.state.counter < u32::MAX {
        federation.clock.tick()
    } else {
        federation.clock.now()
    };
    EventPushRequest { events, sender_hlc, sender_head_seq: head_seq }
}


/// Serves a pull: the requester must be a known (non-removed) peer, named by
/// its hex public key; an unknown requester is refused and nothing changes.
/// A served peer is touched, and the response carries the given page of the
/// local event log with this node's clock, advanced for the reply.
pub fn handle_pull(
    federation: &mut FederationState,
    request: &EventPullRequest,
    events: Vec<SignedEvent>,
    head_seq: u64,
    has_more: bool,
) -> (r: Result<EventPullResponse, SyncRejectReason>)
    requires
        old(federation).wf(),
    ensures
        final(federation).wf(),
        final(federation).identity == old(federation).identity,
        final(federation).seen_events@ == old(federation).seen_events@,
        final(federation).policy == old(federation).policy,
        r is Ok <==> (request.requester_pubkey@.len() == 64 && (forall|i: int|
            0 <= i < request.requester_pubkey@.len() ==> crate::hex::is_hex_digit(
                #[trigger] request.requester_pubkey@[i],
            )) && peer_known(
            old(federation).peers@,
            bytes_of_hex(request.requester_pubkey@),
        )),
        match r {
            Ok(resp) => {
                &&& resp.events == events
                &&& resp.head_seq == head_seq
                &&& resp.has_more == has_more
                &&& resp.sender_hlc == final(federation).clock.state
                &&& peers_at(
                    final(federation).peers@,
                    bytes_of_hex(request.requester_pubkey@),
                ).status == PeerStatus::Online
                &&& forall|k: Seq<u8>|
                    k != bytes_of_hex(request.requester_pubkey@) && peers_has(
                        old(federation).peers@,
                        k,
                    ) ==> peers_at(final(federation).peers@, k) == peers_at(
                        old(federation).peers@,
                        k,
                    )
            },
            Err(reason) => {
                &&& reason == SyncRejectReason::UnknownPeer
                &&& final(federation).peers@ == old(federation).peers@
                &&& final(federation).clock == old(federation).clock
            },
        },
{
    let key = match crate::hex::decode(request.requester_pubkey.as_str()) {
        Ok(k) => k,
        Err(_) => {
            return Err(SyncRejectReason::UnknownPeer);
        },
    };
    if key.len() != 32 {
        proof {
            crate::hex::lemma_hex_bytes_len(request.requester_pubkey@);
        }
        return Err(SyncRejectReason::UnknownPeer);
    }
    proof {
        crate::hex::lemma_hex_bytes_len(request.requester_pubkey@);
    }
    let requester = crate::bytesutil::to_array_32(key.as_slice());
    if !federation.is_known_peer(&requester) {
        return Err(SyncRejectReason::UnknownPeer);
    }
    federation.touch_peer(request.requester_pubkey.as_str());
    let sender_hlc = if federation.clock.state.counter < u32::MAX {
        federation.clock.tick()
    } else {
        federation.clock.now()
    };
    Ok(EventPullResponse { events, head_seq, has_more, sender_hlc })
}

/// Builds the pull request this node sends to one peer: resume after the
/// last sequence the peer is known to have sent us, identified by our key.
pub fn build_pull_request(federation: &FederationState, peer: &PeerInfo, limit: usize) -> (r:
    EventPullRequest)
    requires
        federation.wf(),
    ensures
        r.since_seq == peer.last_synced_seq,
        r.limit == limit,
        r.requester_pubkey@ == hex_of(federation.identity.public@),
{
    EventPullRequest {
        since_seq: peer.last_synced_seq,
        limit,
        requester_pubkey: federation.identity.public_key_hex(),
    }
}

/// Ingests one peer's pull response: the events run through the same
/// pipeline as a push, and on success the per-peer cursor advances to the
/// peer's head sequence. Returns the pipeline's outcome.
pub fn ingest_pull_response(
    federation: &mut FederationState,
    peer_pubkey_hex: &str,
    response: EventPullResponse,
) -> (r: EventPushResponse)
    requires
        old(federation).wf(),
    ensures
        final(federation).wf(),
        final(federation).identity == old(federation).identity,
        ({
            let counts = push_counts(
                response.events@,
                old(federation).peers@,
                state_seen(*old(federation)),
            );
            r.accepted == counts.0 && r.duplicates == counts.1 && r.rejected == counts.2
        }),
        forall|k: Seq<u8>|
            peers_has(final(federation).peers@, k) == peers_has(old(federation).peers@, k),
        peers_has(old(federation).peers@, bytes_of_hex(peer_pubkey_hex@))
            && peer_pubkey_hex@.len() == 64 && (forall|i: int|
            0 <= i < peer_pubkey_hex@.len() ==> crate::hex::is_hex_digit(
                #[trigger] peer_pubkey_hex@[i],
            )) ==> peers_at(
            final(federation).peers@,
            bytes_of_hex(peer_pubkey_hex@),
        ).last_synced_seq == response.head_seq,
{
    let push_request = EventPushRequest {
        events: response.events,
        sender_hlc: response.sender_hlc,
        sender_head_seq: response.head_seq,
    };
    let outcome = process_push(federation, &push_request);
    let ghost peers_mid = federation.peers@;
    federation.update_peer_sync_seq(peer_pubkey_hex, response.head_seq);
    proof {
        assert forall|k: Seq<u8>|
            peers_has(federation.peers@, k) == peers_has(old(federation).peers@, k) by {
            assert(peers_has(federation.peers@, k) == peers_has(peers_mid, k));
            assert(peers_has(peers_mid, k) == peers_has(old(federation).peers@, k));
        }
    }
    outcome
}

} // verus!
