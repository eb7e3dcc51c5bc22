//! The sync engine: layered replication without full copies.
//!
//! Private messages never sync; shared messages queue per explicit peer;
//! federated messages queue for TTL-limited gossip. Incoming messages are
//! deduplicated by id, and their vector clocks merge into ours.

use vstd::prelude::*;
use crate::identity::NodeId;
use crate::message::{
    envelope_eq, DataLayer, MessageEnvelope, MessageId, MessagePayload,
};
use crate::vclock::{max64, VectorClock};

verus! {

/// Whether an id list mentions an id.
pub open spec fn has_id(s: Seq<MessageId>, id: Seq<u8>) -> bool {
    exists|i: int| 0 <= i < s.len() && (#[trigger] s[i])@ == id
}

/// Sync bookkeeping for one peer.
#[derive(Debug)]
pub struct PeerSyncState {
    /// The peer.
    pub peer_id: NodeId,
    /// Our clock as of the last sync with this peer.
    pub our_clock: VectorClock,
    /// The peer's clock as of the last sync.
    pub their_clock: VectorClock,
    /// Ids sent but not yet acknowledged.
    pub pending_acks: Vec<MessageId>,
    /// Seconds since the epoch of the last sync.
    pub last_sync: u64,
    /// Whether syncing with this peer is enabled.
    pub enabled: bool,
}

impl PeerSyncState {
    /// Fresh bookkeeping for a peer: empty clocks, nothing pending.
    pub fn new(peer_id: NodeId) -> (r: PeerSyncState)
        ensures
            r.peer_id@ == peer_id@,
            r.our_clock.clocks@.len() == 0,
            r.their_clock.clocks@.len() == 0,
            r.pending_acks@.len() == 0,
            r.last_sync == 0,
            r.enabled == true,
    {
        PeerSyncState {
            peer_id,
            our_clock: VectorClock::new(),
            their_clock: VectorClock::new(),
            pending_acks: Vec::new(),
            last_sync: 0,
            enabled: true,
        }
    }

    /// Records a completed sync: adopts the peer's clock and stamps the time.
    pub fn record_sync(&mut self, their_clock: VectorClock)
        ensures
            final(self).their_clock == their_clock,
            final(self).peer_id == old(self).peer_id,
            final(self).our_clock == old(self).our_clock,
            final(self).pending_acks@ == old(self).pending_acks@,
            final(self).enabled == old(self).enabled,
    {
        self.their_clock = their_clock;
        self.last_sync = crate::identity::now_seconds();
    }
}

/// Tuning for the sync engine.
#[derive(Debug, Clone, Copy, PartialEq, Eq, Structural)]
pub struct SyncConfig {
    /// TTL given to federated messages that carry none.
    pub default_ttl: u8,
    /// The most message ids kept for deduplication.
    pub max_seen_messages: usize,
    /// The most messages held per outbound queue.
    pub max_outbound_queue: usize,
    /// Seconds before an unacknowledged send is given up.
    pub ack_timeout_secs: u64,
}

impl Default for SyncConfig {
    /// The default tuning: three gossip hops, ten thousand remembered ids,
    /// a thousand queued messages, a minute of ack patience.
    fn default() -> (r: SyncConfig)
        ensures
            r.default_ttl == 3,
            r.max_seen_messages == 10000,
            r.max_outbound_queue == 1000,
            r.ack_timeout_secs == 60,
    {
        SyncConfig {
            default_ttl: 3,
            max_seen_messages: 10000,
            max_outbound_queue: 1000,
            ack_timeout_secs: 60,
        }
    }
}

/// What to do with an incoming message.
#[derive(Debug, Clone, Copy, PartialEq, Eq, Structural)]
pub enum SyncDecision {
    /// The message was seen before; ignore it.
    AlreadySeen,
    /// Handle the message.
    Process {
        /// Whether to gossip it on.
        should_forward: bool,
    },
}

/// Ranges of sequence numbers a peer is missing.
#[derive(Debug)]
pub struct WhatsNew {
    /// Per origin: the first and last missing sequence numbers, inclusive.
    pub ranges: Vec<(NodeId, u64, u64)>,
    /// Our clock now.
    pub current_clock: VectorClock,
}

/// The saturating total of the range sizes.
pub open spec fn spec_total_new(ranges: Seq<(NodeId, u64, u64)>) -> nat
    decreases ranges.len(),
{
    if ranges.len() == 0 {
        0
    } else {
        let head = ranges[0];
        (if head.2 >= head.1 {
            (head.2 - head.1 + 1) as nat
        } else {
            0nat
        }) + spec_total_new(ranges.drop_first())
    }
}

impl WhatsNew {
    /// Whether anything is missing.
    pub fn has_updates(&self) -> (r: bool)
        ensures
            r == (self.ranges@.len() > 0),
    {
        self.ranges.len() > 0
    }

    /// An upper bound on the number of missing messages, capped at the
    /// largest representable count.
    pub fn total_new(&self) -> (r: u64)
        ensures
            spec_total_new(self.ranges@) <= u64::MAX ==> r == spec_total_new(self.ranges@),
            spec_total_new(self.ranges@) > u64::MAX ==> r == u64::MAX,
    {
        let n = self.ranges.len();
        let mut total: u64 = 0;
        let mut i: usize = 0;
        let ghost full = spec_total_new(self.ranges@);
        proof {
            assert(self.ranges@.skip(0) =~= self.ranges@);
        }
        let mut saturated = false;
        while i < n
            invariant
                n == self.ranges@.len(),
                i <= n,
                !saturated ==> total + spec_total_new(self.ranges@.skip(i as int)) == full,
                saturated ==> total == u64::MAX && full > u64::MAX,
            decreases n - i,
        {
            proof {
                assert(self.ranges@.skip(i as int)[0] == self.ranges@[i as int]);
                assert(self.ranges@.skip(i as int).drop_first() =~= self.ranges@.skip(i + 1));
            }
            let (_, from, to) = self.ranges[i];
            let size: u64 = if to >= from {
                if to - from < u64::MAX {
                    to - from + 1
                } else {
                    u64::MAX
                }
            } else {
                0
            };
            if !saturated {
                if to >= from && to - from == u64::MAX {
                    total = u64::MAX;
                    saturated = true;
                } else if total as u128 + size as u128 > u64::MAX as u128 {
                    total = u64::MAX;
                    saturated = true;
                } else {
                    total = total + size;
                }
            }
            i = i + 1;
        }
        proof {
            assert(self.ranges@.skip(n as int).len() == 0);
        }
        total
    }
}

/// Failures of the sync protocol.
#[derive(Debug)]
pub enum SyncError {
    /// The named peer is not registered for sync.
    PeerNotFound(NodeId),
    /// The other side rejected the sync, with its reason.
    Rejected(String),
    /// The clocks disagree irreconcilably.
    ClockMismatch,
    /// The message predates what the peer retains.
    MessageTooOld,
    /// The peer asked us to slow down.
    RateLimited,
}

/// How the per-recipient queues change when a direct message for `to` is
/// enqueued: an existing queue for the recipient grows by the message unless
/// it is full, a missing queue is created with just the message, and every
/// other queue is untouched.
pub open spec fn shared_queues_after(
    before: Seq<(NodeId, Vec<MessageEnvelope>)>,
    after: Seq<(NodeId, Vec<MessageEnvelope>)>,
    to: Seq<u8>,
    env: MessageEnvelope,
    max: usize,
) -> bool {
    if exists|j: int| 0 <= j < before.len() && (#[trigger] before[j]).0@ == to {
        &&& after.len() == before.len()
        &&& exists|j: int|
            0 <= j < before.len() && (#[trigger] before[j]).0@ == to && (forall|x: int|
                0 <= x < before.len() && x != j ==> after[x] == before[x]) && after[j].0
                == before[j].0 && (before[j].1@.len() < max ==> after[j].1@.len()
                == before[j].1@.len() + 1 && after[j].1@.take(before[j].1@.len() as int)
                == before[j].1@ && envelope_eq(after[j].1@[after[j].1@.len() - 1], env)) && (
            before[j].1@.len() >= max ==> after[j].1@ == before[j].1@)
    } else {
        &&& after.len() == before.len() + 1
        &&& after.take(before.len() as int) == before
        &&& after[after.len() - 1].0@ == to
        &&& after[after.len() - 1].1@.len() == 1
        &&& envelope_eq(after[after.len() - 1].1@[0], env)
    }
}

/// The sync engine of one node: its vector clock, per-peer bookkeeping, the
/// dedup set and the outbound queues.
pub struct SyncManager {
    /// This node.
    pub node_id: NodeId,
    /// This node's vector clock.
    pub clock: VectorClock,
    /// Bookkeeping per sync peer.
    pub peers: Vec<PeerSyncState>,
    /// Ids of messages already processed, oldest first.
    pub seen_messages: Vec<MessageId>,
    /// Federated messages awaiting gossip, in enqueue order.
    pub outbound_federated: Vec<MessageEnvelope>,
    /// Shared messages awaiting their recipient, per recipient.
    pub outbound_shared: Vec<(NodeId, Vec<MessageEnvelope>)>,
    /// Tuning.
    pub config: SyncConfig,
}

impl SyncManager {
    /// The engine's clock is well formed.
    pub open spec fn wf(self) -> bool {
        self.clock.wf()
    }

    /// An engine with default tuning.
    pub fn new(node_id: NodeId) -> (r: SyncManager)
        ensures
            r.wf(),
            r.node_id@ == node_id@,
            r.config == (SyncConfig {
                default_ttl: 3u8,
                max_seen_messages: 10000usize,
                max_outbound_queue: 1000usize,
                ack_timeout_secs: 60u64,
            }),
            forall|k: Seq<u8>| #[trigger] r.clock.spec_get(k) == 0,
            r.seen_messages@.len() == 0,
            r.outbound_federated@.len() == 0,
            r.outbound_shared@.len() == 0,
    {
        let config = SyncConfig {
            default_ttl: 3,
            max_seen_messages: 10000,
            max_outbound_queue: 1000,
            ack_timeout_secs: 60,
        };
        SyncManager::with_config(node_id, config)
    }

    /// An engine with the given tuning.
    pub fn with_config(node_id: NodeId, config: SyncConfig) -> (r: SyncManager)
        ensures
            r.wf(),
            r.node_id@ == node_id@,
            r.config == config,
            forall|k: Seq<u8>| #[trigger] r.clock.spec_get(k) == 0,
            r.seen_messages@.len() == 0,
            r.outbound_federated@.len() == 0,
            r.outbound_shared@.len() == 0,
    {
        SyncManager {
            node_id,
            clock: VectorClock::new(),
            peers: Vec::new(),
            seen_messages: Vec::new(),
            outbound_federated: Vec::new(),
            outbound_shared: Vec::new(),
            config,
        }
    }

    /// A copy of the current clock.
    pub fn clock(&self) -> (r: VectorClock)
        ensures
            r.clocks@ == self.clock.clocks@,
    {
        self.clock.clone()
    }

    /// Advances our own component and returns a copy of the clock.
    pub fn tick(&mut self) -> (r: VectorClock)
        requires
            old(self).wf(),
            old(self).clock.spec_get(old(self).node_id@) < u64::MAX,
        ensures
            final(self).wf(),
            final(self).node_id == old(self).node_id,
            final(self).clock.spec_get(old(self).node_id@) == old(self).clock.spec_get(
                old(self).node_id@,
            ) + 1,
            forall|k: Seq<u8>|
                k != old(self).node_id@ ==> #[trigger] final(self).clock.spec_get(k)
                    == old(self).clock.spec_get(k),
            r.clocks@ == final(self).clock.clocks@,
            final(self).seen_messages@ == old(self).seen_messages@,
            final(self).outbound_federated@ == old(self).outbound_federated@,
            final(self).outbound_shared@ == old(self).outbound_shared@,
            final(self).config == old(self).config,
    {
        let node = self.node_id;
        self.clock.increment(node);
        self.clock.clone()
    }

    /// Merges a received clock into ours, componentwise maximum.
    pub fn merge_clock(&mut self, received: &VectorClock)
        requires
            old(self).wf(),
            received.wf(),
        ensures
            final(self).wf(),
            final(self).node_id == old(self).node_id,
            forall|k: Seq<u8>| #[trigger]
                final(self).clock.spec_get(k) == max64(
                    old(self).clock.spec_get(k),
                    received.spec_get(k),
                ),
            final(self).seen_messages@ == old(self).seen_messages@,
            final(self).outbound_federated@ == old(self).outbound_federated@,
            final(self).outbound_shared@ == old(self).outbound_shared@,
            final(self).config == old(self).config,
    {
        self.clock.merge(received);
    }

    /// Whether a message id was seen before.
    fn is_seen(&self, id: &MessageId) -> (r: bool)
        ensures
            r == has_id(self.seen_messages@, id@),
    {
        let n = self.seen_messages.len();
        let mut i: usize = 0;
        while i < n
            invariant
                n == self.seen_messages@.len(),
                i <= n,
                forall|j: int| 0 <= j < i ==> (#[trigger] self.seen_messages@[j])@ != id@,
            decreases n - i,
        {
            if self.seen_messages[i] == *id {
                return true;
            }
            i = i + 1;
        }
        false
    }

    /// Decides an incoming message. A message seen before answers
    /// `AlreadySeen` and changes nothing; a fresh one is remembered, its
    /// clock merges into ours, and it is forwarded exactly when it is
    /// federated with hops left. When the dedup set outgrows its bound, its
    /// older half is evicted.
    pub fn process_incoming(&mut self, msg: &MessageEnvelope) -> (r: SyncDecision)
        requires
            old(self).wf(),
            msg.clock.wf(),
        ensures
            final(self).wf(),
            final(self).node_id == old(self).node_id,
            has_id(old(self).seen_messages@, msg.id@) ==> r == SyncDecision::AlreadySeen
                && *final(self) == *old(self),
            !has_id(old(self).seen_messages@, msg.id@) ==> {
                &&& r == (SyncDecision::Process {
                    should_forward: msg.layer == DataLayer::Federated && msg.ttl > 0,
                })
                &&& has_id(final(self).seen_messages@, msg.id@)
                &&& forall|k: Seq<u8>| #[trigger]
                    final(self).clock.spec_get(k) == max64(
                        old(self).clock.spec_get(k),
                        msg.clock.spec_get(k),
                    )
                &&& final(self).outbound_federated@ == old(self).outbound_federated@
                &&& final(self).outbound_shared@ == old(self).outbound_shared@
            },
    {
        if self.is_seen(&msg.id) {
            return SyncDecision::AlreadySeen;
        }
        self.seen_messages.push(msg.id);
        let ghost pushed = self.seen_messages@;
        // Bound the dedup set: evict the older half on overflow.
        if self.seen_messages.len() > self.config.max_seen_messages {
            let keep_from = self.seen_messages.len() / 2;
            let tail = vstd::slice::slice_to_vec(
                vstd::slice::slice_subrange(
                    self.seen_messages.as_slice(),
                    keep_from,
                    self.seen_messages.len(),
                ),
            );
            proof {
                assert(tail@[tail@.len() - 1]@ == msg.id@);
            }
            self.seen_messages = tail;
            proof {
                assert(has_id(self.seen_messages@, msg.id@)) by {
                    assert(self.seen_messages@[self.seen_messages@.len() - 1]@ == msg.id@);
                }
            }
        } else {
            proof {
                assert(has_id(self.seen_messages@, msg.id@)) by {
                    assert(self.seen_messages@[self.seen_messages@.len() - 1]@ == msg.id@);
                }
            }
        }
        self.merge_clock(&msg.clock);
        let should_forward = matches!(msg.layer, DataLayer::Federated) && msg.ttl > 0;
        SyncDecision::Process { should_forward }
    }

    /// Stamps a message for sending: our next clock and our origin; a
    /// federated message without hops gets the default TTL. Federated
    /// messages queue for gossip and direct messages queue for their
    /// recipient, each unless its queue is full; private messages never
    /// queue.
    pub fn prepare_outbound(&mut self, msg: MessageEnvelope) -> (r: MessageEnvelope)
        requires
            old(self).wf(),
            old(self).clock.spec_get(old(self).node_id@) < u64::MAX,
        ensures
            final(self).wf(),
            final(self).node_id == old(self).node_id,
            r.origin@ == old(self).node_id@,
            r.clock.clocks@ == final(self).clock.clocks@,
            r.id == msg.id,
            r.layer == msg.layer,
            r.timestamp == msg.timestamp,
            crate::message::payload_eq(r.payload, msg.payload),
            r.ttl == (if msg.ttl == 0 && msg.layer == DataLayer::Federated {
                old(self).config.default_ttl
            } else {
                msg.ttl
            }),
            msg.layer == DataLayer::Federated ==> {
                &&& old(self).outbound_federated@.len() < old(self).config.max_outbound_queue
                    ==> final(self).outbound_federated@.len()
                    == old(self).outbound_federated@.len() + 1 && envelope_eq(
                    final(self).outbound_federated@[final(self).outbound_federated@.len() - 1],
                    r,
                )
                &&& old(self).outbound_federated@.len() >= old(self).config.max_outbound_queue
                    ==> final(self).outbound_federated@ == old(self).outbound_federated@
            },
            msg.layer == DataLayer::Federated ==> final(self).outbound_shared@ == old(
                self,
            ).outbound_shared@,
            msg.layer == DataLayer::Shared ==> final(self).outbound_federated@ == old(
                self,
            ).outbound_federated@ && (match msg.payload {
                MessagePayload::DirectMessage(dm) => shared_queues_after(
                    old(self).outbound_shared@,
                    final(self).outbound_shared@,
                    dm.to@,
                    r,
                    old(self).config.max_outbound_queue,
                ),
                _ => final(self).outbound_shared@ == old(self).outbound_shared@,
            }),
            msg.layer == DataLayer::Private ==> final(self).outbound_federated@ == old(
                self,
            ).outbound_federated@ && final(self).outbound_shared@ == old(self).outbound_shared@,
    {
        let mut out = msg;
        proof {
            crate::message::lemma_payload_eq_refl(out.payload);
        }
        out.clock = self.tick();
        out.origin = self.node_id;
        if out.ttl == 0 && matches!(out.layer, DataLayer::Federated) {
            out.ttl = self.config.default_ttl;
        }
        match out.layer {
            DataLayer::Federated => {
                if self.outbound_federated.len() < self.config.max_outbound_queue {
                    let copy = out.clone();
                    self.outbound_federated.push(copy);
                }
            },
            DataLayer::Shared => {
                // Only direct messages are queued, keyed by their recipient.
                let recipient: Option<NodeId> = match &out.payload {
                    MessagePayload::DirectMessage(dm) => Some(dm.to),
                    _ => None,
                };
                match recipient {
                    Some(to) => {
                        let ghost before = self.outbound_shared@;
                        let idx = self.find_shared_queue(&to);
                        match idx {
                            Some(i) => {
                                if self.outbound_shared[i].1.len()
                                    < self.config.max_outbound_queue {
                                    let copy = out.clone();
                                    let queue = &mut self.outbound_shared[i].1;
                                    queue.push(copy);
                                    proof {
                                        assert(self.outbound_shared@[i as int].1@.take(
                                            before[i as int].1@.len() as int,
                                        ) =~= before[i as int].1@);
                                        assert(shared_queues_after(
                                            before,
                                            self.outbound_shared@,
                                            to@,
                                            out,
                                            self.config.max_outbound_queue,
                                        ));
                                    }
                                } else {
                                    proof {
                                        assert(shared_queues_after(
                                            before,
                                            self.outbound_shared@,
                                            to@,
                                            out,
                                            self.config.max_outbound_queue,
                                        ));
                                    }
                                }
                            },
                            None => {
                                let copy = out.clone();
                                let mut fresh: Vec<MessageEnvelope> = Vec::new();
                                fresh.push(copy);
                                self.outbound_shared.push((to, fresh));
                                proof {
                                    assert(self.outbound_shared@.take(before.len() as int)
                                        =~= before);
                                    assert(shared_queues_after(
                                        before,
                                        self.outbound_shared@,
                                        to@,
                                        out,
                                        self.config.max_outbound_queue,
                                    ));
                                }
                            },
                        }
                    },
                    None => {
                    },
                }
            },
            DataLayer::Private => {
            },
        }
        out
    }

    /// Finds the shared queue of a recipient.
    fn find_shared_queue(&self, to: &NodeId) -> (r: Option<usize>)
        ensures
            match r {
                Some(i) => i < self.outbound_shared@.len() && self.outbound_shared@[i as int].0@
                    == to@,
                None => forall|j: int|
                    0 <= j < self.outbound_shared@.len()
                        ==> (#[trigger] self.outbound_shared@[j]).0@ != to@,
            },
    {
        let n = self.outbound_shared.len();
        let mut i: usize = 0;
        while i < n
            invariant
                n == self.outbound_shared@.len(),
                i <= n,
                forall|j: int| 0 <= j < i ==> (#[trigger] self.outbound_shared@[j]).0@ != to@,
            decreases n - i,
        {
            if self.outbound_shared[i].0 == *to {
                return Some(i);
            }
            i = i + 1;
        }
        None
    }

    /// Drains up to `limit` federated messages, oldest first, preserving
    /// enqueue order.
    pub fn get_gossip_batch(&mut self, limit: usize) -> (r: Vec<MessageEnvelope>)
        requires
            old(self).wf(),
        ensures
            final(self).wf(),
            final(self).node_id == old(self).node_id,
            r@.len() == (if limit <= old(self).outbound_federated@.len() {
                limit as int
            } else {
                old(self).outbound_federated@.len() as int
            }),
            r@ == old(self).outbound_federated@.take(r@.len() as int),
            final(self).outbound_federated@ == old(self).outbound_federated@.skip(
                r@.len() as int,
            ),
            final(self).clock == old(self).clock,
            final(self).seen_messages@ == old(self).seen_messages@,
            final(self).outbound_shared@ == old(self).outbound_shared@,
    {
        let drain_count = if limit <= self.outbound_federated.len() {
            limit
        } else {
            self.outbound_federated.len()
        };
        let mut rest = self.outbound_federated.split_off(drain_count);
        core::mem::swap(&mut self.outbound_federated, &mut rest);
        proof {
            assert(final(self).outbound_federated@ =~= old(self).outbound_federated@.skip(
                drain_count as int,
            ));
            assert(rest@ =~= old(self).outbound_federated@.take(drain_count as int));
        }
        rest
    }

    /// Drains up to `limit` messages queued for one peer, oldest first: the
    /// batch is the front of that peer's queue, the queue keeps the rest,
    /// and every other queue is untouched.
    pub fn get_peer_sync_batch(&mut self, peer_id: &NodeId, limit: usize) -> (r: Vec<
        MessageEnvelope,
    >)
        requires
            old(self).wf(),
        ensures
            final(self).wf(),
            final(self).node_id == old(self).node_id,
            final(self).clock == old(self).clock,
            final(self).seen_messages@ == old(self).seen_messages@,
            final(self).outbound_federated@ == old(self).outbound_federated@,
            r@.len() <= limit,
            ({
                let before = old(self).outbound_shared@;
                let after = final(self).outbound_shared@;
                &&& (forall|j: int|
                    0 <= j < before.len() ==> (#[trigger] before[j]).0@ != peer_id@) ==> (
                r@.len() == 0 && after == before)
                &&& (exists|j: int| 0 <= j < before.len() && (#[trigger] before[j]).0@ == peer_id@)
                    ==> (after.len() == before.len() && exists|j: int|
                    0 <= j < before.len() && (#[trigger] before[j]).0@ == peer_id@ && r@.len() == (
                    if limit <= before[j].1@.len() {
                        limit as int
                    } else {
                        before[j].1@.len() as int
                    }) && r@ == before[j].1@.take(r@.len() as int) && after[j].1@
                    == before[j].1@.skip(r@.len() as int) && after[j].0 == before[j].0 && (
                    forall|x: int| 0 <= x < before.len() && x != j ==> after[x] == before[x]))
            }),
    {
        let ghost before = self.outbound_shared@;
        match self.find_shared_queue(peer_id) {
            Some(i) => {
                let queue_len = self.outbound_shared[i].1.len();
                let drain_count = if limit <= queue_len {
                    limit
                } else {
                    queue_len
                };
                let mut rest = self.outbound_shared[i].1.split_off(drain_count);
                core::mem::swap(&mut self.outbound_shared[i].1, &mut rest);
                proof {
                    assert(before[i as int].0@ == peer_id@);
                    assert(rest@ =~= before[i as int].1@.take(drain_count as int));
                    assert(self.outbound_shared@[i as int].1@ =~= before[i as int].1@.skip(
                        drain_count as int,
                    ));
                }
                rest
            },
            None => Vec::new(),
        }
    }

    /// Clears acknowledged ids from a peer's pending set: afterwards the
    /// named peer holds no acknowledged id and keeps every unacknowledged
    /// one; every other peer's bookkeeping is untouched.
    pub fn record_acks(&mut self, peer_id: &NodeId, message_ids: &[MessageId])
        requires
            old(self).wf(),
        ensures
            final(self).wf(),
            final(self).node_id == old(self).node_id,
            final(self).clock == old(self).clock,
            final(self).seen_messages@ == old(self).seen_messages@,
            final(self).outbound_federated@ == old(self).outbound_federated@,
            final(self).outbound_shared@ == old(self).outbound_shared@,
            final(self).peers@.len() == old(self).peers@.len(),
            forall|i: int|
                0 <= i < old(self).peers@.len() && (#[trigger] old(self).peers@[i]).peer_id@
                    != peer_id@ ==> final(self).peers@[i] == old(self).peers@[i],
            forall|i: int|
                0 <= i < old(self).peers@.len() && (#[trigger] old(self).peers@[i]).peer_id@
                    == peer_id@ ==> {
                    let oldp = old(self).peers@[i];
                    let newp = final(self).peers@[i];
                    &&& newp.peer_id == oldp.peer_id
                    &&& newp.our_clock == oldp.our_clock
                    &&& newp.their_clock == oldp.their_clock
                    &&& newp.last_sync == oldp.last_sync
                    &&& newp.enabled == oldp.enabled
                    &&& forall|x: int|
                        0 <= x < newp.pending_acks@.len() ==> has_id(
                            oldp.pending_acks@,
                            (#[trigger] newp.pending_acks@[x])@,
                        ) && !has_id(message_ids@, newp.pending_acks@[x]@)
                    &&& forall|y: int|
                        0 <= y < oldp.pending_acks@.len() && !has_id(
                            message_ids@,
                            (#[trigger] oldp.pending_acks@[y])@,
                        ) ==> has_id(newp.pending_acks@, oldp.pending_acks@[y]@)
                },
    {
        let n = self.peers.len();
        let mut i: usize = 0;
        while i < n
            invariant
                n == self.peers@.len(),
                n == old(self).peers@.len(),
                i <= n,
                self.wf(),
                self.node_id == old(self).node_id,
                self.clock == old(self).clock,
                self.seen_messages@ == old(self).seen_messages@,
                self.outbound_federated@ == old(self).outbound_federated@,
                self.outbound_shared@ == old(self).outbound_shared@,
                forall|j: int|
                    0 <= j < n && ((#[trigger] old(self).peers@[j]).peer_id@ != peer_id@ || j
                        >= i) ==> self.peers@[j] == old(self).peers@[j],
                forall|j: int|
                    0 <= j < i && (#[trigger] old(self).peers@[j]).peer_id@ == peer_id@ ==> {
                        let oldp = old(self).peers@[j];
                        let newp = self.peers@[j];
                        &&& newp.peer_id == oldp.peer_id
                        &&& newp.our_clock == oldp.our_clock
                        &&& newp.their_clock == oldp.their_clock
                        &&& newp.last_sync == oldp.last_sync
                        &&& newp.enabled == oldp.enabled
                        &&& forall|x: int|
                            0 <= x < newp.pending_acks@.len() ==> has_id(
                                oldp.pending_acks@,
                                (#[trigger] newp.pending_acks@[x])@,
                            ) && !has_id(message_ids@, newp.pending_acks@[x]@)
                        &&& forall|y: int|
                            0 <= y < oldp.pending_acks@.len() && !has_id(
                                message_ids@,
                                (#[trigger] oldp.pending_acks@[y])@,
                            ) ==> has_id(newp.pending_acks@, oldp.pending_acks@[y]@)
                    },
            decreases n - i,
        {
            if self.peers[i].peer_id == *peer_id {
                let kept = retain_missing(&self.peers[i].pending_acks, message_ids);
                self.peers[i].pending_acks = kept;
            }
            i = i + 1;
        }
    }

    /// Registers a peer for sync, once.
    pub fn add_peer(&mut self, peer_id: NodeId)
        requires
            old(self).wf(),
        ensures
            final(self).wf(),
            final(self).node_id == old(self).node_id,
            final(self).clock == old(self).clock,
            final(self).seen_messages@ == old(self).seen_messages@,
            exists|i: int|
                0 <= i < final(self).peers@.len() && (#[trigger] final(self).peers@[i]).peer_id@
                    == peer_id@,
    {
        let n = self.peers.len();
        let mut i: usize = 0;
        while i < n
            invariant
                n == self.peers@.len(),
                i <= n,
                self.wf(),
                *self == *old(self),
            decreases n - i,
        {
            if self.peers[i].peer_id == peer_id {
                proof {
                    assert(self.peers@[i as int].peer_id@ == peer_id@);
                }
                return ;
            }
            i = i + 1;
        }
        self.peers.push(PeerSyncState::new(peer_id));
        proof {
            assert(self.peers@[self.peers@.len() - 1].peer_id@ == peer_id@);
        }
    }

    /// Forgets a peer and its queued messages.
    pub fn remove_peer(&mut self, peer_id: &NodeId)
        requires
            old(self).wf(),
        ensures
            final(self).wf(),
            final(self).node_id == old(self).node_id,
            final(self).clock == old(self).clock,
            final(self).seen_messages@ == old(self).seen_messages@,
            final(self).outbound_federated@ == old(self).outbound_federated@,
            forall|i: int|
                0 <= i < final(self).peers@.len() ==> (#[trigger] final(self).peers@[i]).peer_id@
                    != peer_id@,
            forall|i: int|
                0 <= i < final(self).outbound_shared@.len()
                    ==> (#[trigger] final(self).outbound_shared@[i]).0@ != peer_id@,
    {
        let n = self.peers.len();
        let mut kept: Vec<PeerSyncState> = Vec::new();
        let mut i: usize = 0;
        while i < n
            invariant
                n == self.peers@.len(),
                i <= n,
                *self == *old(self),
                forall|j: int| 0 <= j < kept@.len() ==> (#[trigger] kept@[j]).peer_id@ != peer_id@,
            decreases n - i,
        {
            if !(self.peers[i].peer_id == *peer_id) {
                let ghost before = kept@;
                let entry = clone_peer_state(&self.peers[i]);
                kept.push(entry);
            }
            i = i + 1;
        }
        self.peers = kept;
        let m = self.outbound_shared.len();
        let mut kept_q: Vec<(NodeId, Vec<MessageEnvelope>)> = Vec::new();
        let mut j: usize = 0;
        while j < m
            invariant
                m == self.outbound_shared@.len(),
                j <= m,
                self.node_id == old(self).node_id,
                self.clock == old(self).clock,
                self.seen_messages@ == old(self).seen_messages@,
                self.outbound_federated@ == old(self).outbound_federated@,
                self.wf(),
                forall|x: int|
                    0 <= x < self.peers@.len() ==> (#[trigger] self.peers@[x]).peer_id@
                        != peer_id@,
                forall|x: int|
                    0 <= x < kept_q@.len() ==> (#[trigger] kept_q@[x]).0@ != peer_id@,
            decreases m - j,
        {
            if !(self.outbound_shared[j].0 == *peer_id) {
                let mut queue_rest = self.outbound_shared[j].1.split_off(0);
                let key = self.outbound_shared[j].0;
                kept_q.push((key, queue_rest));
            }
            j = j + 1;
        }
        self.outbound_shared = kept_q;
    }

    /// The peers registered for sync.
    pub fn peer_ids(&self) -> (r: Vec<NodeId>)
        ensures
            r@.len() == self.peers@.len(),
            forall|i: int|
                0 <= i < r@.len() ==> (#[trigger] r@[i])@ == self.peers@[i].peer_id@,
    {
        let n = self.peers.len();
        let mut out: Vec<NodeId> = Vec::new();
        let mut i: usize = 0;
        while i < n
            invariant
                n == self.peers@.len(),
                i <= n,
                out@.len() == i,
                forall|j: int| 0 <= j < i ==> (#[trigger] out@[j])@ == self.peers@[j].peer_id@,
            decreases n - i,
        {
            out.push(self.peers[i].peer_id);
            i = i + 1;
        }
        out
    }

    /// For every origin our clock has advanced past the given one: the
    /// closed range of sequence numbers the asker is missing.
    pub fn whats_new_since(&self, since: &VectorClock) -> (r: WhatsNew)
        requires
            self.wf(),
            since.wf(),
        ensures
            r.current_clock.clocks@ == self.clock.clocks@,
            forall|i: int|
                0 <= i < r.ranges@.len() ==> {
                    let entry = #[trigger] r.ranges@[i];
                    &&& self.clock.spec_get(entry.0@) == entry.2
                    &&& since.spec_get(entry.0@) + 1 == entry.1
                    &&& entry.2 > since.spec_get(entry.0@)
                },
            forall|j: int|
                0 <= j < self.clock.clocks@.len() && (#[trigger] self.clock.clocks@[j]).1
                    > since.spec_get(self.clock.clocks@[j].0@) ==> exists|i: int|
                    0 <= i < r.ranges@.len() && (#[trigger] r.ranges@[i]).0@
                        == self.clock.clocks@[j].0@,
    {
        let n = self.clock.clocks.len();
        let mut ranges: Vec<(NodeId, u64, u64)> = Vec::new();
        let mut i: usize = 0;
        while i < n
            invariant
                self.wf(),
                since.wf(),
                n == self.clock.clocks@.len(),
                i <= n,
                forall|x: int|
                    0 <= x < ranges@.len() ==> {
                        let entry = #[trigger] ranges@[x];
                        &&& self.clock.spec_get(entry.0@) == entry.2
                        &&& since.spec_get(entry.0@) + 1 == entry.1
                        &&& entry.2 > since.spec_get(entry.0@)
                    },
                forall|j: int|
                    0 <= j < i && (#[trigger] self.clock.clocks@[j]).1 > since.spec_get(
                        self.clock.clocks@[j].0@,
                    ) ==> exists|x: int|
                        0 <= x < ranges@.len() && (#[trigger] ranges@[x]).0@
                            == self.clock.clocks@[j].0@,
            decreases n - i,
        {
            let (node, current) = self.clock.clocks[i];
            let since_time = since.get(&node);
            proof {
                crate::vclock::lemma_seq_get_found(self.clock.clocks@, i as int);
            }
            if current > since_time {
                proof {
                    assert(since_time < u64::MAX);
                }
                let ghost before = ranges@;
                ranges.push((node, since_time + 1, current));
                proof {
                    assert(ranges@[ranges@.len() - 1].0@ == self.clock.clocks@[i as int].0@);
                    assert forall|j: int|
                        0 <= j < i + 1 && (#[trigger] self.clock.clocks@[j]).1 > since.spec_get(
                            self.clock.clocks@[j].0@,
                        ) implies exists|x: int|
                        0 <= x < ranges@.len() && (#[trigger] ranges@[x]).0@
                            == self.clock.clocks@[j].0@ by {
                        if j < i {
                            let x = choose|x: int|
                                0 <= x < before.len() && (#[trigger] before[x]).0@
                                    == self.clock.clocks@[j].0@;
                            assert(ranges@[x].0@ == self.clock.clocks@[j].0@);
                        } else {
                            assert(ranges@[ranges@.len() - 1].0@ == self.clock.clocks@[j].0@);
                        }
                    }
                }
            }
            proof {
                assert forall|j: int|
                    0 <= j < i + 1 && (#[trigger] self.clock.clocks@[j]).1 > since.spec_get(
                        self.clock.clocks@[j].0@,
                    ) implies exists|x: int|
                    0 <= x < ranges@.len() && (#[trigger] ranges@[x]).0@
                        == self.clock.clocks@[j].0@ by {}
            }
            i = i + 1;
        }
        let ghost final_ranges = ranges@;
        let r = WhatsNew { ranges, current_clock: self.clock.clone() };
        proof {
            assert(r.ranges@ == final_ranges);
        }
        r
    }
}

/// Copies a peer's sync bookkeeping.
fn clone_peer_state(p: &PeerSyncState) -> (r: PeerSyncState)
    ensures
        r.peer_id@ == p.peer_id@,
        r.our_clock.clocks@ == p.our_clock.clocks@,
        r.their_clock.clocks@ == p.their_clock.clocks@,
        r.pending_acks@ == p.pending_acks@,
        r.last_sync == p.last_sync,
        r.enabled == p.enabled,
{
    PeerSyncState {
        peer_id: p.peer_id,
        our_clock: p.our_clock.clone(),
        their_clock: p.their_clock.clone(),
        pending_acks: crate::bytesutil::clone_copy_vec(&p.pending_acks),
        last_sync: p.last_sync,
        enabled: p.enabled,
    }
}

/// The ids of the first list that the second does not mention.
fn retain_missing(pending: &Vec<MessageId>, acked: &[MessageId]) -> (r: Vec<MessageId>)
    ensures
        forall|i: int|
            0 <= i < r@.len() ==> has_id(pending@, (#[trigger] r@[i])@) && !has_id(
                acked@,
                r@[i]@,
            ),
        forall|j: int|
            0 <= j < pending@.len() && !has_id(acked@, (#[trigger] pending@[j])@) ==> has_id(
                r@,
                pending@[j]@,
            ),
{
    let n = pending.len();
    let mut out: Vec<MessageId> = Vec::new();
    let mut i: usize = 0;
    while i < n
        invariant
            n == pending@.len(),
            i <= n,
            forall|x: int|
                0 <= x < out@.len() ==> has_id(pending@, (#[trigger] out@[x])@) && !has_id(
                    acked@,
                    out@[x]@,
                ),
            forall|j: int|
                0 <= j < i && !has_id(acked@, (#[trigger] pending@[j])@) ==> has_id(
                    out@,
                    pending@[j]@,
                ),
        decreases n - i,
    {
        let id = pending[i];
        if !slice_has_id(acked, &id) {
            let ghost before = out@;
            out.push(id);
            proof {
                assert(out@[out@.len() - 1]@ == pending@[i as int]@);
                assert(has_id(pending@, pending@[i as int]@)) by {
                    assert(pending@[i as int]@ == pending@[i as int]@);
                }
                assert forall|j: int|
                    0 <= j < i + 1 && !has_id(acked@, (#[trigger] pending@[j])@) implies has_id(
                    out@,
                    pending@[j]@,
                ) by {
                    if j < i {
                        let x = choose|x: int|
                            0 <= x < before.len() && (#[trigger] before[x])@ == pending@[j]@;
                        assert(out@[x]@ == pending@[j]@);
                    } else {
                        assert(out@[out@.len() - 1]@ == pending@[j]@);
                    }
                }
            }
        }
        i = i + 1;
    }
    out
}

/// Whether a slice of ids mentions an id.
fn slice_has_id(ids: &[MessageId], id: &MessageId) -> (r: bool)
    ensures
        r == has_id(ids@, id@),
{
    let n = ids.len();
    let mut i: usize = 0;
    while i < n
        invariant
            n == ids@.len(),
            i <= n,
            forall|j: int| 0 <= j < i ==> (#[trigger] ids@[j])@ != id@,
        decreases n - i,
    {
        if ids[i] == *id {
            return true;
        }
        i = i + 1;
    }
    false
}

} // verus!
