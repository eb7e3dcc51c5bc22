//! Typed mesh messages: payload variants, layers and the envelope that
//! carries them.
//!
//! Every message travels in an envelope holding a random identifier, the
//! origin node, a vector clock, a data layer with its gossip time-to-live,
//! a wall-clock timestamp and the payload.

use vstd::prelude::*;
use crate::bytesutil::{bytes_eq, to_array_16};
use crate::hex::hex_of;
use crate::identity::{NodeId, NodeManifest, os_random_bytes, now_seconds};
pub use crate::vclock::VectorClock;

verus! {

/// A 16-byte random message identifier.
#[derive(Debug, Clone, Copy, Eq, Hash)]
pub struct MessageId(pub [u8; 16]);

impl View for MessageId {
    type V = Seq<u8>;

    open spec fn view(&self) -> Seq<u8> {
        self.0@
    }
}

impl PartialEq for MessageId {
    fn eq(&self, other: &MessageId) -> (r: bool) {
        bytes_eq(self.0.as_slice(), other.0.as_slice())
    }
}

impl vstd::std_specs::cmp::PartialEqSpecImpl for MessageId {
    open spec fn obeys_eq_spec() -> bool {
        true
    }

    open spec fn eq_spec(&self, other: &MessageId) -> bool {
        self.0@ == other.0@
    }
}

impl MessageId {
    /// A fresh random identifier. Nothing is promised of the value: two
    /// calls may collide, though with 128 random bits they will not in
    /// practice.
    pub fn new() -> MessageId {
        MessageId(to_array_16(os_random_bytes(16).as_slice()))
    }

    /// Wraps raw bytes as a message id.
    pub fn from_bytes(bytes: [u8; 16]) -> (r: MessageId)
        ensures
            r@ == bytes@,
    {
        MessageId(bytes)
    }

    /// The id as 32 lowercase hex characters.
    pub fn to_hex(&self) -> (r: String)
        ensures
            r@ == hex_of(self@),
            r@.len() == 32,
    {
        crate::hex::encode(self.0.as_slice())
    }
}

/// The replication layer of a message.
#[derive(Debug, Clone, Copy, PartialEq, Eq, Structural, Hash)]
pub enum DataLayer {
    /// Never leaves the node.
    Private,
    /// Synced on demand with explicit peers.
    Shared,
    /// Propagated mesh-wide by TTL-limited gossip.
    Federated,
}

/// The default time-to-live of a layer: private messages never travel,
/// shared messages go one hop, federated messages gossip three hops.
pub open spec fn spec_default_ttl(layer: DataLayer) -> u8 {
    match layer {
        DataLayer::Private => 0u8,
        DataLayer::Shared => 1u8,
        DataLayer::Federated => 3u8,
    }
}

/// A node's presence state.
#[derive(Debug, Clone, Copy, PartialEq, Eq, Structural, Hash)]
pub enum PresenceStatus {
    /// Actively connected.
    Online,
    /// Connected but idle.
    Away,
    /// Connected and not to be disturbed.
    Busy,
    /// Not connected.
    Offline,
}

/// A presence update gossiped through the mesh.
#[derive(Debug)]
pub struct PresenceUpdate {
    /// The node whose presence changed.
    pub node_id: NodeId,
    /// Its new status.
    pub status: PresenceStatus,
    /// What the node says it is doing.
    pub activity: Option<String>,
    /// Seconds since the UNIX epoch the node was last active.
    pub last_active: u64,
}

/// A broadcast to the mesh, optionally scoped to a channel.
#[derive(Debug)]
pub struct BroadcastMessage {
    /// The channel or topic, if any.
    pub channel: Option<String>,
    /// The message text.
    pub content: String,
    /// Nodes to notify.
    pub mentions: Vec<NodeId>,
}

/// A direct message between two nodes.
#[derive(Debug)]
pub struct DirectMessage {
    /// The recipient.
    pub to: NodeId,
    /// The content, possibly encrypted.
    pub content: Vec<u8>,
    /// Whether the content is encrypted.
    pub encrypted: bool,
    /// The conversation this message belongs to, if any.
    pub thread_id: Option<MessageId>,
}

/// What happened to a team member.
#[derive(Debug)]
pub enum TeamAction {
    /// The member joined.
    Join,
    /// The member left.
    Leave,
    /// The member's role changed to the given one.
    UpdateRole(String),
}

/// A team membership update.
#[derive(Debug)]
pub struct TeamUpdate {
    /// The team affected.
    pub team_id: String,
    /// The member affected.
    pub member_id: NodeId,
    /// What happened.
    pub action: TeamAction,
}

/// The kind of data a sync request asks for.
#[derive(Debug)]
pub enum SyncDataType {
    /// Direct messages.
    DirectMessages,
    /// Broadcasts, optionally of one channel.
    Broadcasts {
        /// The channel, or all channels.
        channel: Option<String>,
    },
    /// Members of one team.
    TeamMembers {
        /// The team asked about.
        team_id: String,
    },
    /// Presence records.
    Presence,
}

/// A request to sync data newer than a vector clock.
#[derive(Debug)]
pub struct SyncRequest {
    /// The kind of data requested.
    pub data_type: SyncDataType,
    /// The requester's clock: only newer items are wanted.
    pub since_clock: VectorClock,
    /// At most this many items.
    pub limit: u32,
}

/// The answer to a sync request.
#[derive(Debug)]
pub struct SyncResponse {
    /// The request answered.
    pub request_id: MessageId,
    /// The items carried.
    pub items: Vec<MessageEnvelope>,
    /// Whether more items remain beyond this batch.
    pub has_more: bool,
}

/// The payload variants a mesh message can carry.
#[derive(Debug)]
pub enum MessagePayload {
    /// A presence update; federated.
    Presence(PresenceUpdate),
    /// A broadcast; federated.
    Broadcast(BroadcastMessage),
    /// A node announcing its manifest; federated.
    NodeAnnounce(NodeManifest),
    /// A direct message; shared.
    DirectMessage(DirectMessage),
    /// A team membership update; shared.
    TeamUpdate(TeamUpdate),
    /// A request to sync data; shared.
    SyncRequest(SyncRequest),
    /// The answer to a sync request; shared.
    SyncResponse(SyncResponse),
    /// A latency probe.
    Ping {
        /// Echoed back in the matching pong.
        nonce: u64,
    },
    /// The answer to a ping.
    Pong {
        /// The nonce of the ping answered.
        nonce: u64,
    },
    /// Acknowledges receipt of a message.
    Ack {
        /// The message acknowledged.
        message_id: MessageId,
    },
}

/// The envelope wrapping every mesh message.
#[derive(Debug)]
pub struct MessageEnvelope {
    /// Unique random identifier of this envelope.
    pub id: MessageId,
    /// The node that created the message.
    pub origin: NodeId,
    /// The origin's vector clock at send time.
    pub clock: VectorClock,
    /// The replication layer.
    pub layer: DataLayer,
    /// Gossip hops remaining; a message with zero is never forwarded.
    pub ttl: u8,
    /// Wall-clock seconds since the UNIX epoch, for human reference.
    pub timestamp: u64,
    /// The payload carried.
    pub payload: MessagePayload,
    /// Optional signature by the origin over the canonical bytes.
    pub signature: Option<Vec<u8>>,
}

impl MessageEnvelope {
    /// An envelope and everything nested in it carries well-formed vector
    /// clocks.
    pub open spec fn wf(self) -> bool
        decreases self,
    {
        self.clock.wf() && payload_wf(self.payload)
    }

    /// Builds an envelope with a fresh random id, the layer's default TTL
    /// and the current wall-clock time.
    pub fn new(origin: NodeId, clock: VectorClock, layer: DataLayer, payload: MessagePayload) -> (r:
        MessageEnvelope)
        ensures
            r.origin == origin,
            r.clock == clock,
            r.layer == layer,
            r.payload == payload,
            r.ttl == spec_default_ttl(layer),
            r.signature is None,
    {
        let ttl: u8 = match layer {
            DataLayer::Private => 0,
            DataLayer::Shared => 1,
            DataLayer::Federated => 3,
        };
        MessageEnvelope {
            id: MessageId::new(),
            origin,
            clock,
            layer,
            ttl,
            timestamp: now_seconds(),
            payload,
            signature: None,
        }
    }

    /// Builds a federated presence update from this node.
    pub fn presence(origin: NodeId, clock: VectorClock, status: PresenceStatus) -> (r:
        MessageEnvelope)
        ensures
            r.origin == origin,
            r.clock == clock,
            r.layer == DataLayer::Federated,
            r.ttl == spec_default_ttl(DataLayer::Federated),
            r.signature is None,
            r.payload matches MessagePayload::Presence(p) && p.node_id == origin && p.status
                == status && p.activity is None,
    {
        let last_active = now_seconds();
        MessageEnvelope::new(
            origin,
            clock,
            DataLayer::Federated,
            MessagePayload::Presence(
                PresenceUpdate { node_id: origin, status, activity: None, last_active },
            ),
        )
    }

    /// Builds a federated broadcast.
    pub fn broadcast(origin: NodeId, clock: VectorClock, content: String, channel: Option<
        String,
    >) -> (r: MessageEnvelope)
        ensures
            r.origin == origin,
            r.clock == clock,
            r.layer == DataLayer::Federated,
            r.ttl == spec_default_ttl(DataLayer::Federated),
            r.signature is None,
            r.payload matches MessagePayload::Broadcast(b) && b.channel == channel && b.content
                == content && b.mentions@.len() == 0,
    {
        MessageEnvelope::new(
            origin,
            clock,
            DataLayer::Federated,
            MessagePayload::Broadcast(BroadcastMessage { channel, content, mentions: Vec::new() }),
        )
    }

    /// Builds a shared-layer direct message.
    pub fn direct_message(
        origin: NodeId,
        clock: VectorClock,
        to: NodeId,
        content: Vec<u8>,
        encrypted: bool,
    ) -> (r: MessageEnvelope)
        ensures
            r.origin == origin,
            r.clock == clock,
            r.layer == DataLayer::Shared,
            r.ttl == spec_default_ttl(DataLayer::Shared),
            r.signature is None,
            r.payload matches MessagePayload::DirectMessage(d) && d.to == to && d.content
                == content && d.encrypted == encrypted && d.thread_id is None,
    {
        MessageEnvelope::new(
            origin,
            clock,
            DataLayer::Shared,
            MessagePayload::DirectMessage(
                DirectMessage { to, content, encrypted, thread_id: None },
            ),
        )
    }

    /// Spends one gossip hop. Returns false and changes nothing when the
    /// TTL is already zero.
    pub fn decrement_ttl(&mut self) -> (r: bool)
        ensures
            r == (old(self).ttl > 0),
            old(self).ttl > 0 ==> *final(self) == (MessageEnvelope {
                ttl: (old(self).ttl - 1) as u8,
                ..*old(self)
            }),
            old(self).ttl == 0 ==> *final(self) == *old(self),
    {
        if self.ttl > 0 {
            self.ttl = self.ttl - 1;
            true
        } else {
            false
        }
    }

    /// Whether this message should be gossiped on: only federated messages
    /// with hops remaining travel further.
    pub fn should_forward(&self) -> (r: bool)
        ensures
            r == (self.ttl > 0 && self.layer == DataLayer::Federated),
    {
        self.ttl > 0 && matches!(self.layer, DataLayer::Federated)
    }
}

/// Whether two presence updates carry the same data.
pub open spec fn presence_eq(a: PresenceUpdate, b: PresenceUpdate) -> bool {
    &&& a.node_id@ == b.node_id@
    &&& a.status == b.status
    &&& crate::bytesutil::opt_str_eq(a.activity, b.activity)
    &&& a.last_active == b.last_active
}

/// Whether two broadcasts carry the same data.
pub open spec fn broadcast_eq(a: BroadcastMessage, b: BroadcastMessage) -> bool {
    &&& crate::bytesutil::opt_str_eq(a.channel, b.channel)
    &&& a.content@ == b.content@
    &&& a.mentions@ == b.mentions@
}

/// Whether two direct messages carry the same data.
pub open spec fn dm_eq(a: DirectMessage, b: DirectMessage) -> bool {
    &&& a.to@ == b.to@
    &&& a.content@ == b.content@
    &&& a.encrypted == b.encrypted
    &&& a.thread_id == b.thread_id
}

/// Whether two team actions are the same.
pub open spec fn team_action_eq(a: TeamAction, b: TeamAction) -> bool {
    match (a, b) {
        (TeamAction::Join, TeamAction::Join) => true,
        (TeamAction::Leave, TeamAction::Leave) => true,
        (TeamAction::UpdateRole(x), TeamAction::UpdateRole(y)) => x@ == y@,
        _ => false,
    }
}

/// Whether two team updates carry the same data.
pub open spec fn team_update_eq(a: TeamUpdate, b: TeamUpdate) -> bool {
    &&& a.team_id@ == b.team_id@
    &&& a.member_id@ == b.member_id@
    &&& team_action_eq(a.action, b.action)
}

/// Whether two sync data kinds are the same.
pub open spec fn sync_data_type_eq(a: SyncDataType, b: SyncDataType) -> bool {
    match (a, b) {
        (SyncDataType::DirectMessages, SyncDataType::DirectMessages) => true,
        (
            SyncDataType::Broadcasts { channel: x },
            SyncDataType::Broadcasts { channel: y },
        ) => crate::bytesutil::opt_str_eq(x, y),
        (
            SyncDataType::TeamMembers { team_id: x },
            SyncDataType::TeamMembers { team_id: y },
        ) => x@ == y@,
        (SyncDataType::Presence, SyncDataType::Presence) => true,
        _ => false,
    }
}

/// Whether two sync requests carry the same data.
pub open spec fn sync_request_eq(a: SyncRequest, b: SyncRequest) -> bool {
    &&& sync_data_type_eq(a.data_type, b.data_type)
    &&& a.since_clock.clocks@ == b.since_clock.clocks@
    &&& a.limit == b.limit
}

/// Whether two sync responses carry the same data, item for item.
pub open spec fn sync_response_eq(a: SyncResponse, b: SyncResponse) -> bool
    decreases a,
{
    &&& a.request_id == b.request_id
    &&& a.has_more == b.has_more
    &&& a.items@.len() == b.items@.len()
    &&& forall|i: int|
        0 <= i < a.items@.len() ==> envelope_eq(#[trigger] a.items@[i], b.items@[i])
}

/// Whether two payloads carry the same data.
pub open spec fn payload_eq(a: MessagePayload, b: MessagePayload) -> bool
    decreases a,
{
    match (a, b) {
        (MessagePayload::Presence(x), MessagePayload::Presence(y)) => presence_eq(x, y),
        (MessagePayload::Broadcast(x), MessagePayload::Broadcast(y)) => broadcast_eq(x, y),
        (
            MessagePayload::NodeAnnounce(x),
            MessagePayload::NodeAnnounce(y),
        ) => crate::identity::manifest_eq(x, y),
        (MessagePayload::DirectMessage(x), MessagePayload::DirectMessage(y)) => dm_eq(x, y),
        (MessagePayload::TeamUpdate(x), MessagePayload::TeamUpdate(y)) => team_update_eq(x, y),
        (MessagePayload::SyncRequest(x), MessagePayload::SyncRequest(y)) => sync_request_eq(x, y),
        (
            MessagePayload::SyncResponse(x),
            MessagePayload::SyncResponse(y),
        ) => sync_response_eq(x, y),
        (MessagePayload::Ping { nonce: x }, MessagePayload::Ping { nonce: y }) => x == y,
        (MessagePayload::Pong { nonce: x }, MessagePayload::Pong { nonce: y }) => x == y,
        (
            MessagePayload::Ack { message_id: x },
            MessagePayload::Ack { message_id: y },
        ) => x == y,
        _ => false,
    }
}

/// Whether two envelopes carry the same data: equal ids, origins, clocks,
/// layers, TTLs, timestamps, payloads and signatures.
pub open spec fn envelope_eq(a: MessageEnvelope, b: MessageEnvelope) -> bool
    decreases a,
{
    &&& a.id == b.id
    &&& a.origin@ == b.origin@
    &&& a.clock.clocks@ == b.clock.clocks@
    &&& a.layer == b.layer
    &&& a.ttl == b.ttl
    &&& a.timestamp == b.timestamp
    &&& payload_eq(a.payload, b.payload)
    &&& match (a.signature, b.signature) {
        (Option::None, Option::None) => true,
        (Option::Some(x), Option::Some(y)) => x@ == y@,
        _ => false,
    }
}

impl Clone for PresenceUpdate {
    /// An exact copy.
    fn clone(&self) -> (res: PresenceUpdate)
        ensures
            presence_eq(res, *self),
    {
        PresenceUpdate {
            node_id: self.node_id,
            status: self.status,
            activity: crate::bytesutil::clone_opt_string(&self.activity),
            last_active: self.last_active,
        }
    }
}

impl Clone for BroadcastMessage {
    /// An exact copy.
    fn clone(&self) -> (res: BroadcastMessage)
        ensures
            broadcast_eq(res, *self),
    {
        BroadcastMessage {
            channel: crate::bytesutil::clone_opt_string(&self.channel),
            content: self.content.clone(),
            mentions: crate::bytesutil::clone_copy_vec(&self.mentions),
        }
    }
}

impl Clone for DirectMessage {
    /// An exact copy.
    fn clone(&self) -> (res: DirectMessage)
        ensures
            dm_eq(res, *self),
    {
        DirectMessage {
            to: self.to,
            content: crate::bytesutil::clone_copy_vec(&self.content),
            encrypted: self.encrypted,
            thread_id: self.thread_id,
        }
    }
}

impl Clone for TeamAction {
    /// An exact copy.
    fn clone(&self) -> (res: TeamAction)
        ensures
            team_action_eq(res, *self),
    {
        match self {
            TeamAction::Join => TeamAction::Join,
            TeamAction::Leave => TeamAction::Leave,
            TeamAction::UpdateRole(role) => TeamAction::UpdateRole(role.clone()),
        }
    }
}

impl Clone for TeamUpdate {
    /// An exact copy.
    fn clone(&self) -> (res: TeamUpdate)
        ensures
            team_update_eq(res, *self),
    {
        TeamUpdate {
            team_id: self.team_id.clone(),
            member_id: self.member_id,
            action: self.action.clone(),
        }
    }
}

impl Clone for SyncDataType {
    /// An exact copy.
    fn clone(&self) -> (res: SyncDataType)
        ensures
            sync_data_type_eq(res, *self),
    {
        match self {
            SyncDataType::DirectMessages => SyncDataType::DirectMessages,
            SyncDataType::Broadcasts { channel } => SyncDataType::Broadcasts {
                channel: crate::bytesutil::clone_opt_string(channel),
            },
            SyncDataType::TeamMembers { team_id } => SyncDataType::TeamMembers {
                team_id: team_id.clone(),
            },
            SyncDataType::Presence => SyncDataType::Presence,
        }
    }
}

impl Clone for SyncRequest {
    /// An exact copy.
    fn clone(&self) -> (res: SyncRequest)
        ensures
            sync_request_eq(res, *self),
    {
        SyncRequest {
            data_type: self.data_type.clone(),
            since_clock: self.since_clock.clone(),
            limit: self.limit,
        }
    }
}

impl Clone for SyncResponse {
    /// An exact copy.
    fn clone(&self) -> (res: SyncResponse)
        ensures
            sync_response_eq(res, *self),
        decreases *self,
    {
        let n = self.items.len();
        let mut items: Vec<MessageEnvelope> = Vec::new();
        let mut i: usize = 0;
        while i < n
            invariant
                n == self.items@.len(),
                i <= n,
                items@.len() == i,
                forall|j: int|
                    0 <= j < i ==> envelope_eq(#[trigger] items@[j], self.items@[j]),
            decreases n - i,
        {
            items.push(self.items[i].clone());
            i = i + 1;
        }
        SyncResponse { request_id: self.request_id, items, has_more: self.has_more }
    }
}

impl Clone for MessagePayload {
    /// An exact copy.
    fn clone(&self) -> (res: MessagePayload)
        ensures
            payload_eq(res, *self),
        decreases *self,
    {
        match self {
            MessagePayload::Presence(p) => MessagePayload::Presence(p.clone()),
            MessagePayload::Broadcast(b) => MessagePayload::Broadcast(b.clone()),
            MessagePayload::NodeAnnounce(m) => MessagePayload::NodeAnnounce(m.clone()),
            MessagePayload::DirectMessage(d) => MessagePayload::DirectMessage(d.clone()),
            MessagePayload::TeamUpdate(t) => MessagePayload::TeamUpdate(t.clone()),
            MessagePayload::SyncRequest(r) => MessagePayload::SyncRequest(r.clone()),
            MessagePayload::SyncResponse(r) => MessagePayload::SyncResponse(r.clone()),
            MessagePayload::Ping { nonce } => MessagePayload::Ping { nonce: *nonce },
            MessagePayload::Pong { nonce } => MessagePayload::Pong { nonce: *nonce },
            MessagePayload::Ack { message_id } => MessagePayload::Ack { message_id: *message_id },
        }
    }
}

impl Clone for MessageEnvelope {
    /// An exact copy.
    fn clone(&self) -> (res: MessageEnvelope)
        ensures
            envelope_eq(res, *self),
        decreases *self,
    {
        MessageEnvelope {
            id: self.id,
            origin: self.origin,
            clock: self.clock.clone(),
            layer: self.layer,
            ttl: self.ttl,
            timestamp: self.timestamp,
            payload: self.payload.clone(),
            signature: match &self.signature {
                Some(sig) => Some(crate::bytesutil::clone_copy_vec(sig)),
                None => None,
            },
        }
    }
}

/// Every vector clock nested in a payload is well formed.

/// Every vector clock nested in a payload is well formed.
pub open spec fn payload_wf(p: MessagePayload) -> bool
    decreases p,
{
    match p {
        MessagePayload::SyncRequest(req) => req.since_clock.wf(),
        MessagePayload::SyncResponse(resp) => forall|i: int|
            0 <= i < resp.items@.len() ==> (#[trigger] resp.items@[i]).wf(),
        _ => true,
    }
}


/// Deep equality is reflexive on payloads.
pub proof fn lemma_payload_eq_refl(p: MessagePayload)
    ensures
        payload_eq(p, p),
    decreases p,
{
    match p {
        MessagePayload::SyncResponse(r) => {
            lemma_sync_response_eq_refl(r);
        },
        _ => {
        },
    }
}

/// Deep equality is reflexive on sync responses.
pub proof fn lemma_sync_response_eq_refl(r: SyncResponse)
    ensures
        sync_response_eq(r, r),
    decreases r,
{
    assert forall|i: int| 0 <= i < r.items@.len() implies envelope_eq(
        #[trigger] r.items@[i],
        r.items@[i],
    ) by {
        lemma_envelope_eq_refl(r.items@[i]);
    }
}

/// Deep equality is reflexive on envelopes.
pub proof fn lemma_envelope_eq_refl(e: MessageEnvelope)
    ensures
        envelope_eq(e, e),
    decreases e,
{
    lemma_payload_eq_refl(e.payload);
}

} // verus!
