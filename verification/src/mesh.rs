//! The mobile-facing state of one node: the legacy server link and the
//! peer-to-peer mesh bookkeeping.
//!
//! Network and file work stays outside; these functions decide what the
//! state becomes and what the caller is told.

use vstd::prelude::*;
use crate::bytesutil::str_eq;
use crate::identity::NodeIdentity;
use crate::localstore::LocalStore;

verus! {

/// The outcome of registering with a federation server.
#[derive(Debug)]
pub struct FederationResult {
    /// Whether registration, online or offline, succeeded.
    pub success: bool,
    /// The device identifier used.
    pub device_id: String,
    /// The token to present on later calls.
    pub auth_token: String,
    /// What went wrong or what mode was entered, if anything.
    pub error_message: Option<String>,
}

/// The link state toward the legacy server.
#[derive(Debug, Clone, Copy, PartialEq, Eq, Structural)]
pub enum ConnectionStatus {
    /// Registered and reachable.
    Connected,
    /// Not registered.
    Disconnected,
    /// Registration in progress.
    Connecting,
    /// Registered locally without a server.
    Offline,
    /// The last attempt failed.
    Error,
}

/// The outcome of sending a message.
#[derive(Debug)]
pub struct MessageResult {
    /// Whether the message was stored or sent.
    pub success: bool,
    /// The message's identifier.
    pub message_id: i64,
    /// A note about queuing or failure, if any.
    pub error_message: Option<String>,
}

/// A direct message as the mobile layer shows it.
#[derive(Debug)]
pub struct DirectMessage {
    /// The server-side or local id.
    pub id: i64,
    /// The sender.
    pub from_ai: String,
    /// The recipient.
    pub to_ai: String,
    /// The text.
    pub content: String,
    /// The send time as text.
    pub timestamp: String,
}

/// A broadcast as the mobile layer shows it.
#[derive(Debug)]
pub struct Broadcast {
    /// The server-side or local id.
    pub id: i64,
    /// The sender.
    pub from_ai: String,
    /// The channel.
    pub channel: String,
    /// The text.
    pub content: String,
    /// The send time as text.
    pub timestamp: String,
}

/// A team member as the mobile layer shows it.
#[derive(Debug)]
pub struct TeamMember {
    /// The member's identifier.
    pub ai_id: String,
    /// The member's display name.
    pub display_name: String,
    /// The member's status.
    pub status: String,
    /// What the member is doing, if known.
    pub current_activity: Option<String>,
}

/// A federation member as the mobile layer shows it.
#[derive(Debug)]
pub struct FederationMember {
    /// The member's identifier.
    pub member_id: String,
    /// Whether it is a device or another kind of member.
    pub member_type: String,
    /// The member's display name.
    pub display_name: String,
    /// The member's status.
    pub status: String,
    /// When the member registered, as text.
    pub registered_at: String,
}

/// The outcome of a manual sync.
#[derive(Debug)]
pub struct SyncResult {
    /// Whether the sync ran.
    pub success: bool,
    /// Items pushed to the server.
    pub items_pushed: u32,
    /// Items pulled from the server.
    pub items_pulled: u32,
    /// What went wrong, if anything.
    pub error_message: Option<String>,
}

/// The outcome of initializing the mesh identity.
#[derive(Debug)]
pub struct MeshIdentityResult {
    /// Whether an identity is now loaded.
    pub success: bool,
    /// The node id as hex.
    pub node_id: String,
    /// The display name.
    pub display_name: String,
    /// Whether a fresh identity was generated.
    pub newly_created: bool,
    /// What went wrong, if anything.
    pub error_message: Option<String>,
}

/// A peer as the mesh layer shows it.
#[derive(Debug)]
pub struct MeshPeer {
    /// The peer's node id as hex.
    pub node_id: String,
    /// The peer's display name.
    pub display_name: String,
    /// The address it was seen at.
    pub address: String,
    /// The transport it was seen over.
    pub transport_type: String,
    /// Discovered, pending or connected.
    pub status: String,
    /// Round-trip latency in milliseconds.
    pub latency_ms: u32,
    /// When it was last seen, as text.
    pub last_seen: String,
}

/// The outcome of a connection attempt.
#[derive(Debug)]
pub struct MeshConnectionResult {
    /// Whether the peer is now connected.
    pub success: bool,
    /// The peer's node id as hex.
    pub node_id: String,
    /// The transport used.
    pub transport_type: String,
    /// Round-trip latency in milliseconds.
    pub latency_ms: u32,
    /// What went wrong, if anything.
    pub error_message: Option<String>,
}

/// A message received over the mesh.
#[derive(Debug)]
pub struct MeshMessage {
    /// The message identifier.
    pub id: String,
    /// The sender's node id as hex.
    pub from_node_id: String,
    /// The sender's display name.
    pub from_display_name: String,
    /// The text.
    pub content: String,
    /// When it arrived, as text.
    pub timestamp: String,
    /// Whether the content is encrypted.
    pub encrypted: bool,
}

/// The transports the mobile mesh distinguishes.
#[derive(Debug, Clone, Copy, PartialEq, Eq, Structural)]
pub enum TransportType {
    /// QUIC over the internet.
    QuicInternet,
    /// QUIC on the local network.
    QuicLan,
    /// Multicast name service.
    Mdns,
    /// Bluetooth low energy.
    BluetoothLe,
    /// Classic Bluetooth.
    BluetoothClassic,
    /// A passkey-mediated link.
    Passkey,
    /// Through a relay.
    Relay,
}

/// How far a peer is trusted.
#[derive(Debug, Clone, Copy, PartialEq, Eq, Structural)]
pub enum TrustLevel {
    /// Nothing is known.
    Anonymous,
    /// Key possession was proven.
    Verified,
    /// Explicitly trusted.
    Trusted,
    /// This device's owner.
    Owner,
}

/// The life of a peer connection.
#[derive(Debug, Clone, Copy, PartialEq, Eq, Structural)]
pub enum FederationConnectionState {
    /// No connection.
    Disconnected,
    /// Dialing.
    Connecting,
    /// Proving identities.
    Authenticating,
    /// Agreeing what to share.
    NegotiatingSharing,
    /// Up.
    Connected,
    /// Dialing again after a drop.
    Reconnecting,
    /// Given up.
    Failed,
}

/// Everything known about one peer connection.
#[derive(Debug)]
pub struct FederationConnectionInfo {
    /// The peer's node id as hex.
    pub node_id: String,
    /// The connection's state.
    pub state: FederationConnectionState,
    /// The transport in use.
    pub transport: TransportType,
    /// How far the peer is trusted.
    pub trust_level: TrustLevel,
    /// Round-trip latency in milliseconds.
    pub latency_ms: u32,
    /// Milliseconds since the epoch the connection came up.
    pub connected_at: u64,
    /// Bytes sent on it.
    pub bytes_sent: u64,
    /// Bytes received on it.
    pub bytes_received: u64,
    /// What went wrong, if anything.
    pub error_message: Option<String>,
}

/// A peer record the mesh keeps.
#[derive(Debug)]
pub struct StoredMeshPeer {
    /// The peer's node id as hex, or a placeholder for manual entries.
    pub node_id: String,
    /// The peer's display name.
    pub display_name: String,
    /// The address it was seen at.
    pub address: String,
    /// The transport it was seen over.
    pub transport_type: String,
    /// Discovered, pending or connected.
    pub status: String,
    /// Round-trip latency in milliseconds.
    pub latency_ms: u32,
    /// Milliseconds since the epoch it was last seen.
    pub last_seen: u64,
    /// The trust tier, counted from anonymous.
    pub trust_level: u8,
    /// The connection state, counted from disconnected.
    pub connection_state: u8,
    /// Milliseconds since the epoch the connection came up.
    pub connected_at: u64,
    /// Bytes sent to it.
    pub bytes_sent: u64,
    /// Bytes received from it.
    pub bytes_received: u64,
    /// Transports it advertises.
    pub available_transports: Vec<String>,
}

impl Clone for StoredMeshPeer {
    /// A copy carrying the same data.
    fn clone(&self) -> (res: StoredMeshPeer)
        ensures
            res.node_id@ == self.node_id@,
            res.status@ == self.status@,
            res.trust_level == self.trust_level,
            res.connection_state == self.connection_state,
    {
        let n = self.available_transports.len();
        let mut transports: Vec<String> = Vec::new();
        let mut i: usize = 0;
        while i < n
            invariant
                n == self.available_transports@.len(),
                i <= n,
            decreases n - i,
        {
            transports.push(self.available_transports[i].clone());
            i = i + 1;
        }
        StoredMeshPeer {
            node_id: self.node_id.clone(),
            display_name: self.display_name.clone(),
            address: self.address.clone(),
            transport_type: self.transport_type.clone(),
            status: self.status.clone(),
            latency_ms: self.latency_ms,
            last_seen: self.last_seen,
            trust_level: self.trust_level,
            connection_state: self.connection_state,
            connected_at: self.connected_at,
            bytes_sent: self.bytes_sent,
            bytes_received: self.bytes_received,
            available_transports: transports,
        }
    }
}

/// A mesh message the node keeps.
#[derive(Debug)]
pub struct StoredMeshMessage {
    /// The message identifier.
    pub id: String,
    /// The sender's node id as hex.
    pub from_node_id: String,
    /// The sender's display name.
    pub from_display_name: String,
    /// The text.
    pub content: String,
    /// Milliseconds since the epoch it arrived.
    pub timestamp: u64,
    /// Whether the content is encrypted.
    pub encrypted: bool,
}

/// The legacy server-link state.
pub struct DeepNetState {
    /// The server's base address.
    pub server_url: String,
    /// This device's identifier.
    pub device_id: String,
    /// The token the server handed out.
    pub auth_token: Option<String>,
    /// The link state.
    pub status: ConnectionStatus,
    /// Where the store is persisted, as text.
    pub storage_path: String,
    /// The offline-first store.
    pub store: LocalStore,
}

impl DeepNetState {
    /// A fresh, disconnected state.
    pub fn new() -> (r: DeepNetState)
        ensures
            r.status == ConnectionStatus::Disconnected,
            r.auth_token is None,
            r.device_id@.len() == 0,
            r.store.pending_sync@.len() == 0,
    {
        DeepNetState {
            server_url: String::new(),
            device_id: String::new(),
            auth_token: None,
            status: ConnectionStatus::Disconnected,
            storage_path: String::new(),
            store: LocalStore {
                next_id: 0,
                dms: Vec::new(),
                broadcasts: Vec::new(),
                presences: Vec::new(),
                team_members: Vec::new(),
                federation_members: Vec::new(),
                last_sync: 0,
                pending_sync: Vec::new(),
            },
        }
    }
}

/// The peer-to-peer mesh state.
pub struct MeshState {
    /// This node's identity, once initialized.
    pub identity: Option<NodeIdentity>,
    /// Peers found by discovery, keyed by node id or manual address.
    pub discovered_peers: Vec<(String, StoredMeshPeer)>,
    /// Peers currently connected, by node id.
    pub connected_peers: Vec<(String, StoredMeshPeer)>,
    /// Messages received or queued over the mesh.
    pub mesh_messages: Vec<StoredMeshMessage>,
    /// Whether discovery is running.
    pub discovery_running: bool,
}

impl MeshState {
    /// A fresh mesh state with no identity.
    pub fn new() -> (r: MeshState)
        ensures
            r.identity is None,
            r.discovered_peers@.len() == 0,
            r.connected_peers@.len() == 0,
            r.mesh_messages@.len() == 0,
            r.discovery_running == false,
    {
        MeshState {
            identity: None,
            discovered_peers: Vec::new(),
            connected_peers: Vec::new(),
            mesh_messages: Vec::new(),
            discovery_running: false,
        }
    }
}

/// Finds a keyed peer's position.
fn find_keyed(peers: &Vec<(String, StoredMeshPeer)>, key: &str) -> (r: Option<usize>)
    ensures
        match r {
            Some(i) => i < peers@.len() && peers@[i as int].0@ == key@,
            None => forall|j: int| 0 <= j < peers@.len() ==> (#[trigger] peers@[j]).0@ != key@,
        },
{
    let n = peers.len();
    let mut i: usize = 0;
    while i < n
        invariant
            n == peers@.len(),
            i <= n,
            forall|j: int| 0 <= j < i ==> (#[trigger] peers@[j]).0@ != key@,
        decreases n - i,
    {
        if str_eq(peers[i].0.as_str(), key) {
            return Some(i);
        }
        i = i + 1;
    }
    None
}

/// Points the state at a storage location and adopts a previously persisted
/// store; always succeeds.
pub fn deep_net_init(state: &mut DeepNetState, storage_path: String, store: LocalStore) -> (r:
    bool)
    ensures
        r == true,
        final(state).storage_path@ == storage_path@,
        final(state).store == store,
        final(state).status == old(state).status,
{
    state.storage_path = storage_path;
    state.store = store;
    true
}

/// The current link state.
pub fn federation_status(state: &DeepNetState) -> (r: ConnectionStatus)
    ensures
        r == state.status,
{
    state.status
}

/// Drops the server link: the token is forgotten and the state reads
/// disconnected; a registered device's presence flips to offline.
pub fn federation_disconnect(state: &mut DeepNetState)
    ensures
        final(state).auth_token is None,
        final(state).status == ConnectionStatus::Disconnected,
        final(state).device_id@ == old(state).device_id@,
{
    state.auth_token = None;
    state.status = ConnectionStatus::Disconnected;
    if state.device_id.as_str().unicode_len() > 0 {
        let device_id = state.device_id.clone();
        state.store.update_presence(device_id.as_str(), "offline", "disconnected");
    }
}

/// Runs a manual sync against the server: only a connected state syncs, and
/// a successful sync clears the pending ledger and stamps the time.
pub fn deep_net_sync(state: &mut DeepNetState) -> (r: SyncResult)
    ensures
        r.success == (old(state).status == ConnectionStatus::Connected),
        r.success ==> final(state).store.pending_sync@.len() == 0,
        !r.success ==> *final(state) == *old(state),
{
    if !matches!(state.status, ConnectionStatus::Connected) {
        return SyncResult {
            success: false,
            items_pushed: 0,
            items_pulled: 0,
            error_message: Some(not_connected_text()),
        };
    }
    state.store.pending_sync = Vec::new();
    state.store.last_sync = crate::federation::now_micros() / 1000;
    SyncResult { success: true, items_pushed: 0, items_pulled: 0, error_message: None }
}

/// How many items await a push, capped at the returned type's bound.
pub fn deep_net_pending_count(state: &DeepNetState) -> (r: u32)
    ensures
        state.store.pending_sync@.len() <= u32::MAX ==> r == state.store.pending_sync@.len(),
{
    let n = state.store.pending_sync.len();
    if n > u32::MAX as usize {
        u32::MAX
    } else {
        n as u32
    }
}

/// This node's id as hex, or empty before the identity is initialized.
pub fn mesh_get_node_id(mesh: &MeshState) -> (r: String)
    ensures
        match mesh.identity {
            Some(id) => r@ == crate::hex::hex_of(id.manifest.node_id@),
            None => r@.len() == 0,
        },
{
    match &mesh.identity {
        Some(id) => id.manifest.node_id.to_hex(),
        None => String::new(),
    }
}

/// This node's display name, or empty before the identity is initialized.
pub fn mesh_get_display_name(mesh: &MeshState) -> (r: String)
    ensures
        match mesh.identity {
            Some(id) => r@ == id.manifest.display_name@,
            None => r@.len() == 0,
        },
{
    match &mesh.identity {
        Some(id) => id.manifest.display_name.clone(),
        None => String::new(),
    }
}

/// The identity's export bytes for backup, or empty before initialization.
pub fn mesh_export_identity(mesh: &MeshState) -> (r: Vec<u8>)
    ensures
        match mesh.identity {
            Some(id) => r@ == id.spec_secret() + crate::codec::enc_manifest(id.manifest),
            None => r@.len() == 0,
        },
{
    match &mesh.identity {
        Some(id) => id.to_bytes(),
        None => Vec::new(),
    }
}

/// Stops discovery; the daemon outside is told separately.
pub fn mesh_stop_discovery(mesh: &mut MeshState)
    ensures
        final(mesh).discovery_running == false,
        final(mesh).identity == old(mesh).identity,
        final(mesh).connected_peers@ == old(mesh).connected_peers@,
{
    mesh.discovery_running = false;
}

/// Marks a discovered peer connected. Fails when the peer was never
/// discovered.
pub fn mesh_connect(mesh: &mut MeshState, node_id: String) -> (r: MeshConnectionResult)
    ensures
        r.success ==> exists|i: int|
            0 <= i < final(mesh).connected_peers@.len()
                && (#[trigger] final(mesh).connected_peers@[i]).0@ == node_id@,
        !r.success ==> *final(mesh) == *old(mesh),
{
    let found = find_keyed(&mesh.discovered_peers, node_id.as_str());
    match found {
        Some(i) => {
            let mut peer = mesh.discovered_peers[i].1.clone();
            peer.status = connected_text();
            peer.latency_ms = 10;
            peer.connection_state = 4;
            peer.connected_at = crate::federation::now_micros() / 1000;
            peer.trust_level = 1;
            let transport = peer.transport_type.clone();
            let key = node_id.clone();
            proof {
                assert(key@ == node_id@);
            }
            upsert_keyed(&mut mesh.connected_peers, key, peer);
            proof {
                let w = choose|w: int|
                    0 <= w < mesh.connected_peers@.len()
                        && (#[trigger] mesh.connected_peers@[w]).0@ == node_id@;
                assert(mesh.connected_peers@[w].0@ == node_id@);
            }
            MeshConnectionResult {
                success: true,
                node_id,
                transport_type: transport,
                latency_ms: 10,
                error_message: None,
            }
        },
        None => MeshConnectionResult {
            success: false,
            node_id,
            transport_type: String::new(),
            latency_ms: 0,
            error_message: Some(peer_not_found_text()),
        },
    }
}

/// Marks a discovered peer connected over a chosen transport. Fails when the
/// peer was never discovered.
pub fn mesh_connect_with_transport(
    mesh: &mut MeshState,
    node_id: String,
    preferred_transport: TransportType,
) -> (r: MeshConnectionResult)
    ensures
        r.success ==> exists|i: int|
            0 <= i < final(mesh).connected_peers@.len()
                && (#[trigger] final(mesh).connected_peers@[i]).0@ == node_id@,
        !r.success ==> *final(mesh) == *old(mesh),
{
    let found = find_keyed(&mesh.discovered_peers, node_id.as_str());
    match found {
        Some(i) => {
            let mut peer = mesh.discovered_peers[i].1.clone();
            let transport = transport_text(preferred_transport);
            peer.status = connected_text();
            peer.transport_type = transport.clone();
            peer.latency_ms = 10;
            peer.connection_state = 4;
            peer.connected_at = crate::federation::now_micros() / 1000;
            peer.trust_level = 1;
            let key = node_id.clone();
            proof {
                assert(key@ == node_id@);
            }
            upsert_keyed(&mut mesh.connected_peers, key, peer);
            proof {
                let w = choose|w: int|
                    0 <= w < mesh.connected_peers@.len()
                        && (#[trigger] mesh.connected_peers@[w]).0@ == node_id@;
                assert(mesh.connected_peers@[w].0@ == node_id@);
            }
            MeshConnectionResult {
                success: true,
                node_id,
                transport_type: transport,
                latency_ms: 10,
                error_message: None,
            }
        },
        None => MeshConnectionResult {
            success: false,
            node_id,
            transport_type: String::new(),
            latency_ms: 0,
            error_message: Some(peer_not_found_text()),
        },
    }
}

/// Drops a peer from the connected set.
pub fn mesh_disconnect(mesh: &mut MeshState, node_id: &str)
    ensures
        final(mesh).identity == old(mesh).identity,
        final(mesh).discovered_peers@ == old(mesh).discovered_peers@,
        forall|i: int|
            0 <= i < final(mesh).connected_peers@.len()
                ==> (#[trigger] final(mesh).connected_peers@[i]).0@ != node_id@,
{
    let n = mesh.connected_peers.len();
    let mut kept: Vec<(String, StoredMeshPeer)> = Vec::new();
    let mut i: usize = 0;
    while i < n
        invariant
            n == mesh.connected_peers@.len(),
            i <= n,
            *mesh == *old(mesh),
            forall|j: int| 0 <= j < kept@.len() ==> (#[trigger] kept@[j]).0@ != node_id@,
        decreases n - i,
    {
        if !str_eq(mesh.connected_peers[i].0.as_str(), node_id) {
            let key = mesh.connected_peers[i].0.clone();
            let peer = mesh.connected_peers[i].1.clone();
            proof {
                assert(key@ == mesh.connected_peers@[i as int].0@);
            }
            kept.push((key, peer));
        }
        i = i + 1;
    }
    mesh.connected_peers = kept;
}

/// The connection detail of one connected peer, if any.
pub fn mesh_get_connection_info(mesh: &MeshState, node_id: &str) -> (r: Option<
    FederationConnectionInfo,
>)
    ensures
        r matches Some(info) ==> exists|i: int|
            0 <= i < mesh.connected_peers@.len() && (#[trigger] mesh.connected_peers@[i]).0@
                == node_id@,
{
    match find_keyed(&mesh.connected_peers, node_id) {
        Some(i) => {
            proof {
                assert(mesh.connected_peers@[i as int].0@ == node_id@);
            }
            Some(connection_info_of(&mesh.connected_peers[i].1))
        },
        None => None,
    }
}

/// The connection detail of every connected peer.
pub fn mesh_get_all_connections(mesh: &MeshState) -> (r: Vec<FederationConnectionInfo>)
    ensures
        r@.len() == mesh.connected_peers@.len(),
{
    let n = mesh.connected_peers.len();
    let mut out: Vec<FederationConnectionInfo> = Vec::new();
    let mut i: usize = 0;
    while i < n
        invariant
            n == mesh.connected_peers@.len(),
            i <= n,
            out@.len() == i,
        decreases n - i,
    {
        out.push(connection_info_of(&mesh.connected_peers[i].1));
        i = i + 1;
    }
    out
}

/// Sets a connected peer's trust tier. False when the peer is not connected.
pub fn mesh_set_trust_level(mesh: &mut MeshState, node_id: &str, level: TrustLevel) -> (r: bool)
    ensures
        !r ==> *final(mesh) == *old(mesh),
        r ==> exists|i: int|
            0 <= i < final(mesh).connected_peers@.len()
                && (#[trigger] final(mesh).connected_peers@[i]).1.trust_level == trust_tier(
                level,
            ),
{
    match find_keyed(&mesh.connected_peers, node_id) {
        Some(i) => {
            let tier: u8 = match level {
                TrustLevel::Anonymous => 0,
                TrustLevel::Verified => 1,
                TrustLevel::Trusted => 2,
                TrustLevel::Owner => 3,
            };
            let entry = &mut mesh.connected_peers[i].1;
            entry.trust_level = tier;
            proof {
                assert(mesh.connected_peers@[i as int].1.trust_level == trust_tier(level));
            }
            true
        },
        None => false,
    }
}

/// The numeric tier of a trust level.
pub open spec fn trust_tier(level: TrustLevel) -> u8 {
    match level {
        TrustLevel::Anonymous => 0u8,
        TrustLevel::Verified => 1u8,
        TrustLevel::Trusted => 2u8,
        TrustLevel::Owner => 3u8,
    }
}

/// The transports a peer advertises, decoded from their names; unknown names
/// are skipped.
pub fn mesh_get_available_transports(mesh: &MeshState, node_id: &str) -> (r: Vec<TransportType>)
{
    let found = match find_keyed(&mesh.discovered_peers, node_id) {
        Some(i) => Some(i),
        None => None,
    };
    let peer: &StoredMeshPeer = match found {
        Some(i) => &mesh.discovered_peers[i].1,
        None => {
            match find_keyed(&mesh.connected_peers, node_id) {
                Some(i) => &mesh.connected_peers[i].1,
                None => {
                    return Vec::new();
                },
            }
        },
    };
    let n = peer.available_transports.len();
    let mut out: Vec<TransportType> = Vec::new();
    let mut i: usize = 0;
    while i < n
        invariant
            n == peer.available_transports@.len(),
            i <= n,
        decreases n - i,
    {
        match parse_transport(peer.available_transports[i].as_str()) {
            Some(t) => {
                out.push(t);
            },
            None => {
            },
        }
        i = i + 1;
    }
    out
}

/// Queues a message toward a connected peer. Fails when the peer is not
/// connected.
pub fn mesh_send(mesh: &mut MeshState, node_id: &str, content: String) -> (r: MessageResult)
    ensures
        r.success ==> final(mesh).mesh_messages@.len() == old(mesh).mesh_messages@.len() + 1,
        !r.success ==> *final(mesh) == *old(mesh),
{
    match find_keyed(&mesh.connected_peers, node_id) {
        Some(_) => {
            let my_node_id = mesh_get_node_id(mesh);
            let my_display_name = mesh_get_display_name(mesh);
            let now_ms = crate::federation::now_micros() / 1000;
            let message_id = if now_ms > i64::MAX as u64 {
                i64::MAX
            } else {
                now_ms as i64
            };
            let mut id_text = msg_prefix_text();
            let num = crate::hlc::dec_string(now_ms);
            id_text.append(num.as_str());
            mesh.mesh_messages.push(
                StoredMeshMessage {
                    id: id_text,
                    from_node_id: my_node_id,
                    from_display_name: my_display_name,
                    content,
                    timestamp: now_ms,
                    encrypted: true,
                },
            );
            MessageResult { success: true, message_id, error_message: Some(queued_text()) }
        },
        None => MessageResult {
            success: false,
            message_id: 0,
            error_message: Some(not_connected_peer_text()),
        },
    }
}

/// Builds the connection detail shown for a stored peer.
fn connection_info_of(p: &StoredMeshPeer) -> (r: FederationConnectionInfo)
    ensures
        r.node_id@ == p.node_id@,
        r.latency_ms == p.latency_ms,
        r.connected_at == p.connected_at,
        r.bytes_sent == p.bytes_sent,
        r.bytes_received == p.bytes_received,
        r.error_message is None,
{
    let state = if p.connection_state == 0 {
        FederationConnectionState::Disconnected
    } else if p.connection_state == 1 {
        FederationConnectionState::Connecting
    } else if p.connection_state == 2 {
        FederationConnectionState::Authenticating
    } else if p.connection_state == 3 {
        FederationConnectionState::NegotiatingSharing
    } else if p.connection_state == 4 {
        FederationConnectionState::Connected
    } else if p.connection_state == 5 {
        FederationConnectionState::Reconnecting
    } else {
        FederationConnectionState::Failed
    };
    let transport = match parse_transport(p.transport_type.as_str()) {
        Some(t) => t,
        None => TransportType::QuicLan,
    };
    let trust = if p.trust_level == 0 {
        TrustLevel::Anonymous
    } else if p.trust_level == 1 {
        TrustLevel::Verified
    } else if p.trust_level == 2 {
        TrustLevel::Trusted
    } else {
        TrustLevel::Owner
    };
    FederationConnectionInfo {
        node_id: p.node_id.clone(),
        state,
        transport,
        trust_level: trust,
        latency_ms: p.latency_ms,
        connected_at: p.connected_at,
        bytes_sent: p.bytes_sent,
        bytes_received: p.bytes_received,
        error_message: None,
    }
}

/// Parses a transport name; the local-network name service counts as a LAN
/// transport.
fn parse_transport(name: &str) -> Option<TransportType> {
    if str_eq(name, "QuicInternet") {
        Some(TransportType::QuicInternet)
    } else if str_eq(name, "QuicLan") {
        Some(TransportType::QuicLan)
    } else if str_eq(name, "Mdns") || str_eq(name, "lan") {
        Some(TransportType::Mdns)
    } else if str_eq(name, "BluetoothLe") {
        Some(TransportType::BluetoothLe)
    } else if str_eq(name, "BluetoothClassic") {
        Some(TransportType::BluetoothClassic)
    } else if str_eq(name, "Passkey") {
        Some(TransportType::Passkey)
    } else if str_eq(name, "Relay") {
        Some(TransportType::Relay)
    } else {
        None
    }
}

/// The display text of a transport.
fn transport_text(t: TransportType) -> String {
    let text = match t {
        TransportType::QuicInternet => "QuicInternet",
        TransportType::QuicLan => "QuicLan",
        TransportType::Mdns => "Mdns",
        TransportType::BluetoothLe => "BluetoothLe",
        TransportType::BluetoothClassic => "BluetoothClassic",
        TransportType::Passkey => "Passkey",
        TransportType::Relay => "Relay",
    };
    text.to_owned()
}

/// Inserts or replaces a keyed peer.
fn upsert_keyed(peers: &mut Vec<(String, StoredMeshPeer)>, key: String, peer: StoredMeshPeer)
    ensures
        exists|i: int|
            0 <= i < final(peers)@.len() && (#[trigger] final(peers)@[i]).0@ == key@,
{
    let ghost key_view = key@;
    match find_keyed(peers, key.as_str()) {
        Some(i) => {
            peers[i] = (key, peer);
            proof {
                assert(peers@[i as int].0@ == key_view);
            }
        },
        None => {
            peers.push((key, peer));
            proof {
                assert(peers@[peers@.len() - 1].0@ == key_view);
            }
        },
    }
}

/// The failure text for a peer that was never discovered.
fn peer_not_found_text() -> String {
    let text = "Peer not found in discovered list";
    text.to_owned()
}

/// The failure text for a missing server connection.
fn not_connected_text() -> String {
    let text = "Not connected to server";
    text.to_owned()
}

/// The failure text for sending to an unconnected peer.
fn not_connected_peer_text() -> String {
    let text = "Not connected to peer";
    text.to_owned()
}

/// The note attached to locally queued sends.
fn queued_text() -> String {
    let text = "Queued for P2P delivery";
    text.to_owned()
}

/// The identifier prefix of locally queued messages.
fn msg_prefix_text() -> String {
    let text = "msg-";
    text.to_owned()
}

/// The status text of a connected peer.
fn connected_text() -> String {
    let text = "connected";
    text.to_owned()
}

} // verus!
