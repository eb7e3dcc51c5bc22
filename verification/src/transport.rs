//! The transport model: address kinds, connection metrics and the wire
//! framing shared by every stream transport.
//!
//! A frame is a four-byte big-endian length followed by the envelope's
//! canonical bytes; a receiver rejects any frame longer than ten mebibytes.

use vstd::prelude::*;
use crate::identity::NodeId;

verus! {

/// The largest frame a receiver accepts: ten mebibytes.
pub const MAX_FRAME_LEN: u32 = 10485760;

/// The kinds of transport a node can use.
#[derive(Debug, Clone, Copy, PartialEq, Eq, Structural, Hash)]
pub enum TransportType {
    /// Same-device communication.
    Local,
    /// The local network.
    Lan,
    /// Bluetooth low energy.
    Bluetooth,
    /// Direct device-to-device radio.
    WifiDirect,
    /// The open internet.
    Internet,
    /// Through a relay node.
    Relay,
}

/// An address a node can be reached at; each kind maps to one transport.
#[derive(Debug)]
pub enum NodeAddress {
    /// A same-device socket path.
    Local {
        /// The socket path.
        path: String,
    },
    /// A TCP address, written as host and port text.
    Tcp {
        /// The address text.
        addr: String,
    },
    /// A QUIC address, with an optional server name for the handshake.
    Quic {
        /// The address text.
        addr: String,
        /// The server name presented during the handshake.
        server_name: Option<String>,
    },
    /// A Bluetooth device and service.
    Bluetooth {
        /// The device identifier.
        device_id: String,
        /// The service identifier.
        service_uuid: String,
    },
    /// A direct radio group.
    WifiDirect {
        /// The group owner.
        group_owner: String,
        /// The group passphrase, if one is set.
        passphrase: Option<String>,
    },
    /// A path through a relay node to a target.
    Relay {
        /// The relaying node.
        relay_node: NodeId,
        /// The node reached through it.
        target_node: NodeId,
    },
}

/// The transport an address belongs to.
pub open spec fn spec_transport_type(a: NodeAddress) -> TransportType {
    match a {
        NodeAddress::Local { .. } => TransportType::Local,
        NodeAddress::Tcp { .. } => TransportType::Lan,
        NodeAddress::Quic { .. } => TransportType::Internet,
        NodeAddress::Bluetooth { .. } => TransportType::Bluetooth,
        NodeAddress::WifiDirect { .. } => TransportType::WifiDirect,
        NodeAddress::Relay { .. } => TransportType::Relay,
    }
}

impl NodeAddress {
    /// The transport this address belongs to.
    pub fn transport_type(&self) -> (r: TransportType)
        ensures
            r == spec_transport_type(*self),
    {
        match self {
            NodeAddress::Local { .. } => TransportType::Local,
            NodeAddress::Tcp { .. } => TransportType::Lan,
            NodeAddress::Quic { .. } => TransportType::Internet,
            NodeAddress::Bluetooth { .. } => TransportType::Bluetooth,
            NodeAddress::WifiDirect { .. } => TransportType::WifiDirect,
            NodeAddress::Relay { .. } => TransportType::Relay,
        }
    }
}

/// The order connections are attempted in: nearer transports first.
pub open spec fn spec_priority(t: TransportType) -> u8 {
    match t {
        TransportType::Local => 0u8,
        TransportType::Lan => 1u8,
        TransportType::WifiDirect => 2u8,
        TransportType::Internet => 3u8,
        TransportType::Bluetooth => 4u8,
        TransportType::Relay => 5u8,
    }
}

/// The priority of a transport: lower is tried first.
pub fn transport_priority(t: TransportType) -> (r: u8)
    ensures
        r == spec_priority(t),
{
    match t {
        TransportType::Local => 0,
        TransportType::Lan => 1,
        TransportType::WifiDirect => 2,
        TransportType::Internet => 3,
        TransportType::Bluetooth => 4,
        TransportType::Relay => 5,
    }
}

/// The positions of a node's addresses, ordered by transport priority:
/// nearer transports come first, equal priorities keep their given order.
pub fn order_addresses(addresses: &Vec<NodeAddress>) -> (r: Vec<usize>)
    ensures
        r@.len() == addresses@.len(),
        forall|i: int| 0 <= i < r@.len() ==> (#[trigger] r@[i]) < addresses@.len(),
        forall|i: int, j: int|
            0 <= i < j < r@.len() ==> spec_priority(
                spec_transport_type(addresses@[r@[i] as int]),
            ) <= spec_priority(spec_transport_type(addresses@[r@[j] as int])),
{
    let n = addresses.len();
    let mut positions: Vec<usize> = Vec::new();
    let mut k: usize = 0;
    while k < n
        invariant
            n == addresses@.len(),
            k <= n,
            positions@.len() == k,
            forall|x: int| 0 <= x < k ==> (#[trigger] positions@[x]) == x,
        decreases n - k,
    {
        positions.push(k);
        k = k + 1;
    }
    sort_by_priority(addresses, positions)
}

/// Orders address positions by priority with a stable insertion.
fn sort_by_priority(addresses: &Vec<NodeAddress>, positions: Vec<usize>) -> (r: Vec<usize>)
    requires
        forall|i: int| 0 <= i < positions@.len() ==> (#[trigger] positions@[i]) < addresses@.len(),
    ensures
        r@.len() == positions@.len(),
        forall|i: int| 0 <= i < r@.len() ==> (#[trigger] r@[i]) < addresses@.len(),
        forall|i: int, j: int|
            0 <= i < j < r@.len() ==> spec_priority(
                spec_transport_type(addresses@[r@[i] as int]),
            ) <= spec_priority(spec_transport_type(addresses@[r@[j] as int])),
{
    let n = positions.len();
    let mut out: Vec<usize> = Vec::new();
    let mut i: usize = 0;
    while i < n
        invariant
            n == positions@.len(),
            i <= n,
            out@.len() == i,
            forall|x: int|
                0 <= x < positions@.len() ==> (#[trigger] positions@[x]) < addresses@.len(),
            forall|x: int| 0 <= x < out@.len() ==> (#[trigger] out@[x]) < addresses@.len(),
            forall|x: int, y: int|
                0 <= x < y < out@.len() ==> spec_priority(
                    spec_transport_type(addresses@[out@[x] as int]),
                ) <= spec_priority(spec_transport_type(addresses@[out@[y] as int])),
        decreases n - i,
    {
        let pos = positions[i];
        let pri = transport_priority(addresses[pos].transport_type());
        let m = out.len();
        let mut at: usize = 0;
        while at < m && transport_priority(addresses[out[at]].transport_type()) <= pri
            invariant
                m == out@.len(),
                at <= m,
                pos < addresses@.len(),
                pri == spec_priority(spec_transport_type(addresses@[pos as int])),
                forall|x: int| 0 <= x < out@.len() ==> (#[trigger] out@[x]) < addresses@.len(),
                forall|x: int|
                    0 <= x < at ==> spec_priority(
                        spec_transport_type(addresses@[out@[x] as int]),
                    ) <= pri,
            decreases m - at,
        {
            at = at + 1;
        }
        let ghost insert_at = at as int;
        let ghost before = out@;
        out.insert(at, pos);
        proof {
            assert(insert_at == m || spec_priority(
                spec_transport_type(addresses@[before[insert_at] as int]),
            ) > pri);
            assert forall|x: int, y: int|
                0 <= x < y < out@.len() implies spec_priority(
                spec_transport_type(addresses@[out@[x] as int]),
            ) <= spec_priority(spec_transport_type(addresses@[out@[y] as int])) by {
                if x < insert_at && y < insert_at {
                    assert(out@[x] == before[x] && out@[y] == before[y]);
                } else if x < insert_at && y == insert_at {
                    assert(out@[x] == before[x]);
                } else if x < insert_at && y > insert_at {
                    assert(out@[x] == before[x] && out@[y] == before[y - 1]);
                } else if x == insert_at && y > insert_at {
                    assert(out@[y] == before[y - 1]);
                } else {
                    assert(out@[x] == before[x - 1] && out@[y] == before[y - 1]);
                }
            }
        }
        i = i + 1;
    }
    out
}

/// Connection quality numbers.
#[derive(Debug, Clone, Copy, PartialEq, Eq, Structural)]
pub struct ConnectionMetrics {
    /// Round-trip latency in milliseconds.
    pub latency_ms: u32,
    /// The estimated bandwidth class.
    pub bandwidth: BandwidthTier,
    /// Lost packets out of a hundred.
    pub packet_loss: u8,
    /// Whether the link is encrypted.
    pub encrypted: bool,
    /// Relay hops between the endpoints; zero means direct.
    pub hops: u8,
}

/// A rough bandwidth classification.
#[derive(Debug, Clone, Copy, PartialEq, Eq, Structural, Hash)]
pub enum BandwidthTier {
    /// Below what messaging needs.
    VeryLow,
    /// Usable but slow.
    Low,
    /// Ordinary wireless.
    Medium,
    /// Fast wireless or better.
    High,
    /// Wired-class.
    VeryHigh,
}

impl Default for BandwidthTier {
    /// The default assumption: ordinary wireless.
    fn default() -> (r: BandwidthTier)
        ensures
            r == BandwidthTier::Medium,
    {
        BandwidthTier::Medium
    }
}

/// Failures of transports.
#[derive(Debug)]
pub enum TransportError {
    /// The connection could not be made, with the transport's reason.
    ConnectionFailed(String),
    /// The other side refused.
    ConnectionRefused,
    /// The connection ended cleanly.
    ConnectionClosed,
    /// The attempt ran out of time.
    Timeout,
    /// No registered transport handles the address.
    UnsupportedAddress,
    /// The bytes on the wire did not decode.
    SerializationError(String),
    /// The operating system reported a failure.
    IoError(String),
    /// The secure channel could not be set up.
    TlsError(String),
    /// The other side broke the wire protocol.
    ProtocolError(String),
    /// A relay failed.
    RelayError(String),
}

/// The four-byte big-endian rendering of a frame length.
pub open spec fn spec_u32_be_bytes(n: u32) -> Seq<u8> {
    seq![
        ((n / 0x100_0000) % 256) as u8,
        ((n / 0x1_0000) % 256) as u8,
        ((n / 0x100) % 256) as u8,
        (n % 256) as u8,
    ]
}

/// The length a four-byte big-endian header denotes.
pub open spec fn spec_u32_from_be(s: Seq<u8>) -> int
    recommends
        s.len() == 4,
{
    s[0] * 0x100_0000 + s[1] * 0x1_0000 + s[2] * 0x100 + s[3]
}

/// Frames one envelope's bytes: a four-byte big-endian length, then the
/// bytes. Payloads over the frame bound are refused.
pub fn frame_message(payload: &[u8]) -> (r: Result<Vec<u8>, TransportError>)
    ensures
        match r {
            Ok(framed) => payload@.len() <= MAX_FRAME_LEN && framed@ == spec_u32_be_bytes(
                payload@.len() as u32,
            ) + payload@,
            Err(TransportError::ProtocolError(_)) => payload@.len() > MAX_FRAME_LEN,
            Err(_) => false,
        },
{
    if payload.len() > MAX_FRAME_LEN as usize {
        return Err(TransportError::ProtocolError(frame_too_large_text()));
    }
    let n = payload.len() as u32;
    let mut framed: Vec<u8> = Vec::new();
    framed.push(((n / 0x100_0000) % 256) as u8);
    framed.push(((n / 0x1_0000) % 256) as u8);
    framed.push(((n / 0x100) % 256) as u8);
    framed.push((n % 256) as u8);
    let mut body = vstd::slice::slice_to_vec(payload);
    framed.append(&mut body);
    proof {
        assert(framed@ =~= spec_u32_be_bytes(payload@.len() as u32) + payload@);
    }
    Ok(framed)
}

/// Reads a frame header: the length of the body that follows. A length over
/// ten mebibytes is a protocol error and the stream must be closed.
pub fn read_frame_length(header: &[u8]) -> (r: Result<usize, TransportError>)
    requires
        header@.len() == 4,
    ensures
        match r {
            Ok(n) => n == spec_u32_from_be(header@) && n <= MAX_FRAME_LEN,
            Err(TransportError::ProtocolError(_)) => spec_u32_from_be(header@) > MAX_FRAME_LEN,
            Err(_) => false,
        },
{
    let n: u32 = (header[0] as u32) * 0x100_0000 + (header[1] as u32) * 0x1_0000 + (header[2]
        as u32) * 0x100 + (header[3] as u32);
    if n > MAX_FRAME_LEN {
        return Err(TransportError::ProtocolError(frame_too_large_text()));
    }
    Ok(n as usize)
}

/// The protocol-error text for an oversized frame.
fn frame_too_large_text() -> String {
    let text = "Message too large";
    text.to_owned()
}

} // verus!
