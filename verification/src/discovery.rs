//! Peer discovery records and the cache that merges what the mechanisms
//! find.
//!
//! Records merge idempotently: the newer sighting wins, the first manifest is
//! kept, addresses are a set, and metadata keys keep their first writer. The
//! mechanisms that browse a network live outside the library and hand their
//! findings in.

use vstd::prelude::*;
use crate::identity::{NodeId, NodeManifest};
use crate::transport::NodeAddress;

verus! {

/// How a node was discovered.
#[derive(Debug, Clone, Copy, PartialEq, Eq, Structural, Hash)]
pub enum DiscoveryType {
    /// On the same device.
    Local,
    /// By multicast name service on the local network.
    Mdns,
    /// By radio scan.
    Bluetooth,
    /// Through a distributed hash table.
    Dht,
    /// Learned from gossip.
    Gossip,
    /// Configured by hand.
    Static,
}

/// What is known about a discovered node.
#[derive(Debug)]
pub struct DiscoveredNode {
    /// The node's identifier.
    pub node_id: NodeId,
    /// Its manifest, when one was obtained.
    pub manifest: Option<NodeManifest>,
    /// Addresses it was seen at.
    pub addresses: Vec<NodeAddress>,
    /// Seconds since the epoch it was last seen.
    pub last_seen: u64,
    /// How it was discovered.
    pub discovery_type: DiscoveryType,
    /// Relay hops away; zero means direct.
    pub hop_count: u8,
    /// Mechanism-specific notes, first writer kept per key.
    pub metadata: Vec<(String, String)>,
}

/// Whether an equal address is present in a list.
pub open spec fn addr_represented(s: Seq<NodeAddress>, a: NodeAddress) -> bool {
    exists|i: int| 0 <= i < s.len() && spec_address_eq(#[trigger] s[i], a)
}

/// Address representation survives keeping a list or appending to it.
proof fn lemma_addr_represented_extend(s: Seq<NodeAddress>, s2: Seq<NodeAddress>, a: NodeAddress)
    requires
        addr_represented(s, a),
        s2.len() >= s.len(),
        forall|x: int| 0 <= x < s.len() ==> s2[x] == s[x],
    ensures
        addr_represented(s2, a),
{
    let i = choose|i: int| 0 <= i < s.len() && spec_address_eq(#[trigger] s[i], a);
    assert(s2[i] == s[i]);
    assert(spec_address_eq(s2[i], a));
}

impl DiscoveredNode {
    /// A fresh record for a node seen now.
    pub fn new(node_id: NodeId, discovery_type: DiscoveryType) -> (r: DiscoveredNode)
        ensures
            r.node_id@ == node_id@,
            r.manifest is None,
            r.addresses@.len() == 0,
            r.discovery_type == discovery_type,
            r.hop_count == 0,
            r.metadata@.len() == 0,
    {
        DiscoveredNode {
            node_id,
            manifest: None,
            addresses: Vec::new(),
            last_seen: crate::identity::now_seconds(),
            discovery_type,
            hop_count: 0,
            metadata: Vec::new(),
        }
    }

    /// Marks the node as seen now.
    pub fn touch(&mut self)
        ensures
            final(self).node_id == old(self).node_id,
            final(self).manifest == old(self).manifest,
            final(self).addresses@ == old(self).addresses@,
            final(self).metadata@ == old(self).metadata@,
    {
        self.last_seen = crate::identity::now_seconds();
    }

    /// Whether the node has not been seen within the given age at the given
    /// time.
    pub fn is_stale_at(&self, max_age_secs: u64, now_secs: u64) -> (r: bool)
        ensures
            r == (now_secs - self.last_seen > max_age_secs),
    {
        if now_secs >= self.last_seen {
            now_secs - self.last_seen > max_age_secs
        } else {
            false
        }
    }

    /// Whether the node has not been seen within the given age.
    pub fn is_stale(&self, max_age_secs: u64) -> bool {
        let now_secs = crate::identity::now_seconds();
        if now_secs >= self.last_seen {
            self.is_stale_at(max_age_secs, now_secs)
        } else {
            false
        }
    }

    /// Merges another sighting of the same node: the newer last-seen wins,
    /// the first manifest is kept, new addresses join, and metadata keys
    /// keep their first writer.
    pub fn merge(&mut self, other: &DiscoveredNode)
        ensures
            final(self).node_id == old(self).node_id,
            final(self).last_seen == (if other.last_seen > old(self).last_seen {
                other.last_seen
            } else {
                old(self).last_seen
            }),
            old(self).manifest is Some ==> final(self).manifest == old(self).manifest,
            old(self).manifest is None && other.manifest is Some ==> (final(self).manifest
                matches Some(kept) && other.manifest matches Some(theirs)
                && crate::identity::manifest_eq(kept, theirs)),
            final(self).addresses@.len() >= old(self).addresses@.len(),
            forall|i: int|
                0 <= i < old(self).addresses@.len() ==> final(self).addresses@[i] == old(
                    self,
                ).addresses@[i],
            forall|j: int|
                0 <= j < other.addresses@.len() ==> addr_represented(
                    final(self).addresses@,
                    #[trigger] other.addresses@[j],
                ),
            final(self).metadata@.len() >= old(self).metadata@.len(),
            forall|i: int|
                0 <= i < old(self).metadata@.len() ==> final(self).metadata@[i] == old(
                    self,
                ).metadata@[i],
    {
        if other.last_seen > self.last_seen {
            self.last_seen = other.last_seen;
        }
        if self.manifest.is_none() {
            match &other.manifest {
                Some(m) => {
                    self.manifest = Some(m.clone());
                },
                None => {
                },
            }
        }
        // Addresses are a set under their canonical text; duplicates stay
        // out.
        let n = other.addresses.len();
        let mut i: usize = 0;
        while i < n
            invariant
                n == other.addresses@.len(),
                i <= n,
                self.node_id == old(self).node_id,
                self.last_seen == (if other.last_seen > old(self).last_seen {
                    other.last_seen
                } else {
                    old(self).last_seen
                }),
                old(self).manifest is Some ==> self.manifest == old(self).manifest,
                old(self).manifest is None && other.manifest is Some ==> (self.manifest
                    matches Some(kept) && other.manifest matches Some(theirs)
                    && crate::identity::manifest_eq(kept, theirs)),
                self.addresses@.len() >= old(self).addresses@.len(),
                forall|x: int|
                    0 <= x < old(self).addresses@.len() ==> self.addresses@[x] == old(
                        self,
                    ).addresses@[x],
                forall|j: int|
                    0 <= j < i ==> addr_represented(
                        self.addresses@,
                        #[trigger] other.addresses@[j],
                    ),
                self.metadata@ == old(self).metadata@,
            decreases n - i,
        {
            let ghost addrs0 = self.addresses@;
            if !self.has_address(&other.addresses[i]) {
                let copy = clone_address(&other.addresses[i]);
                self.addresses.push(copy);
            }
            proof {
                assert forall|j: int|
                    0 <= j < i + 1 implies addr_represented(
                    self.addresses@,
                    #[trigger] other.addresses@[j],
                ) by {
                    if j < i {
                        lemma_addr_represented_extend(
                            addrs0,
                            self.addresses@,
                            other.addresses@[j],
                        );
                    } else {
                        if self.addresses@ == addrs0 {
                            assert(addr_represented(addrs0, other.addresses@[j]));
                        } else {
                            assert(spec_address_eq(
                                self.addresses@[self.addresses@.len() - 1],
                                other.addresses@[j],
                            ));
                        }
                    }
                }
            }
            i = i + 1;
        }
        // Metadata: first writer wins per key.
        let ghost addrs_done = self.addresses@;
        let m = other.metadata.len();
        let mut j: usize = 0;
        while j < m
            invariant
                m == other.metadata@.len(),
                j <= m,
                self.node_id == old(self).node_id,
                self.last_seen == (if other.last_seen > old(self).last_seen {
                    other.last_seen
                } else {
                    old(self).last_seen
                }),
                old(self).manifest is Some ==> self.manifest == old(self).manifest,
                old(self).manifest is None && other.manifest is Some ==> (self.manifest
                    matches Some(kept) && other.manifest matches Some(theirs)
                    && crate::identity::manifest_eq(kept, theirs)),
                self.addresses@.len() >= old(self).addresses@.len(),
                forall|x: int|
                    0 <= x < old(self).addresses@.len() ==> self.addresses@[x] == old(
                        self,
                    ).addresses@[x],
                self.addresses@ == addrs_done,
                forall|jj: int|
                    0 <= jj < other.addresses@.len() ==> addr_represented(
                        addrs_done,
                        #[trigger] other.addresses@[jj],
                    ),
                self.metadata@.len() >= old(self).metadata@.len(),
                forall|x: int|
                    0 <= x < old(self).metadata@.len() ==> self.metadata@[x] == old(
                        self,
                    ).metadata@[x],
            decreases m - j,
        {
            if !self.has_metadata_key(other.metadata[j].0.as_str()) {
                let key = other.metadata[j].0.clone();
                let value = other.metadata[j].1.clone();
                self.metadata.push((key, value));
            }
            j = j + 1;
        }
        proof {
            assert forall|jj: int|
                0 <= jj < other.addresses@.len() implies addr_represented(
                self.addresses@,
                #[trigger] other.addresses@[jj],
            ) by {
                lemma_addr_represented_extend(addrs_done, self.addresses@, other.addresses@[jj]);
            }
        }
    }

    /// Whether an equal address is already recorded.
    fn has_address(&self, addr: &NodeAddress) -> (r: bool)
        ensures
            r == exists|i: int|
                0 <= i < self.addresses@.len() && spec_address_eq(
                    #[trigger] self.addresses@[i],
                    *addr,
                ),
    {
        let n = self.addresses.len();
        let mut i: usize = 0;
        while i < n
            invariant
                n == self.addresses@.len(),
                i <= n,
                forall|j: int|
                    0 <= j < i ==> !spec_address_eq(#[trigger] self.addresses@[j], *addr),
            decreases n - i,
        {
            if address_eq(&self.addresses[i], addr) {
                return true;
            }
            i = i + 1;
        }
        false
    }

    /// Whether a metadata key is already recorded.
    fn has_metadata_key(&self, key: &str) -> bool {
        let n = self.metadata.len();
        let mut i: usize = 0;
        while i < n
            invariant
                n == self.metadata@.len(),
                i <= n,
            decreases n - i,
        {
            if crate::bytesutil::str_eq(self.metadata[i].0.as_str(), key) {
                return true;
            }
            i = i + 1;
        }
        false
    }
}

/// Whether two addresses carry the same data.
pub open spec fn spec_address_eq(a: NodeAddress, b: NodeAddress) -> bool {
    match (a, b) {
        (NodeAddress::Local { path: x }, NodeAddress::Local { path: y }) => x@ == y@,
        (NodeAddress::Tcp { addr: x }, NodeAddress::Tcp { addr: y }) => x@ == y@,
        (
            NodeAddress::Quic { addr: x, server_name: sx },
            NodeAddress::Quic { addr: y, server_name: sy },
        ) => x@ == y@ && crate::bytesutil::opt_str_eq(sx, sy),
        (
            NodeAddress::Bluetooth { device_id: x, service_uuid: ux },
            NodeAddress::Bluetooth { device_id: y, service_uuid: uy },
        ) => x@ == y@ && ux@ == uy@,
        (
            NodeAddress::WifiDirect { group_owner: x, passphrase: px },
            NodeAddress::WifiDirect { group_owner: y, passphrase: py },
        ) => x@ == y@ && crate::bytesutil::opt_str_eq(px, py),
        (
            NodeAddress::Relay { relay_node: rx, target_node: tx },
            NodeAddress::Relay { relay_node: ry, target_node: ty },
        ) => rx@ == ry@ && tx@ == ty@,
        _ => false,
    }
}

/// Decides whether two addresses carry the same data.
pub fn address_eq(a: &NodeAddress, b: &NodeAddress) -> (r: bool)
    ensures
        r == spec_address_eq(*a, *b),
{
    match (a, b) {
        (NodeAddress::Local { path: x }, NodeAddress::Local { path: y }) => {
            crate::bytesutil::str_eq(x.as_str(), y.as_str())
        },
        (NodeAddress::Tcp { addr: x }, NodeAddress::Tcp { addr: y }) => {
            crate::bytesutil::str_eq(x.as_str(), y.as_str())
        },
        (
            NodeAddress::Quic { addr: x, server_name: sx },
            NodeAddress::Quic { addr: y, server_name: sy },
        ) => {
            crate::bytesutil::str_eq(x.as_str(), y.as_str()) && opt_str_eq_exec(sx, sy)
        },
        (
            NodeAddress::Bluetooth { device_id: x, service_uuid: ux },
            NodeAddress::Bluetooth { device_id: y, service_uuid: uy },
        ) => {
            crate::bytesutil::str_eq(x.as_str(), y.as_str()) && crate::bytesutil::str_eq(
                ux.as_str(),
                uy.as_str(),
            )
        },
        (
            NodeAddress::WifiDirect { group_owner: x, passphrase: px },
            NodeAddress::WifiDirect { group_owner: y, passphrase: py },
        ) => {
            crate::bytesutil::str_eq(x.as_str(), y.as_str()) && opt_str_eq_exec(px, py)
        },
        (
            NodeAddress::Relay { relay_node: rx, target_node: tx },
            NodeAddress::Relay { relay_node: ry, target_node: ty },
        ) => rx == ry && tx == ty,
        _ => false,
    }
}

/// Decides whether two optional strings hold the same text.
fn opt_str_eq_exec(a: &Option<String>, b: &Option<String>) -> (r: bool)
    ensures
        r == crate::bytesutil::opt_str_eq(*a, *b),
{
    match (a, b) {
        (Some(x), Some(y)) => crate::bytesutil::str_eq(x.as_str(), y.as_str()),
        (None, None) => true,
        _ => false,
    }
}

/// Copies an address.
pub fn clone_address(a: &NodeAddress) -> (r: NodeAddress)
    ensures
        spec_address_eq(r, *a),
{
    match a {
        NodeAddress::Local { path } => NodeAddress::Local { path: path.clone() },
        NodeAddress::Tcp { addr } => NodeAddress::Tcp { addr: addr.clone() },
        NodeAddress::Quic { addr, server_name } => NodeAddress::Quic {
            addr: addr.clone(),
            server_name: crate::bytesutil::clone_opt_string(server_name),
        },
        NodeAddress::Bluetooth { device_id, service_uuid } => NodeAddress::Bluetooth {
            device_id: device_id.clone(),
            service_uuid: service_uuid.clone(),
        },
        NodeAddress::WifiDirect { group_owner, passphrase } => NodeAddress::WifiDirect {
            group_owner: group_owner.clone(),
            passphrase: crate::bytesutil::clone_opt_string(passphrase),
        },
        NodeAddress::Relay { relay_node, target_node } => NodeAddress::Relay {
            relay_node: *relay_node,
            target_node: *target_node,
        },
    }
}

/// Failures of discovery mechanisms.
#[derive(Debug)]
pub enum DiscoveryError {
    /// The mechanism is not running.
    NotAvailable,
    /// The announcement failed, with the mechanism's reason.
    AnnouncementFailed(String),
    /// The browse failed.
    DiscoveryFailed(String),
    /// The lookup failed.
    ResolutionFailed(String),
    /// The network failed.
    NetworkError(String),
    /// The mechanism ran out of time.
    Timeout,
    /// The operating system reported a failure.
    IoError(String),
}

/// A fixture list of known nodes: announcing is a no-op and the list is
/// always available. Used for manual configuration and tests.
pub struct StaticDiscovery {
    /// The configured nodes.
    pub nodes: Vec<DiscoveredNode>,
}

impl StaticDiscovery {
    /// An empty fixture.
    pub fn new() -> (r: StaticDiscovery)
        ensures
            r.nodes@.len() == 0,
    {
        StaticDiscovery { nodes: Vec::new() }
    }

    /// Adds a known node.
    pub fn add_node(&mut self, node: DiscoveredNode)
        ensures
            final(self).nodes@.len() == old(self).nodes@.len() + 1,
    {
        self.nodes.push(node);
    }

    /// Adds a node known only by one address.
    pub fn add_address(&mut self, node_id: NodeId, address: NodeAddress)
        ensures
            final(self).nodes@.len() == old(self).nodes@.len() + 1,
            final(self).nodes@[final(self).nodes@.len() - 1].node_id@ == node_id@,
    {
        let mut node = DiscoveredNode::new(node_id, DiscoveryType::Static);
        node.addresses.push(address);
        self.nodes.push(node);
    }

    /// The configured nodes, verbatim.
    pub fn discover(&self) -> (r: Vec<DiscoveredNode>)
        ensures
            r@.len() == self.nodes@.len(),
            forall|i: int|
                0 <= i < r@.len() ==> (#[trigger] r@[i]).node_id@ == self.nodes@[i].node_id@,
    {
        let n = self.nodes.len();
        let mut out: Vec<DiscoveredNode> = Vec::new();
        let mut i: usize = 0;
        while i < n
            invariant
                n == self.nodes@.len(),
                i <= n,
                out@.len() == i,
                forall|j: int|
                    0 <= j < i ==> (#[trigger] out@[j]).node_id@ == self.nodes@[j].node_id@,
            decreases n - i,
        {
            out.push(clone_discovered(&self.nodes[i]));
            i = i + 1;
        }
        out
    }

    /// The first configured node with the given id; answers exactly when
    /// some configured node carries it.
    pub fn resolve(&self, node_id: &NodeId) -> (r: Option<DiscoveredNode>)
        ensures
            r is Some <==> exists|i: int|
                0 <= i < self.nodes@.len() && (#[trigger] self.nodes@[i]).node_id@ == node_id@,
            r matches Some(node) ==> node.node_id@ == node_id@,
    {
        let n = self.nodes.len();
        let mut i: usize = 0;
        while i < n
            invariant
                n == self.nodes@.len(),
                i <= n,
                forall|j: int| 0 <= j < i ==> (#[trigger] self.nodes@[j]).node_id@ != node_id@,
            decreases n - i,
        {
            if self.nodes[i].node_id == *node_id {
                proof {
                    assert(self.nodes@[i as int].node_id@ == node_id@);
                }
                return Some(clone_discovered(&self.nodes[i]));
            }
            i = i + 1;
        }
        None
    }
}

/// Copies a discovered-node record.
pub fn clone_discovered(node: &DiscoveredNode) -> (r: DiscoveredNode)
    ensures
        r.node_id@ == node.node_id@,
        r.last_seen == node.last_seen,
        r.discovery_type == node.discovery_type,
        r.hop_count == node.hop_count,
        r.addresses@.len() == node.addresses@.len(),
        r.metadata@.len() == node.metadata@.len(),
        r.manifest is Some <==> node.manifest is Some,
{
    let n = node.addresses.len();
    let mut addresses: Vec<NodeAddress> = Vec::new();
    let mut i: usize = 0;
    while i < n
        invariant
            n == node.addresses@.len(),
            i <= n,
            addresses@.len() == i,
        decreases n - i,
    {
        addresses.push(clone_address(&node.addresses[i]));
        i = i + 1;
    }
    let m = node.metadata.len();
    let mut metadata: Vec<(String, String)> = Vec::new();
    let mut j: usize = 0;
    while j < m
        invariant
            m == node.metadata@.len(),
            j <= m,
            metadata@.len() == j,
        decreases m - j,
    {
        metadata.push((node.metadata[j].0.clone(), node.metadata[j].1.clone()));
        j = j + 1;
    }
    DiscoveredNode {
        node_id: node.node_id,
        manifest: match &node.manifest {
            Some(mf) => Some(mf.clone()),
            None => None,
        },
        addresses,
        last_seen: node.last_seen,
        discovery_type: node.discovery_type,
        hop_count: node.hop_count,
        metadata,
    }
}

/// How many cached records are fresh at the given time.
pub open spec fn fresh_count(s: Seq<DiscoveredNode>, threshold: u64, now_secs: u64) -> nat
    decreases s.len(),
{
    if s.len() == 0 {
        0
    } else {
        (if !(now_secs - s[0].last_seen > threshold) {
            1nat
        } else {
            0nat
        }) + fresh_count(s.drop_first(), threshold, now_secs)
    }
}

/// Counting fresh records over a prefix extends one record at a time.
proof fn lemma_fresh_count_take(s: Seq<DiscoveredNode>, i: int, threshold: u64, now_secs: u64)
    requires
        0 <= i < s.len(),
    ensures
        fresh_count(s.take(i + 1), threshold, now_secs) == fresh_count(
            s.take(i),
            threshold,
            now_secs,
        ) + (if !(now_secs - s[i].last_seen > threshold) {
            1nat
        } else {
            0nat
        }),
    decreases i,
{
    if i == 0 {
        assert(s.take(1)[0] == s[0]);
        assert(s.take(1).drop_first() =~= s.take(0));
    } else {
        assert(s.take(i + 1)[0] == s[0]);
        assert(s.take(i)[0] == s[0]);
        assert(s.take(i + 1).drop_first() =~= s.drop_first().take(i));
        assert(s.take(i).drop_first() =~= s.drop_first().take(i - 1));
        assert(s.drop_first()[i - 1] == s[i]);
        lemma_fresh_count_take(s.drop_first(), i - 1, threshold, now_secs);
    }
}

/// The cache behind discovery: known nodes merged from every mechanism's
/// findings, with a staleness bound. The mechanisms run outside and hand
/// their results to `absorb`.
pub struct DiscoveryManager {
    /// The known nodes, one record per id.
    pub known_nodes: Vec<DiscoveredNode>,
    /// Seconds after which an unseen node counts as stale.
    pub stale_threshold_secs: u64,
}

impl DiscoveryManager {
    /// An empty cache with the default staleness bound of five minutes.
    pub fn new() -> (r: DiscoveryManager)
        ensures
            r.known_nodes@.len() == 0,
            r.stale_threshold_secs == 300,
    {
        DiscoveryManager { known_nodes: Vec::new(), stale_threshold_secs: 300 }
    }

    /// An empty cache with a chosen staleness bound, in seconds.
    pub fn with_stale_threshold(stale_threshold_secs: u64) -> (r: DiscoveryManager)
        ensures
            r.known_nodes@.len() == 0,
            r.stale_threshold_secs == stale_threshold_secs,
    {
        DiscoveryManager { known_nodes: Vec::new(), stale_threshold_secs }
    }

    /// Merges one mechanism's findings into the cache: a known id merges, a
    /// fresh one is added.
    pub fn absorb(&mut self, found: Vec<DiscoveredNode>)
        ensures
            final(self).stale_threshold_secs == old(self).stale_threshold_secs,
            final(self).known_nodes@.len() >= old(self).known_nodes@.len(),
    {
        let n = found.len();
        let mut i: usize = 0;
        let ghost base = self.known_nodes@.len();
        while i < n
            invariant
                n == found@.len(),
                i <= n,
                self.stale_threshold_secs == old(self).stale_threshold_secs,
                self.known_nodes@.len() >= base,
            decreases n - i,
        {
            self.add_node(clone_discovered(&found[i]));
            i = i + 1;
        }
    }

    /// Adds or merges one node.
    pub fn add_node(&mut self, node: DiscoveredNode)
        ensures
            final(self).stale_threshold_secs == old(self).stale_threshold_secs,
            final(self).known_nodes@.len() >= old(self).known_nodes@.len(),
    {
        let n = self.known_nodes.len();
        let mut i: usize = 0;
        while i < n
            invariant
                n == self.known_nodes@.len(),
                n == old(self).known_nodes@.len(),
                i <= n,
                self.stale_threshold_secs == old(self).stale_threshold_secs,
            decreases n - i,
        {
            if self.known_nodes[i].node_id == node.node_id {
                let entry = &mut self.known_nodes[i];
                entry.merge(&node);
                proof {
                    assert(self.known_nodes@.len() == n);
                }
                return ;
            }
            i = i + 1;
        }
        self.known_nodes.push(node);
    }

    /// A cached record for an id that is still fresh at the given time;
    /// answers exactly when one exists.
    pub fn resolve_cached_at(&self, node_id: &NodeId, now_secs: u64) -> (r: Option<DiscoveredNode>)
        ensures
            r is Some <==> exists|i: int|
                0 <= i < self.known_nodes@.len() && (#[trigger] self.known_nodes@[i]).node_id@
                    == node_id@ && !(now_secs - self.known_nodes@[i].last_seen
                    > self.stale_threshold_secs),
            r matches Some(node) ==> node.node_id@ == node_id@ && !(now_secs - node.last_seen
                > self.stale_threshold_secs),
    {
        let n = self.known_nodes.len();
        let mut i: usize = 0;
        while i < n
            invariant
                n == self.known_nodes@.len(),
                i <= n,
                forall|j: int|
                    0 <= j < i ==> !((#[trigger] self.known_nodes@[j]).node_id@ == node_id@ && !(
                    now_secs - self.known_nodes@[j].last_seen > self.stale_threshold_secs)),
            decreases n - i,
        {
            if self.known_nodes[i].node_id == *node_id {
                if !self.known_nodes[i].is_stale_at(self.stale_threshold_secs, now_secs) {
                    let copy = clone_discovered(&self.known_nodes[i]);
                    proof {
                        assert(copy.node_id@ == node_id@);
                        assert(copy.last_seen == self.known_nodes@[i as int].last_seen);
                    }
                    return Some(copy);
                }
            }
            i = i + 1;
        }
        None
    }

    /// Every cached node.
    pub fn known_nodes(&self) -> (r: Vec<DiscoveredNode>)
        ensures
            r@.len() == self.known_nodes@.len(),
    {
        let n = self.known_nodes.len();
        let mut out: Vec<DiscoveredNode> = Vec::new();
        let mut i: usize = 0;
        while i < n
            invariant
                n == self.known_nodes@.len(),
                i <= n,
                out@.len() == i,
            decreases n - i,
        {
            out.push(clone_discovered(&self.known_nodes[i]));
            i = i + 1;
        }
        out
    }

    /// The cached nodes still fresh at the given time: one entry per fresh
    /// record, in cache order, and nothing else.
    pub fn active_nodes_at(&self, now_secs: u64) -> (r: Vec<DiscoveredNode>)
        ensures
            forall|i: int|
                0 <= i < r@.len() ==> !(now_secs - (#[trigger] r@[i]).last_seen
                    > self.stale_threshold_secs),
            r@.len() == fresh_count(self.known_nodes@, self.stale_threshold_secs, now_secs),
    {
        let n = self.known_nodes.len();
        let mut out: Vec<DiscoveredNode> = Vec::new();
        let mut i: usize = 0;
        proof {
            assert(self.known_nodes@.take(0) =~= Seq::<DiscoveredNode>::empty());
        }
        while i < n
            invariant
                n == self.known_nodes@.len(),
                i <= n,
                forall|j: int|
                    0 <= j < out@.len() ==> !(now_secs - (#[trigger] out@[j]).last_seen
                        > self.stale_threshold_secs),
                out@.len() == fresh_count(
                    self.known_nodes@.take(i as int),
                    self.stale_threshold_secs,
                    now_secs,
                ),
            decreases n - i,
        {
            proof {
                lemma_fresh_count_take(
                    self.known_nodes@,
                    i as int,
                    self.stale_threshold_secs,
                    now_secs,
                );
            }
            if !self.known_nodes[i].is_stale_at(self.stale_threshold_secs, now_secs) {
                let copy = clone_discovered(&self.known_nodes[i]);
                out.push(copy);
            }
            i = i + 1;
        }
        proof {
            assert(self.known_nodes@.take(n as int) =~= self.known_nodes@);
        }
        out
    }

    /// Drops every stale node at the given time: what stays is exactly what
    /// is fresh, one entry per fresh record, in cache order.
    pub fn cleanup_stale_at(&mut self, now_secs: u64)
        ensures
            final(self).stale_threshold_secs == old(self).stale_threshold_secs,
            forall|i: int|
                0 <= i < final(self).known_nodes@.len() ==> !(now_secs
                    - (#[trigger] final(self).known_nodes@[i]).last_seen
                    > final(self).stale_threshold_secs),
            final(self).known_nodes@.len() == fresh_count(
                old(self).known_nodes@,
                old(self).stale_threshold_secs,
                now_secs,
            ),
            forall|j: int|
                0 <= j < old(self).known_nodes@.len() && !(now_secs
                    - (#[trigger] old(self).known_nodes@[j]).last_seen
                    > old(self).stale_threshold_secs) ==> exists|i: int|
                    0 <= i < final(self).known_nodes@.len()
                        && (#[trigger] final(self).known_nodes@[i]).node_id@ == old(
                        self,
                    ).known_nodes@[j].node_id@ && final(self).known_nodes@[i].last_seen == old(
                        self,
                    ).known_nodes@[j].last_seen,
    {
        let n = self.known_nodes.len();
        let mut kept: Vec<DiscoveredNode> = Vec::new();
        let mut i: usize = 0;
        proof {
            assert(self.known_nodes@.take(0) =~= Seq::<DiscoveredNode>::empty());
        }
        while i < n
            invariant
                n == self.known_nodes@.len(),
                i <= n,
                self.known_nodes@ == old(self).known_nodes@,
                self.stale_threshold_secs == old(self).stale_threshold_secs,
                forall|j: int|
                    0 <= j < kept@.len() ==> !(now_secs - (#[trigger] kept@[j]).last_seen
                        > self.stale_threshold_secs),
                kept@.len() == fresh_count(
                    self.known_nodes@.take(i as int),
                    self.stale_threshold_secs,
                    now_secs,
                ),
                forall|j: int|
                    0 <= j < i && !(now_secs - (#[trigger] self.known_nodes@[j]).last_seen
                        > self.stale_threshold_secs) ==> exists|x: int|
                        0 <= x < kept@.len() && (#[trigger] kept@[x]).node_id@
                            == self.known_nodes@[j].node_id@ && kept@[x].last_seen
                            == self.known_nodes@[j].last_seen,
            decreases n - i,
        {
            proof {
                lemma_fresh_count_take(
                    self.known_nodes@,
                    i as int,
                    self.stale_threshold_secs,
                    now_secs,
                );
            }
            if !self.known_nodes[i].is_stale_at(self.stale_threshold_secs, now_secs) {
                let ghost kept0 = kept@;
                let copy = clone_discovered(&self.known_nodes[i]);
                proof {
                    assert(copy.last_seen == self.known_nodes@[i as int].last_seen);
                    assert(copy.node_id@ == self.known_nodes@[i as int].node_id@);
                }
                kept.push(copy);
                proof {
                    assert forall|j: int|
                        0 <= j < i + 1 && !(now_secs - (#[trigger] self.known_nodes@[j]).last_seen
                            > self.stale_threshold_secs) implies exists|x: int|
                        0 <= x < kept@.len() && (#[trigger] kept@[x]).node_id@
                            == self.known_nodes@[j].node_id@ && kept@[x].last_seen
                            == self.known_nodes@[j].last_seen by {
                        if j < i {
                            let x = choose|x: int|
                                0 <= x < kept0.len() && (#[trigger] kept0[x]).node_id@
                                    == self.known_nodes@[j].node_id@ && kept0[x].last_seen
                                    == self.known_nodes@[j].last_seen;
                            assert(kept@[x].node_id@ == self.known_nodes@[j].node_id@
                                && kept@[x].last_seen == self.known_nodes@[j].last_seen);
                        } else {
                            assert(kept@[kept@.len() - 1].node_id@
                                == self.known_nodes@[j].node_id@ && kept@[kept@.len()
                                - 1].last_seen == self.known_nodes@[j].last_seen);
                        }
                    }
                }
            }
            i = i + 1;
        }
        proof {
            assert(self.known_nodes@.take(n as int) =~= self.known_nodes@);
        }
        self.known_nodes = kept;
    }
}

} // verus!
