//! Sovereign node identity: an Ed25519 keypair whose public key is the node id.
//!
//! No central authority hands out names; a node is its 32-byte public signing
//! key. The secret key signs messages; anyone holding the node id can check
//! them.

use vstd::prelude::*;
use crate::bytesutil::{bytes_eq, to_array_32};
use ed25519_dalek::{Signer, Verifier};
use rand::RngCore;
use crate::hex::{bytes_of_hex, hex_of, is_hex_digit};

verus! {

/// The public key derived from an Ed25519 secret key. The derivation is a
/// pure function of the secret key bytes.
pub uninterp spec fn pubkey_of(secret: Seq<u8>) -> Seq<u8>;

/// The Ed25519 signature over a message under a secret key. Ed25519 signing
/// is deterministic: a pure function of key and message.
pub uninterp spec fn sig_of(secret: Seq<u8>, msg: Seq<u8>) -> Seq<u8>;

/// Whether 32 bytes parse as a valid Ed25519 public key: a pure function of
/// the bytes.
pub uninterp spec fn key_parses(pubkey: Seq<u8>) -> bool;

/// Whether a signature verifies over a message under a public key: a pure
/// function of the three byte strings. False whenever the key does not parse.
pub uninterp spec fn sig_valid(pubkey: Seq<u8>, msg: Seq<u8>, sig: Seq<u8>) -> bool;

/// Relies on ed25519_dalek::SigningKey::verifying_key: derives the public key
/// from the secret key; the result is 32 bytes and parses back as a valid key.
#[verifier::external_body]
pub(crate) fn ed25519_pubkey(secret: &[u8; 32]) -> (r: [u8; 32])
    ensures
        r@ == pubkey_of(secret@),
        key_parses(r@),
{
    let signing_key = ed25519_dalek::SigningKey::from_bytes(secret);
    signing_key.verifying_key().to_bytes()
}

/// Relies on ed25519_dalek::Signer::sign: deterministic Ed25519 signing; the
/// 64-byte signature verifies over the message under the derived public key.
#[verifier::external_body]
pub(crate) fn ed25519_sign(secret: &[u8; 32], msg: &[u8]) -> (r: [u8; 64])
    ensures
        r@ == sig_of(secret@, msg@),
        sig_valid(pubkey_of(secret@), msg@, r@),
{
    let signing_key = ed25519_dalek::SigningKey::from_bytes(secret);
    signing_key.sign(msg).to_bytes()
}

/// Relies on ed25519_dalek::VerifyingKey::from_bytes: whether the bytes form
/// a valid public key.
#[verifier::external_body]
pub(crate) fn ed25519_key_valid(pubkey: &[u8; 32]) -> (r: bool)
    ensures
        r == key_parses(pubkey@),
{
    ed25519_dalek::VerifyingKey::from_bytes(pubkey).is_ok()
}

/// Relies on ed25519_dalek::Verifier::verify: whether the signature verifies
/// over the message under the key; false when the key does not parse.
#[verifier::external_body]
pub(crate) fn ed25519_verify(pubkey: &[u8; 32], msg: &[u8], sig: &[u8; 64]) -> (r: bool)
    ensures
        r == sig_valid(pubkey@, msg@, sig@),
        r ==> key_parses(pubkey@),
{
    match ed25519_dalek::VerifyingKey::from_bytes(pubkey) {
        Ok(key) => {
            let signature = ed25519_dalek::Signature::from_bytes(sig);
            key.verify(msg, &signature).is_ok()
        },
        Err(_) => false,
    }
}

/// Relies on rand::rngs::OsRng::fill_bytes: `n` bytes from the operating
/// system's CSPRNG. Nothing is promised of the values.
#[verifier::external_body]
pub(crate) fn os_random_bytes(n: usize) -> (r: Vec<u8>)
    ensures
        r@.len() == n,
{
    let mut bytes = vec![0u8; n];
    rand::rngs::OsRng.fill_bytes(&mut bytes);
    bytes
}

/// Relies on std::time::SystemTime::now: seconds since the UNIX epoch, zero
/// if the system clock reads before the epoch. Nothing is promised of the
/// value.
#[verifier::external_body]
pub(crate) fn now_seconds() -> u64 {
    std::time::SystemTime::now()
        .duration_since(std::time::UNIX_EPOCH)
        .map(|d| d.as_secs())
        .unwrap_or(0)
}

/// A 32-byte node identifier: the node's Ed25519 public key.
#[derive(Debug, Clone, Copy, Eq, Hash)]
pub struct NodeId(pub [u8; 32]);

impl View for NodeId {
    type V = Seq<u8>;

    open spec fn view(&self) -> Seq<u8> {
        self.0@
    }
}

impl PartialEq for NodeId {
    fn eq(&self, other: &NodeId) -> (r: bool) {
        bytes_eq(self.0.as_slice(), other.0.as_slice())
    }
}

impl vstd::std_specs::cmp::PartialEqSpecImpl for NodeId {
    open spec fn obeys_eq_spec() -> bool {
        true
    }

    open spec fn eq_spec(&self, other: &NodeId) -> bool {
        self.0@ == other.0@
    }
}

impl NodeId {
    /// Wraps raw bytes as a node id.
    pub fn from_bytes(bytes: [u8; 32]) -> (r: NodeId)
        ensures
            r@ == bytes@,
    {
        NodeId(bytes)
    }

    /// The raw bytes.
    pub fn as_bytes(&self) -> (r: &[u8; 32])
        ensures
            r@ == self@,
    {
        &self.0
    }

    /// The id as 64 lowercase hex characters.
    pub fn to_hex(&self) -> (r: String)
        ensures
            r@ == hex_of(self@),
            r@.len() == 64,
    {
        crate::hex::encode(self.0.as_slice())
    }

    /// Parses a node id from hex text; rejects anything but 64 hex digits.
    pub fn from_hex(s: &str) -> (r: Result<NodeId, IdentityError>)
        ensures
            match r {
                Ok(id) => s@.len() == 64 && (forall|i: int|
                    0 <= i < s@.len() ==> is_hex_digit(#[trigger] s@[i])) && id@ == bytes_of_hex(
                    s@,
                ),
                Err(IdentityError::InvalidHex) => s@.len() % 2 != 0 || (exists|i: int|
                    0 <= i < s@.len() && !is_hex_digit(#[trigger] s@[i])),
                Err(IdentityError::InvalidLength) => s@.len() != 64,
                Err(_) => false,
            },
    {
        let bytes = match crate::hex::decode(s) {
            Ok(b) => b,
            Err(_) => {
                return Err(IdentityError::InvalidHex);
            },
        };
        if bytes.len() != 32 {
            proof {
                crate::hex::lemma_hex_bytes_len(s@);
            }
            return Err(IdentityError::InvalidLength);
        }
        proof {
            crate::hex::lemma_hex_bytes_len(s@);
        }
        Ok(NodeId(to_array_32(bytes.as_slice())))
    }

    /// The short human-readable form: the first 8 hex characters.
    pub fn short(&self) -> (r: String)
        ensures
            r@ == hex_of(self@).take(8),
    {
        let full = self.to_hex();
        let short = full.as_str().substring_char(0, 8);
        proof {
            assert(hex_of(self@).subrange(0, 8) =~= hex_of(self@).take(8));
        }
        short.to_owned()
    }
}

/// Capabilities a node can advertise in its manifest.
#[derive(Debug, Clone, Copy, PartialEq, Eq, Structural, Hash)]
pub enum Capability {
    /// Sends and receives direct messages.
    DirectMessage,
    /// Broadcasts to the mesh.
    Broadcast,
    /// Shares files.
    FileShare,
    /// Publishes presence information.
    Presence,
    /// Relays messages for other nodes.
    Relay,
    /// Supports end-to-end encrypted channels.
    E2EEncryption,
}

/// Optional public metadata advertised for discovery.
#[derive(Debug)]
pub struct NodeMetadata {
    /// Device kind: mobile, desktop, server.
    pub device_type: Option<String>,
    /// Application version.
    pub app_version: Option<String>,
    /// Geographic region hint.
    pub region: Option<String>,
}

impl Default for NodeMetadata {
    /// The empty metadata record.
    fn default() -> (r: NodeMetadata)
        ensures
            r.device_type is None,
            r.app_version is None,
            r.region is None,
    {
        NodeMetadata { device_type: None, app_version: None, region: None }
    }
}

/// Whether two metadata records hold the same text.
pub open spec fn metadata_eq(a: NodeMetadata, b: NodeMetadata) -> bool {
    &&& crate::bytesutil::opt_str_eq(a.device_type, b.device_type)
    &&& crate::bytesutil::opt_str_eq(a.app_version, b.app_version)
    &&& crate::bytesutil::opt_str_eq(a.region, b.region)
}

impl Clone for NodeMetadata {
    /// A copy with the same text.
    fn clone(&self) -> (res: NodeMetadata)
        ensures
            metadata_eq(res, *self),
    {
        NodeMetadata {
            device_type: crate::bytesutil::clone_opt_string(&self.device_type),
            app_version: crate::bytesutil::clone_opt_string(&self.app_version),
            region: crate::bytesutil::clone_opt_string(&self.region),
        }
    }
}

/// The public identity record a node advertises.
#[derive(Debug)]
pub struct NodeManifest {
    /// The node's identifier: its public signing key.
    pub node_id: NodeId,
    /// Human-chosen display name; not unique.
    pub display_name: String,
    /// Capabilities the node supports.
    pub capabilities: Vec<Capability>,
    /// Seconds since the UNIX epoch when the identity was created.
    pub created_at: u64,
    /// Protocol version the node speaks.
    pub protocol_version: u32,
    /// Optional public metadata.
    pub metadata: Option<NodeMetadata>,
}

/// Whether two manifests describe the same node identically.
pub open spec fn manifest_eq(a: NodeManifest, b: NodeManifest) -> bool {
    &&& a.node_id@ == b.node_id@
    &&& a.display_name@ == b.display_name@
    &&& a.capabilities@ == b.capabilities@
    &&& a.created_at == b.created_at
    &&& a.protocol_version == b.protocol_version
    &&& match (a.metadata, b.metadata) {
        (Option::None, Option::None) => true,
        (Option::Some(x), Option::Some(y)) => metadata_eq(x, y),
        _ => false,
    }
}

impl Clone for NodeManifest {
    /// A copy describing the same node.
    fn clone(&self) -> (res: NodeManifest)
        ensures
            manifest_eq(res, *self),
    {
        NodeManifest {
            node_id: self.node_id,
            display_name: self.display_name.clone(),
            capabilities: crate::bytesutil::clone_copy_vec(&self.capabilities),
            created_at: self.created_at,
            protocol_version: self.protocol_version,
            metadata: match &self.metadata {
                Some(m) => Some(m.clone()),
                None => None,
            },
        }
    }
}

/// A 32-byte Ed25519 secret key. The bytes are reachable only inside this
/// module; contracts speak of them through the view.
pub struct SecretKeyBytes {
    bytes: [u8; 32],
}

impl View for SecretKeyBytes {
    type V = Seq<u8>;

    closed spec fn view(&self) -> Seq<u8> {
        self.bytes@
    }
}

impl SecretKeyBytes {
    /// Wraps raw secret bytes.
    pub(crate) fn from_array(bytes: [u8; 32]) -> (r: SecretKeyBytes)
        ensures
            r@ == bytes@,
    {
        SecretKeyBytes { bytes }
    }

    /// The raw bytes, reachable only inside the crate.
    pub(crate) fn as_array(&self) -> (r: &[u8; 32])
        ensures
            r@ == self@,
    {
        &self.bytes
    }
}

/// A complete node identity: the secret signing key and the public manifest.
pub struct NodeIdentity {
    /// The Ed25519 secret key; its bytes never leave the identity component.
    pub secret: SecretKeyBytes,
    /// The public manifest.
    pub manifest: NodeManifest,
}

impl NodeIdentity {
    /// The identity is well formed when the advertised node id is the public
    /// key derived from the secret key.
    pub open spec fn wf(self) -> bool {
        self.manifest.node_id@ == pubkey_of(self.spec_secret())
    }

    /// The secret key bytes, for contracts.
    pub open spec fn spec_secret(self) -> Seq<u8> {
        self.secret@
    }

    /// Generates a fresh identity from OS randomness, advertising direct
    /// messages, broadcast and presence.
    pub fn generate(display_name: String) -> (r: NodeIdentity)
        ensures
            r.wf(),
            r.manifest.display_name == display_name,
            r.manifest.capabilities@ == seq![
                Capability::DirectMessage,
                Capability::Broadcast,
                Capability::Presence,
            ],
            r.manifest.protocol_version == crate::PROTOCOL_VERSION,
            r.manifest.metadata is None,
    {
        let secret = SecretKeyBytes { bytes: to_array_32(os_random_bytes(32).as_slice()) };
        let node_id = NodeId(ed25519_pubkey(&secret.bytes));
        let mut capabilities: Vec<Capability> = Vec::new();
        capabilities.push(Capability::DirectMessage);
        capabilities.push(Capability::Broadcast);
        capabilities.push(Capability::Presence);
        proof {
            assert(capabilities@ =~= seq![
                Capability::DirectMessage,
                Capability::Broadcast,
                Capability::Presence,
            ]);
        }
        let manifest = NodeManifest {
            node_id,
            display_name,
            capabilities,
            created_at: now_seconds(),
            protocol_version: crate::PROTOCOL_VERSION,
            metadata: None,
        };
        NodeIdentity { secret, manifest }
    }

    /// Rebuilds an identity from a secret key and manifest; fails with
    /// `KeyMismatch` when the manifest's node id is not the key derived from
    /// the secret.
    pub fn from_parts(secret_bytes: &[u8], manifest: NodeManifest) -> (r: Result<
        NodeIdentity,
        IdentityError,
    >)
        requires
            secret_bytes@.len() == 32,
        ensures
            match r {
                Ok(id) => {
                    &&& id.wf()
                    &&& manifest.node_id@ == pubkey_of(secret_bytes@)
                    &&& id.spec_secret() == secret_bytes@
                    &&& id.manifest == manifest
                },
                Err(IdentityError::KeyMismatch) => manifest.node_id@ != pubkey_of(secret_bytes@),
                Err(_) => false,
            },
    {
        let secret = SecretKeyBytes { bytes: to_array_32(secret_bytes) };
        let expected = ed25519_pubkey(&secret.bytes);
        if !bytes_eq(manifest.node_id.0.as_slice(), expected.as_slice()) {
            return Err(IdentityError::KeyMismatch);
        }
        Ok(NodeIdentity { secret, manifest })
    }

    /// The node's identifier.
    pub fn node_id(&self) -> (r: NodeId)
        ensures
            r == self.manifest.node_id,
    {
        self.manifest.node_id
    }

    /// Signs a message with the node's secret key; the signature verifies
    /// under the node's public key.
    pub fn sign(&self, message: &[u8]) -> (r: [u8; 64])
        ensures
            r@ == sig_of(self.spec_secret(), message@),
            sig_valid(pubkey_of(self.spec_secret()), message@, r@),
            self.wf() ==> sig_valid(self.manifest.node_id@, message@, r@),
    {
        ed25519_sign(&self.secret.bytes, message)
    }

    /// The raw secret key bytes, for export.
    pub fn secret_bytes(&self) -> (r: [u8; 32])
        ensures
            r@ == self.spec_secret(),
    {
        let copy = to_array_32(self.secret.bytes.as_slice());
        copy
    }

    /// Replaces the display name.
    pub fn set_display_name(&mut self, name: String)
        ensures
            final(self).manifest.display_name == name,
            final(self).manifest.node_id == old(self).manifest.node_id,
            final(self).spec_secret() == old(self).spec_secret(),
            final(self).manifest.capabilities == old(self).manifest.capabilities,
            final(self).manifest.created_at == old(self).manifest.created_at,
            final(self).manifest.protocol_version == old(self).manifest.protocol_version,
            old(self).wf() ==> final(self).wf(),
    {
        self.manifest.display_name = name;
    }

    /// Replaces the advertised capabilities.
    pub fn set_capabilities(&mut self, capabilities: Vec<Capability>)
        ensures
            final(self).manifest.capabilities == capabilities,
            final(self).manifest.node_id == old(self).manifest.node_id,
            final(self).spec_secret() == old(self).spec_secret(),
            final(self).manifest.display_name == old(self).manifest.display_name,
            old(self).wf() ==> final(self).wf(),
    {
        self.manifest.capabilities = capabilities;
    }
}

/// Checks a signature from a node: `Ok` exactly when the signature verifies
/// over the message under the node's key; a malformed key and a failing
/// signature are told apart.
pub fn verify_signature(node_id: &NodeId, message: &[u8], signature: &[u8; 64]) -> (r: Result<
    (),
    IdentityError,
>)
    ensures
        r is Ok <==> sig_valid(node_id@, message@, signature@),
        match r {
            Ok(_) => true,
            Err(IdentityError::InvalidPublicKey) => !key_parses(node_id@),
            Err(IdentityError::InvalidSignature) => key_parses(node_id@) && !sig_valid(
                node_id@,
                message@,
                signature@,
            ),
            Err(_) => false,
        },
{
    if ed25519_verify(&node_id.0, message, signature) {
        return Ok(());
    }
    if !ed25519_key_valid(&node_id.0) {
        return Err(IdentityError::InvalidPublicKey);
    }
    Err(IdentityError::InvalidSignature)
}

/// Failures of identity handling.
#[derive(Debug, Clone, Copy, PartialEq, Eq, Structural)]
pub enum IdentityError {
    /// Text was not valid hex.
    InvalidHex,
    /// A byte string had the wrong length.
    InvalidLength,
    /// Bytes did not form a valid public key.
    InvalidPublicKey,
    /// A signature did not verify.
    InvalidSignature,
    /// An imported manifest's node id disagreed with its secret key.
    KeyMismatch,
    /// Stored identity bytes could not be decoded.
    DeserializationFailed,
}

} // verus!
