//! Federation cryptography: an Ed25519 identity per node and signed,
//! content-addressed events.
//!
//! Every event crossing a federation boundary carries its origin's public
//! key, an Ed25519 signature over its bytes, and the SHA-256 of those bytes
//! as its content id. A receiver checks the content id first, then the
//! signature.

use vstd::prelude::*;
use crate::bytesutil::{clone_copy_vec, to_array_32};
use crate::hex::hex_of;
use crate::identity::{
    ed25519_pubkey, ed25519_sign, ed25519_verify, key_parses, os_random_bytes, pubkey_of,
    sig_of, sig_valid, SecretKeyBytes,
};
use sha2::Digest;

verus! {

/// A 32-byte Ed25519 public key naming a peer.
pub type PeerPublicKey = [u8; 32];

/// A 64-byte Ed25519 signature over event bytes.
pub type EventSignature = [u8; 64];

/// A 32-byte SHA-256 content hash naming an event.
pub type ContentHash = [u8; 32];

/// The SHA-256 digest of a byte string: a pure function of the bytes.
pub uninterp spec fn hash_of(bytes: Seq<u8>) -> Seq<u8>;

/// Relies on sha2::Sha256: the 32-byte digest of the input, a deterministic
/// function of the bytes alone.
#[verifier::external_body]
fn sha256(bytes: &[u8]) -> (r: [u8; 32])
    ensures
        r@ == hash_of(bytes@),
{
    let mut hasher = sha2::Sha256::new();
    hasher.update(bytes);
    hasher.finalize().into()
}

/// Computes the content-addressed id of event bytes: their SHA-256 digest.
/// Equal inputs give equal hashes; the digest covers the bytes untrimmed.
pub fn content_hash(event_bytes: &[u8]) -> (r: ContentHash)
    ensures
        r@ == hash_of(event_bytes@),
{
    sha256(event_bytes)
}

/// Hashing is deterministic: equal byte strings have equal digests.
pub proof fn lemma_content_hash_deterministic(a: Seq<u8>, b: Seq<u8>)
    requires
        a == b,
    ensures
        hash_of(a) == hash_of(b),
{
}

/// The content hash as lowercase hex text.
pub fn content_hash_hex(event_bytes: &[u8]) -> (r: String)
    ensures
        r@ == hex_of(hash_of(event_bytes@)),
{
    let hash = content_hash(event_bytes);
    crate::hex::encode(hash.as_slice())
}

/// A node's persistent cryptographic identity: its keypair. The public key
/// is the node's name in the federation.
pub struct TeambookIdentity {
    /// The secret signing key.
    pub secret: SecretKeyBytes,
    /// The public verifying key, derived from the secret key.
    pub public: [u8; 32],
}

impl TeambookIdentity {
    /// The advertised public key is the one derived from the secret key.
    pub open spec fn wf(self) -> bool {
        self.public@ == pubkey_of(self.secret@)
    }

    /// The secret key bytes, for contracts.
    pub open spec fn spec_secret(self) -> Seq<u8> {
        self.secret@
    }

    /// Generates a fresh keypair from OS randomness.
    pub fn generate() -> (r: TeambookIdentity)
        ensures
            r.wf(),
    {
        let secret = SecretKeyBytes::from_array(to_array_32(os_random_bytes(32).as_slice()));
        let public = ed25519_pubkey(secret.as_array());
        TeambookIdentity { secret, public }
    }

    /// Rebuilds the identity from its persisted 32 secret-key bytes; the
    /// public key is derived deterministically.
    pub fn from_secret_bytes(bytes: &[u8]) -> (r: TeambookIdentity)
        requires
            bytes@.len() == 32,
        ensures
            r.wf(),
            r.spec_secret() == bytes@,
    {
        let secret = SecretKeyBytes::from_array(to_array_32(bytes));
        let public = ed25519_pubkey(secret.as_array());
        TeambookIdentity { secret, public }
    }

    /// The raw secret key bytes, for persistence.
    pub fn secret_key_bytes(&self) -> (r: [u8; 32])
        ensures
            r@ == self.spec_secret(),
    {
        to_array_32(self.secret.as_array().as_slice())
    }

    /// Signs bytes with the node's secret key; the signature verifies under
    /// the node's public key.
    pub fn sign(&self, message: &[u8]) -> (r: EventSignature)
        ensures
            r@ == sig_of(self.spec_secret(), message@),
            sig_valid(pubkey_of(self.spec_secret()), message@, r@),
            self.wf() ==> sig_valid(self.public@, message@, r@),
    {
        ed25519_sign(self.secret.as_array(), message)
    }

    /// The node's public key.
    pub fn public_key(&self) -> (r: PeerPublicKey)
        ensures
            r@ == self.public@,
    {
        to_array_32(self.public.as_slice())
    }

    /// The public key as 64 hex characters.
    pub fn public_key_hex(&self) -> (r: String)
        ensures
            r@ == hex_of(self.public@),
            r@.len() == 64,
    {
        crate::hex::encode(self.public.as_slice())
    }

    /// The first 8 hex characters of the public key, for logs and display.
    pub fn short_id(&self) -> (r: String)
        ensures
            r@ == hex_of(self.public@).take(8),
            r@.len() == 8,
    {
        let full = self.public_key_hex();
        let short = full.as_str().substring_char(0, 8);
        proof {
            assert(hex_of(self.public@).subrange(0, 8) =~= hex_of(self.public@).take(8));
        }
        short.to_owned()
    }
}

/// Checks an Ed25519 signature: true exactly when the signature verifies
/// over the message under the public key; false, not an error, on a
/// malformed key.
pub fn verify_signature(public_key: &PeerPublicKey, message: &[u8], signature: &EventSignature) -> (
    r: bool)
    ensures
        r == sig_valid(public_key@, message@, signature@),
        r ==> key_parses(public_key@),
{
    ed25519_verify(public_key, message, signature)
}

/// A federation event: raw event bytes with their origin, signature and
/// content id.
#[derive(Debug)]
pub struct SignedEvent {
    /// The canonical event bytes, exactly as the originator produced them.
    pub event_bytes: Vec<u8>,
    /// The public key of the node that created the event.
    pub origin_pubkey: PeerPublicKey,
    /// The Ed25519 signature over `event_bytes`.
    pub signature: EventSignature,
    /// The SHA-256 of `event_bytes`, for deduplication without re-hashing.
    pub content_id: ContentHash,
}

/// Whether two signed events carry the same data.
pub open spec fn signed_event_eq(a: SignedEvent, b: SignedEvent) -> bool {
    &&& a.event_bytes@ == b.event_bytes@
    &&& a.origin_pubkey@ == b.origin_pubkey@
    &&& a.signature@ == b.signature@
    &&& a.content_id@ == b.content_id@
}

impl Clone for SignedEvent {
    /// A copy carrying the same data.
    fn clone(&self) -> (res: SignedEvent)
        ensures
            signed_event_eq(res, *self),
    {
        SignedEvent {
            event_bytes: clone_copy_vec(&self.event_bytes),
            origin_pubkey: self.origin_pubkey,
            signature: self.signature,
            content_id: self.content_id,
        }
    }
}

/// The outcome verification of a signed event must have: the content id is
/// checked first, then the signature.
pub open spec fn spec_verify(ev: SignedEvent) -> Result<(), SignedEventError> {
    if ev.content_id@ != hash_of(ev.event_bytes@) {
        Err(SignedEventError::ContentHashMismatch)
    } else if !sig_valid(ev.origin_pubkey@, ev.event_bytes@, ev.signature@) {
        Err(SignedEventError::InvalidSignature)
    } else {
        Ok(())
    }
}

/// Whether a signed event is internally valid: its content id is the hash of
/// its bytes and its signature verifies under its origin key.
pub open spec fn event_valid(ev: SignedEvent) -> bool {
    ev.content_id@ == hash_of(ev.event_bytes@) && sig_valid(
        ev.origin_pubkey@,
        ev.event_bytes@,
        ev.signature@,
    )
}

impl SignedEvent {
    /// Signs event bytes under an identity: the result carries the
    /// identity's public key, a valid signature, and the content hash.
    pub fn sign(event_bytes: Vec<u8>, identity: &TeambookIdentity) -> (r: SignedEvent)
        requires
            identity.wf(),
        ensures
            r.event_bytes@ == event_bytes@,
            r.origin_pubkey@ == pubkey_of(identity.spec_secret()),
            r.signature@ == sig_of(identity.spec_secret(), event_bytes@),
            r.content_id@ == hash_of(event_bytes@),
            event_valid(r),
            spec_verify(r) is Ok,
    {
        let signature = identity.sign(event_bytes.as_slice());
        let content_id = content_hash(event_bytes.as_slice());
        SignedEvent {
            event_bytes,
            origin_pubkey: identity.public_key(),
            signature,
            content_id,
        }
    }

    /// Verifies the event: the content hash first, then the signature, each
    /// failure with its own reason. `Ok` exactly when the event is valid.
    pub fn verify(&self) -> (r: Result<(), SignedEventError>)
        ensures
            r == spec_verify(*self),
            r is Ok <==> event_valid(*self),
    {
        let expected = content_hash(self.event_bytes.as_slice());
        if !crate::bytesutil::bytes_eq(expected.as_slice(), self.content_id.as_slice()) {
            return Err(SignedEventError::ContentHashMismatch);
        }
        if !verify_signature(&self.origin_pubkey, self.event_bytes.as_slice(), &self.signature) {
            return Err(SignedEventError::InvalidSignature);
        }
        Ok(())
    }

    /// The content id as hex text.
    pub fn content_id_hex(&self) -> (r: String)
        ensures
            r@ == hex_of(self.content_id@),
            r@.len() == 64,
    {
        crate::hex::encode(self.content_id.as_slice())
    }

    /// The origin key as hex text.
    pub fn origin_pubkey_hex(&self) -> (r: String)
        ensures
            r@ == hex_of(self.origin_pubkey@),
            r@.len() == 64,
    {
        crate::hex::encode(self.origin_pubkey.as_slice())
    }

    /// The first 8 hex characters of the origin key.
    pub fn origin_short_id(&self) -> (r: String)
        ensures
            r@ == hex_of(self.origin_pubkey@).take(8),
    {
        let full = self.origin_pubkey_hex();
        let short = full.as_str().substring_char(0, 8);
        proof {
            assert(hex_of(self.origin_pubkey@).subrange(0, 8) =~= hex_of(
                self.origin_pubkey@,
            ).take(8));
        }
        short.to_owned()
    }
}

/// A signed event is accepted by verification exactly when it is valid; in
/// particular every event produced by signing verifies.
pub proof fn lemma_signed_event_verifies(ev: SignedEvent)
    requires
        event_valid(ev),
    ensures
        spec_verify(ev) is Ok,
{
}

/// An event whose bytes no longer hash to its content id is rejected with
/// the content-hash reason, whatever its signature says.
pub proof fn lemma_tampered_bytes_rejected(ev: SignedEvent)
    requires
        ev.content_id@ != hash_of(ev.event_bytes@),
    ensures
        spec_verify(ev) == Err::<(), SignedEventError>(SignedEventError::ContentHashMismatch),
{
}

/// An event whose content id matches but whose signature does not verify
/// under its origin key is rejected with the signature reason.
pub proof fn lemma_bad_signature_rejected(ev: SignedEvent)
    requires
        ev.content_id@ == hash_of(ev.event_bytes@),
        !sig_valid(ev.origin_pubkey@, ev.event_bytes@, ev.signature@),
    ensures
        spec_verify(ev) == Err::<(), SignedEventError>(SignedEventError::InvalidSignature),
{
}

/// The reasons verifying a signed event can fail.
#[derive(Debug, Clone, Copy, PartialEq, Eq, Structural)]
pub enum SignedEventError {
    /// The SHA-256 of the event bytes differs from the content id: the event
    /// was corrupted or tampered with.
    ContentHashMismatch,
    /// The Ed25519 signature does not verify: wrong key or tampered data.
    InvalidSignature,
}

} // verus!
