//! Nostr integration types.

use vstd::prelude::*;

verus! {

/// Configuration for the Nostr integration.
#[derive(Debug, Clone)]
pub struct NostrConfig {
    /// Application-specific HKDF context for key derivation
    pub derivation_context: String,
    /// Nostr event d-tag for bundle announcements
    pub bundle_tag: String,
}

impl Default for NostrConfig {
    fn default() -> (c: Self)
        ensures
            c.derivation_context@ == "lotl_nostr_derivation"@,
            c.bundle_tag@ == "lotl_prekey_bundle_v1"@,
    {
        NostrConfig {
            derivation_context: "lotl_nostr_derivation".to_owned(),
            bundle_tag: "lotl_prekey_bundle_v1".to_owned(),
        }
    }
}

/// A Nostr keypair derived from a Signal Protocol identity: the 32-byte secp256k1
/// secret key and the 32-byte x-only public key.
#[derive(Debug, Clone)]
pub struct NostrKeys {
    /// Nostr secret key
    pub secret_key: Vec<u8>,
    /// Nostr public key
    pub public_key: Vec<u8>,
}

} // verus!
