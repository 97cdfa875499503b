//! Nostr integration: identity derivation from Signal Protocol keys, storage of
//! Nostr identity mappings, and configuration types.

pub mod identity;
pub mod storage;
pub mod types;

pub use identity::derive_nostr_keypair;
pub use storage::{get_fingerprint_by_nostr_pubkey, get_nostr_pubkey, init_nostr_tables, store_nostr_identity};
pub use types::{NostrConfig, NostrKeys};
