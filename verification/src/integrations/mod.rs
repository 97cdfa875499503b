//! Transport integrations.

pub mod nostr;
