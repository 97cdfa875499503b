//! lotl: Signal Protocol session management, with verified local state.

pub mod clock;
pub mod contact_manager;
pub mod database;
pub mod decimal;
pub mod error;
pub mod hex_digest;
pub mod history_laws;
pub mod integrations;
pub mod message_history;
pub mod prekey_bundle;
pub mod recency;
pub mod session;
pub mod types;
pub mod wire;

use vstd::prelude::*;

verus! {

/// The library's name.
pub fn name() -> (r: &'static str)
    ensures
        r@ == "lotl"@,
{
    "lotl"
}

/// The library's version.
pub fn version() -> (r: &'static str)
    ensures
        r@ == "0.1.0"@,
{
    "0.1.0"
}

} // verus!
