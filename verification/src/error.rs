//! The library's error type.
//!
//! Each variant carries a human-readable message. Errors that other layers raise
//! (the database, the Signal Protocol implementation, codecs) are carried as the
//! message text they display.

use vstd::prelude::*;

verus! {

/// Errors returned by lotl.
#[derive(Debug)]
pub enum LotlError {
    Storage(String),
    SignalProtocol(String),
    Database(String),
    Serialization(String),
    Crypto(String),
    InvalidFingerprint(String),
    InvalidConfig(String),
    KeyNotFound(String),
    ContactNotFound(String),
    SessionNotFound(String),
    Io(String),
    Utf8(String),
    HexDecode(String),
    Base64Decode(String),
    Json(String),
}

} // verus!
