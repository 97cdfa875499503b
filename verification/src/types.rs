//! Plain data types shared across the library.

use vstd::prelude::*;

verus! {

/// Configuration for the session manager.
#[derive(Clone, Debug)]
pub struct LotlConfig {
    /// SQLite database path
    pub db_path: String,
    /// Fingerprint generation salt (default: "signal-identity-fingerprint")
    pub fingerprint_salt: String,
    /// Optional prefix for generated fingerprints (default: "" for no prefix)
    pub fingerprint_prefix: String,
}

/// The salt that fingerprints use unless configured otherwise.
pub open spec fn default_fingerprint_salt() -> Seq<char> {
    "signal-identity-fingerprint"@
}

impl Default for LotlConfig {
    fn default() -> (c: Self)
        ensures
            c.db_path@ == Seq::<char>::empty(),
            c.fingerprint_salt@ == default_fingerprint_salt(),
            c.fingerprint_prefix@ == Seq::<char>::empty(),
    {
        LotlConfig {
            db_path: String::new(),
            fingerprint_salt: "signal-identity-fingerprint".to_owned(),
            fingerprint_prefix: String::new(),
        }
    }
}

/// Contact information.
#[derive(Clone, Debug)]
pub struct ContactInfo {
    pub fingerprint: String,
    pub signal_identity_key: Vec<u8>,
    pub user_alias: Option<String>,
    pub first_seen: i64,
    pub last_updated: i64,
}

/// The value of a contact.
pub struct ContactView {
    pub fingerprint: Seq<char>,
    pub signal_identity_key: Seq<u8>,
    pub user_alias: Option<Seq<char>>,
    pub first_seen: i64,
    pub last_updated: i64,
}

/// The characters of an optional string.
pub open spec fn opt_string_view(s: Option<String>) -> Option<Seq<char>> {
    match s {
        Some(t) => Some(t@),
        None => None,
    }
}

/// The characters of an optional string slice.
pub open spec fn opt_str_view(s: Option<&str>) -> Option<Seq<char>> {
    match s {
        Some(t) => Some(t@),
        None => None,
    }
}

impl View for ContactInfo {
    type V = ContactView;

    open spec fn view(&self) -> ContactView {
        ContactView {
            fingerprint: self.fingerprint@,
            signal_identity_key: self.signal_identity_key@,
            user_alias: opt_string_view(self.user_alias),
            first_seen: self.first_seen,
            last_updated: self.last_updated,
        }
    }
}

/// Message direction.
#[derive(Clone, Copy, Debug, PartialEq, Eq, Structural)]
pub enum MessageDirection {
    Sent,
    Received,
}

/// Message record.
#[derive(Clone, Debug)]
pub struct MessageRecord {
    pub id: i64,
    pub fingerprint: String,
    pub direction: MessageDirection,
    pub plaintext: Vec<u8>,
    pub timestamp: i64,
}

/// Conversation record.
#[derive(Clone, Debug)]
pub struct ConversationRecord {
    pub id: i64,
    pub fingerprint: String,
    pub last_message_timestamp: i64,
}

/// The value of a conversation record.
pub struct ConversationRecordView {
    pub id: i64,
    pub fingerprint: Seq<char>,
    pub last_message_timestamp: i64,
}

impl View for ConversationRecord {
    type V = ConversationRecordView;

    open spec fn view(&self) -> ConversationRecordView {
        ConversationRecordView {
            id: self.id,
            fingerprint: self.fingerprint@,
            last_message_timestamp: self.last_message_timestamp,
        }
    }
}

/// Key maintenance result.
#[derive(Clone, Debug)]
pub struct MaintenanceResult {
    pub pre_keys_generated: u32,
    pub signed_pre_key_rotated: bool,
    pub kyber_pre_key_rotated: bool,
}

/// A copy of a string.
pub fn copy_string(s: &String) -> (r: String)
    ensures
        r@ == s@,
{
    s.clone()
}

/// A copy of an optional string.
pub fn copy_opt_string(s: &Option<String>) -> (r: Option<String>)
    ensures
        opt_string_view(r) == opt_string_view(*s),
{
    match s {
        Some(t) => Some(t.clone()),
        None => None,
    }
}

/// An owned copy of an optional string slice.
pub fn own_opt_str(s: Option<&str>) -> (r: Option<String>)
    ensures
        opt_string_view(r) == opt_str_view(s),
{
    match s {
        Some(t) => Some(t.to_owned()),
        None => None,
    }
}

/// A copy of a byte string.
pub fn copy_bytes(b: &[u8]) -> (r: Vec<u8>)
    ensures
        r@ == b@,
{
    let mut r: Vec<u8> = Vec::new();
    let mut i: usize = 0;
    while i < b.len()
        invariant
            i <= b@.len(),
            r@ == b@.subrange(0, i as int),
        decreases b@.len() - i,
    {
        r.push(b[i]);
        i = i + 1;
        assert(r@ =~= b@.subrange(0, i as int));
    }
    assert(b@.subrange(0, b@.len() as int) =~= b@);
    r
}

/// A copy of a contact.
pub fn copy_contact(c: &ContactInfo) -> (r: ContactInfo)
    ensures
        r@ == c@,
{
    ContactInfo {
        fingerprint: copy_string(&c.fingerprint),
        signal_identity_key: copy_bytes(c.signal_identity_key.as_slice()),
        user_alias: copy_opt_string(&c.user_alias),
        first_seen: c.first_seen,
        last_updated: c.last_updated,
    }
}

} // verus!
