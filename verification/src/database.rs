//! The local database: contacts, conversations, messages and Nostr identity
//! mappings, as the rows of their tables.
//!
//! The tables behave as the SQL schema of this library defines them: a contact's
//! fingerprint is its key; conversations and messages get increasing ids that are
//! never reused; conversations and Nostr identities refer to contacts, and such a
//! reference to a missing contact is refused.

use vstd::prelude::*;
use crate::error::LotlError;
use crate::types::{ContactInfo, ContactView};

verus! {

/// A row of the conversations table.
pub struct ConversationRow {
    pub id: i64,
    pub fingerprint: String,
    pub last_message_timestamp: i64,
    pub unread_count: i64,
    pub archived: bool,
}

pub struct ConversationRowView {
    pub id: i64,
    pub fingerprint: Seq<char>,
    pub last_message_timestamp: i64,
    pub unread_count: i64,
    pub archived: bool,
}

impl View for ConversationRow {
    type V = ConversationRowView;

    open spec fn view(&self) -> ConversationRowView {
        ConversationRowView {
            id: self.id,
            fingerprint: self.fingerprint@,
            last_message_timestamp: self.last_message_timestamp,
            unread_count: self.unread_count,
            archived: self.archived,
        }
    }
}

/// A row of the messages table. `direction` is 0 for a received message and 1 for
/// a sent one; `message_type` and `delivery_status` hold the codes of
/// `MessageType` and `DeliveryStatus`.
pub struct MessageRow {
    pub id: i64,
    pub conversation_id: i64,
    pub direction: i64,
    pub timestamp: i64,
    pub message_type: i64,
    pub content: Vec<u8>,
    pub delivery_status: i64,
    pub was_prekey_message: bool,
    pub session_established: bool,
}

pub struct MessageRowView {
    pub id: i64,
    pub conversation_id: i64,
    pub direction: i64,
    pub timestamp: i64,
    pub message_type: i64,
    pub content: Seq<u8>,
    pub delivery_status: i64,
    pub was_prekey_message: bool,
    pub session_established: bool,
}

impl View for MessageRow {
    type V = MessageRowView;

    open spec fn view(&self) -> MessageRowView {
        MessageRowView {
            id: self.id,
            conversation_id: self.conversation_id,
            direction: self.direction,
            timestamp: self.timestamp,
            message_type: self.message_type,
            content: self.content@,
            delivery_status: self.delivery_status,
            was_prekey_message: self.was_prekey_message,
            session_established: self.session_established,
        }
    }
}

/// A row of the Nostr identities table.
pub struct NostrIdentityRow {
    pub fingerprint: String,
    pub nostr_pubkey: String,
    pub derivation_context: String,
}

pub struct NostrIdentityRowView {
    pub fingerprint: Seq<char>,
    pub nostr_pubkey: Seq<char>,
    pub derivation_context: Seq<char>,
}

impl View for NostrIdentityRow {
    type V = NostrIdentityRowView;

    open spec fn view(&self) -> NostrIdentityRowView {
        NostrIdentityRowView {
            fingerprint: self.fingerprint@,
            nostr_pubkey: self.nostr_pubkey@,
            derivation_context: self.derivation_context@,
        }
    }
}

/// The local database. Rows of each table are kept in the order they were stored.
pub struct Database {
    pub has_contacts_table: bool,
    pub has_history_tables: bool,
    pub has_nostr_table: bool,
    pub contacts: Vec<ContactInfo>,
    pub conversations: Vec<ConversationRow>,
    pub messages: Vec<MessageRow>,
    /// The largest conversation id ever given out (0 before the first).
    pub last_conversation_id: i64,
    /// The largest message id ever given out (0 before the first).
    pub last_message_id: i64,
    pub nostr_identities: Vec<NostrIdentityRow>,
}

/// The value of the database.
pub struct DatabaseView {
    pub has_contacts_table: bool,
    pub has_history_tables: bool,
    pub has_nostr_table: bool,
    pub contacts: Seq<ContactView>,
    pub conversations: Seq<ConversationRowView>,
    pub messages: Seq<MessageRowView>,
    pub last_conversation_id: i64,
    pub last_message_id: i64,
    pub nostr_identities: Seq<NostrIdentityRowView>,
}

impl View for Database {
    type V = DatabaseView;

    open spec fn view(&self) -> DatabaseView {
        DatabaseView {
            has_contacts_table: self.has_contacts_table,
            has_history_tables: self.has_history_tables,
            has_nostr_table: self.has_nostr_table,
            contacts: self.contacts@.map_values(|c: ContactInfo| c@),
            conversations: self.conversations@.map_values(|c: ConversationRow| c@),
            messages: self.messages@.map_values(|m: MessageRow| m@),
            last_conversation_id: self.last_conversation_id,
            last_message_id: self.last_message_id,
            nostr_identities: self.nostr_identities@.map_values(|r: NostrIdentityRow| r@),
        }
    }
}

impl DatabaseView {
    /// The constraints that the schema puts on the tables.
    pub open spec fn wf(self) -> bool {
        &&& forall|i: int, j: int|
            0 <= i < j < self.contacts.len() ==> #[trigger] self.contacts[i].fingerprint
                != #[trigger] self.contacts[j].fingerprint
        &&& 0 <= self.last_conversation_id
        &&& forall|i: int|
            0 <= i < self.conversations.len() ==> 1 <= #[trigger] self.conversations[i].id
                <= self.last_conversation_id
        &&& forall|i: int, j: int|
            0 <= i < j < self.conversations.len() ==> #[trigger] self.conversations[i].id
                < #[trigger] self.conversations[j].id
        &&& forall|i: int, j: int|
            0 <= i < j < self.conversations.len() ==> #[trigger] self.conversations[i].fingerprint
                != #[trigger] self.conversations[j].fingerprint
        &&& forall|i: int|
            0 <= i < self.conversations.len() ==> 0 <= #[trigger] self.conversations[i].unread_count
                <= self.last_message_id
        &&& 0 <= self.last_message_id
        &&& self.messages.len() <= self.last_message_id
        &&& forall|i: int|
            0 <= i < self.messages.len() ==> 1 <= #[trigger] self.messages[i].id
                <= self.last_message_id
        &&& forall|i: int, j: int|
            0 <= i < j < self.messages.len() ==> #[trigger] self.messages[i].id
                < #[trigger] self.messages[j].id
        &&& forall|i: int, j: int|
            0 <= i < j < self.nostr_identities.len()
                ==> #[trigger] self.nostr_identities[i].fingerprint
                != #[trigger] self.nostr_identities[j].fingerprint
        &&& forall|i: int, j: int|
            0 <= i < j < self.nostr_identities.len()
                ==> #[trigger] self.nostr_identities[i].nostr_pubkey
                != #[trigger] self.nostr_identities[j].nostr_pubkey
    }

    /// The position of the contact with this fingerprint.
    pub open spec fn contact_index(self, fingerprint: Seq<char>) -> Option<int> {
        if exists|i: int| 0 <= i < self.contacts.len() && self.contacts[i].fingerprint == fingerprint {
            Some(
                choose|i: int|
                    0 <= i < self.contacts.len() && self.contacts[i].fingerprint == fingerprint,
            )
        } else {
            None
        }
    }

    /// The position of the conversation with this contact.
    pub open spec fn conversation_index(self, fingerprint: Seq<char>) -> Option<int> {
        if exists|i: int|
            0 <= i < self.conversations.len() && self.conversations[i].fingerprint == fingerprint {
            Some(
                choose|i: int|
                    0 <= i < self.conversations.len() && self.conversations[i].fingerprint
                        == fingerprint,
            )
        } else {
            None
        }
    }

    /// The position of the conversation with this id.
    pub open spec fn conversation_index_by_id(self, id: i64) -> Option<int> {
        if exists|i: int| 0 <= i < self.conversations.len() && self.conversations[i].id == id {
            Some(choose|i: int| 0 <= i < self.conversations.len() && self.conversations[i].id == id)
        } else {
            None
        }
    }

    /// The position of the message with this id.
    pub open spec fn message_index(self, id: i64) -> Option<int> {
        if exists|i: int| 0 <= i < self.messages.len() && self.messages[i].id == id {
            Some(choose|i: int| 0 <= i < self.messages.len() && self.messages[i].id == id)
        } else {
            None
        }
    }
}

/// Replacing a contact row by one with the same fingerprint keeps the schema's
/// constraints.
pub proof fn lemma_contact_update_keeps_wf(pre: DatabaseView, i: int, c: ContactView)
    requires
        pre.wf(),
        0 <= i < pre.contacts.len(),
        c.fingerprint == pre.contacts[i].fingerprint,
    ensures
        (DatabaseView { contacts: pre.contacts.update(i, c), ..pre }).wf(),
{
    let post = DatabaseView { contacts: pre.contacts.update(i, c), ..pre };
    assert forall|a: int, b: int| 0 <= a < b < post.contacts.len() implies #[trigger] post.contacts[a].fingerprint
        != #[trigger] post.contacts[b].fingerprint by {
        assert(pre.contacts[a].fingerprint != pre.contacts[b].fingerprint);
        assert(post.contacts[a].fingerprint == pre.contacts[a].fingerprint);
        assert(post.contacts[b].fingerprint == pre.contacts[b].fingerprint);
    }
}

/// The ways a database statement can fail.
pub enum DbFailure {
    NoSuchTable(Seq<char>),
    ForeignKey,
    Full,
    NoRows,
}

/// The message of each database failure.
pub open spec fn failure_text(f: DbFailure) -> Seq<char> {
    match f {
        DbFailure::NoSuchTable(t) => no_such_table_text(t),
        DbFailure::ForeignKey => foreign_key_text(),
        DbFailure::Full => full_text(),
        DbFailure::NoRows => no_rows_text(),
    }
}

/// `e` is the database error for failure `f`.
pub open spec fn is_db_error(e: LotlError, f: DbFailure) -> bool {
    e matches LotlError::Database(m) && m@ == failure_text(f)
}

/// The message of a database error about a table that does not exist.
pub open spec fn no_such_table_text(table: Seq<char>) -> Seq<char> {
    "no such table: "@ + table
}

/// The message of a database error when a row refers to a missing contact.
pub open spec fn foreign_key_text() -> Seq<char> {
    "FOREIGN KEY constraint failed"@
}

/// The message of a database error when a query that must find a row finds none.
pub open spec fn no_rows_text() -> Seq<char> {
    "Query returned no rows"@
}

/// The message of a database error when row ids are used up.
pub open spec fn full_text() -> Seq<char> {
    "database or disk is full"@
}

/// The database error for a missing table.
pub fn no_such_table(table: &str) -> (e: LotlError)
    ensures
        e matches LotlError::Database(m) && m@ == no_such_table_text(table@),
{
    let mut m = "no such table: ".to_owned();
    m.append(table);
    LotlError::Database(m)
}

/// The database error for a reference to a missing contact.
pub fn foreign_key_failure() -> (e: LotlError)
    ensures
        e matches LotlError::Database(m) && m@ == foreign_key_text(),
{
    LotlError::Database("FOREIGN KEY constraint failed".to_owned())
}

/// The database error for a query that found no row.
pub fn no_rows() -> (e: LotlError)
    ensures
        e matches LotlError::Database(m) && m@ == no_rows_text(),
{
    LotlError::Database("Query returned no rows".to_owned())
}

/// The database error for used-up row ids.
pub fn database_full() -> (e: LotlError)
    ensures
        e matches LotlError::Database(m) && m@ == full_text(),
{
    LotlError::Database("database or disk is full".to_owned())
}

impl Database {
    /// An empty database, with no tables yet.
    pub fn new() -> (db: Database)
        ensures
            db@.wf(),
            !db@.has_contacts_table,
            !db@.has_history_tables,
            !db@.has_nostr_table,
            db@.contacts.len() == 0,
            db@.conversations.len() == 0,
            db@.messages.len() == 0,
            db@.nostr_identities.len() == 0,
            db@.last_conversation_id == 0,
            db@.last_message_id == 0,
    {
        Database {
            has_contacts_table: false,
            has_history_tables: false,
            has_nostr_table: false,
            contacts: Vec::new(),
            conversations: Vec::new(),
            messages: Vec::new(),
            last_conversation_id: 0,
            last_message_id: 0,
            nostr_identities: Vec::new(),
        }
    }

    /// Finds the contact with this fingerprint.
    pub fn find_contact(&self, fingerprint: &String) -> (r: Option<usize>)
        ensures
            match r {
                Some(i) => i < self@.contacts.len() && self@.contacts[i as int].fingerprint
                    == fingerprint@,
                None => forall|i: int|
                    0 <= i < self@.contacts.len() ==> self@.contacts[i].fingerprint
                        != fingerprint@,
            },
    {
        let mut i: usize = 0;
        while i < self.contacts.len()
            invariant
                i <= self@.contacts.len(),
                forall|j: int| 0 <= j < i ==> self@.contacts[j].fingerprint != fingerprint@,
            decreases self@.contacts.len() - i,
        {
            if self.contacts[i].fingerprint == *fingerprint {
                return Some(i);
            }
            i = i + 1;
        }
        None
    }

    /// Finds the conversation with this contact.
    pub fn find_conversation(&self, fingerprint: &String) -> (r: Option<usize>)
        ensures
            match r {
                Some(i) => i < self@.conversations.len() && self@.conversations[i as int].fingerprint
                    == fingerprint@,
                None => forall|i: int|
                    0 <= i < self@.conversations.len() ==> self@.conversations[i].fingerprint
                        != fingerprint@,
            },
    {
        let mut i: usize = 0;
        while i < self.conversations.len()
            invariant
                i <= self@.conversations.len(),
                forall|j: int| 0 <= j < i ==> self@.conversations[j].fingerprint != fingerprint@,
            decreases self@.conversations.len() - i,
        {
            if self.conversations[i].fingerprint == *fingerprint {
                return Some(i);
            }
            i = i + 1;
        }
        None
    }

    /// Finds the message with this id.
    pub fn find_message(&self, id: i64) -> (r: Option<usize>)
        ensures
            match r {
                Some(i) => i < self@.messages.len() && self@.messages[i as int].id == id,
                None => forall|i: int| 0 <= i < self@.messages.len() ==> self@.messages[i].id != id,
            },
    {
        let mut i: usize = 0;
        while i < self.messages.len()
            invariant
                i <= self@.messages.len(),
                forall|j: int| 0 <= j < i ==> self@.messages[j].id != id,
            decreases self@.messages.len() - i,
        {
            if self.messages[i].id == id {
                return Some(i);
            }
            i = i + 1;
        }
        None
    }

    /// Finds the conversation with this id.
    pub fn find_conversation_by_id(&self, id: i64) -> (r: Option<usize>)
        ensures
            match r {
                Some(i) => i < self@.conversations.len() && self@.conversations[i as int].id == id,
                None => forall|i: int|
                    0 <= i < self@.conversations.len() ==> self@.conversations[i].id != id,
            },
    {
        let mut i: usize = 0;
        while i < self.conversations.len()
            invariant
                i <= self@.conversations.len(),
                forall|j: int| 0 <= j < i ==> self@.conversations[j].id != id,
            decreases self@.conversations.len() - i,
        {
            if self.conversations[i].id == id {
                return Some(i);
            }
            i = i + 1;
        }
        None
    }
}

/// In a well-formed database the position found for a fingerprint is the only one.
pub proof fn lemma_contact_index(db: DatabaseView, i: int)
    requires
        db.wf(),
        0 <= i < db.contacts.len(),
    ensures
        db.contact_index(db.contacts[i].fingerprint) == Some(i),
{
    let fp = db.contacts[i].fingerprint;
    assert(0 <= i < db.contacts.len() && db.contacts[i].fingerprint == fp);
    let j = choose|j: int| 0 <= j < db.contacts.len() && db.contacts[j].fingerprint == fp;
    if j < i {
        assert(db.contacts[j].fingerprint != db.contacts[i].fingerprint);
    } else if j > i {
        assert(db.contacts[i].fingerprint != db.contacts[j].fingerprint);
    }
}

/// In a well-formed database the position found for a conversation's contact is the only one.
pub proof fn lemma_conversation_index(db: DatabaseView, i: int)
    requires
        db.wf(),
        0 <= i < db.conversations.len(),
    ensures
        db.conversation_index(db.conversations[i].fingerprint) == Some(i),
        db.conversation_index_by_id(db.conversations[i].id) == Some(i),
{
    let fp = db.conversations[i].fingerprint;
    assert(0 <= i < db.conversations.len() && db.conversations[i].fingerprint == fp);
    let j = choose|j: int| 0 <= j < db.conversations.len() && db.conversations[j].fingerprint == fp;
    if j < i {
        assert(db.conversations[j].fingerprint != db.conversations[i].fingerprint);
    } else if j > i {
        assert(db.conversations[i].fingerprint != db.conversations[j].fingerprint);
    }
    let id = db.conversations[i].id;
    assert(0 <= i < db.conversations.len() && db.conversations[i].id == id);
    let k = choose|k: int| 0 <= k < db.conversations.len() && db.conversations[k].id == id;
    if k < i {
        assert(db.conversations[k].id < db.conversations[i].id);
    } else if k > i {
        assert(db.conversations[i].id < db.conversations[k].id);
    }
}

/// In a well-formed database the position found for a message id is the only one.
pub proof fn lemma_message_index(db: DatabaseView, i: int)
    requires
        db.wf(),
        0 <= i < db.messages.len(),
    ensures
        db.message_index(db.messages[i].id) == Some(i),
{
    let id = db.messages[i].id;
    assert(0 <= i < db.messages.len() && db.messages[i].id == id);
    let k = choose|k: int| 0 <= k < db.messages.len() && db.messages[k].id == id;
    if k < i {
        assert(db.messages[k].id < db.messages[i].id);
    } else if k > i {
        assert(db.messages[i].id < db.messages[k].id);
    }
}

} // verus!
