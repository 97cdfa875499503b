//! Message history: conversations with contacts and the messages in them.
//!
//! Messages are kept as plaintext (already decrypted by the Signal Protocol).

use vstd::prelude::*;
use crate::database::{self, ConversationRow, Database, DatabaseView, DbFailure, MessageRow, MessageRowView, ConversationRowView};
use crate::decimal;
use crate::error::LotlError;
use crate::recency::{self, recency_order};
use crate::types::{copy_bytes, copy_string, ConversationRecord, ConversationRecordView, MessageDirection};

verus! {

/// Message type classification.
#[derive(Debug, Clone, Copy, PartialEq, Eq, Structural)]
pub enum MessageType {
    /// Regular text message
    Text,
    /// Bundle announcement message
    BundleAnnouncement,
    /// System message
    System,
}

/// The message type that a stored code stands for; unknown codes read as text.
pub open spec fn message_type_of_code(value: i64) -> MessageType {
    if value == 1 {
        MessageType::BundleAnnouncement
    } else if value == 2 {
        MessageType::System
    } else {
        MessageType::Text
    }
}

/// The code stored for a message type.
pub open spec fn message_type_code(t: MessageType) -> i64 {
    match t {
        MessageType::Text => 0,
        MessageType::BundleAnnouncement => 1,
        MessageType::System => 2,
    }
}

impl MessageType {
    /// The code stored for this message type.
    pub fn code(self) -> (c: i64)
        ensures
            c == message_type_code(self),
    {
        match self {
            MessageType::Text => 0,
            MessageType::BundleAnnouncement => 1,
            MessageType::System => 2,
        }
    }
}

impl From<i64> for MessageType {
    fn from(value: i64) -> (r: Self) {
        if value == 1 {
            MessageType::BundleAnnouncement
        } else if value == 2 {
            MessageType::System
        } else {
            MessageType::Text
        }
    }
}

impl vstd::std_specs::convert::FromSpecImpl<i64> for MessageType {
    open spec fn obeys_from_spec() -> bool {
        true
    }

    open spec fn from_spec(v: i64) -> MessageType {
        message_type_of_code(v)
    }
}

/// Delivery status for outgoing messages.
#[derive(Debug, Clone, Copy, PartialEq, Eq, Structural)]
pub enum DeliveryStatus {
    /// Message pending send
    Pending,
    /// Message sent to transport
    Sent,
    /// Message delivered to recipient
    Delivered,
    /// Message failed to send
    Failed,
}

/// The delivery status that a stored code stands for; unknown codes read as pending.
pub open spec fn delivery_status_of_code(value: i64) -> DeliveryStatus {
    if value == 1 {
        DeliveryStatus::Sent
    } else if value == 2 {
        DeliveryStatus::Delivered
    } else if value == 3 {
        DeliveryStatus::Failed
    } else {
        DeliveryStatus::Pending
    }
}

/// The code stored for a delivery status.
pub open spec fn delivery_status_code(s: DeliveryStatus) -> i64 {
    match s {
        DeliveryStatus::Pending => 0,
        DeliveryStatus::Sent => 1,
        DeliveryStatus::Delivered => 2,
        DeliveryStatus::Failed => 3,
    }
}

impl DeliveryStatus {
    /// The code stored for this status.
    pub fn code(self) -> (c: i64)
        ensures
            c == delivery_status_code(self),
    {
        match self {
            DeliveryStatus::Pending => 0,
            DeliveryStatus::Sent => 1,
            DeliveryStatus::Delivered => 2,
            DeliveryStatus::Failed => 3,
        }
    }
}

impl From<i64> for DeliveryStatus {
    fn from(value: i64) -> (r: Self) {
        if value == 1 {
            DeliveryStatus::Sent
        } else if value == 2 {
            DeliveryStatus::Delivered
        } else if value == 3 {
            DeliveryStatus::Failed
        } else {
            DeliveryStatus::Pending
        }
    }
}

impl vstd::std_specs::convert::FromSpecImpl<i64> for DeliveryStatus {
    open spec fn obeys_from_spec() -> bool {
        true
    }

    open spec fn from_spec(v: i64) -> DeliveryStatus {
        delivery_status_of_code(v)
    }
}

/// Reading a stored code gives back the status it was stored for.
pub proof fn lemma_delivery_status_code_roundtrip(s: DeliveryStatus)
    ensures
        delivery_status_of_code(delivery_status_code(s)) == s,
{
}

/// Reading a stored code gives back the message type it was stored for.
pub proof fn lemma_message_type_code_roundtrip(t: MessageType)
    ensures
        message_type_of_code(message_type_code(t)) == t,
{
}

/// Extended message record with additional metadata.
#[derive(Debug, Clone)]
pub struct StoredMessage {
    /// Message ID
    pub id: i64,
    /// Conversation ID
    pub conversation_id: i64,
    /// Contact fingerprint
    pub fingerprint: String,
    /// Message direction
    pub direction: MessageDirection,
    /// Timestamp in seconds since UNIX epoch
    pub timestamp: i64,
    /// Message type
    pub message_type: MessageType,
    /// Message content (plaintext)
    pub plaintext: Vec<u8>,
    /// Delivery status (for outgoing messages)
    pub delivery_status: DeliveryStatus,
    /// Whether this was a prekey message
    pub was_prekey_message: bool,
    /// Whether this message established a new session
    pub session_established: bool,
}

pub struct StoredMessageView {
    pub id: i64,
    pub conversation_id: i64,
    pub fingerprint: Seq<char>,
    pub direction: MessageDirection,
    pub timestamp: i64,
    pub message_type: MessageType,
    pub plaintext: Seq<u8>,
    pub delivery_status: DeliveryStatus,
    pub was_prekey_message: bool,
    pub session_established: bool,
}

impl View for StoredMessage {
    type V = StoredMessageView;

    open spec fn view(&self) -> StoredMessageView {
        StoredMessageView {
            id: self.id,
            conversation_id: self.conversation_id,
            fingerprint: self.fingerprint@,
            direction: self.direction,
            timestamp: self.timestamp,
            message_type: self.message_type,
            plaintext: self.plaintext@,
            delivery_status: self.delivery_status,
            was_prekey_message: self.was_prekey_message,
            session_established: self.session_established,
        }
    }
}

/// A stored message row read back, with the fingerprint of its conversation.
pub open spec fn stored_message_of(m: MessageRowView, fingerprint: Seq<char>) -> StoredMessageView {
    StoredMessageView {
        id: m.id,
        conversation_id: m.conversation_id,
        fingerprint,
        direction: if m.direction == 0 {
            MessageDirection::Received
        } else {
            MessageDirection::Sent
        },
        timestamp: m.timestamp,
        message_type: message_type_of_code(m.message_type),
        plaintext: m.content,
        delivery_status: delivery_status_of_code(m.delivery_status),
        was_prekey_message: m.was_prekey_message,
        session_established: m.session_established,
    }
}

/// Extended conversation record with unread count and archived status.
#[derive(Debug, Clone)]
pub struct ExtendedConversationRecord {
    /// Conversation ID
    pub id: i64,
    /// Contact fingerprint
    pub fingerprint: String,
    /// Timestamp of last message in seconds since UNIX epoch
    pub last_message_timestamp: i64,
    /// Number of unread messages
    pub unread_count: u32,
    /// Whether conversation is archived
    pub archived: bool,
}

pub struct ExtendedConversationView {
    pub id: i64,
    pub fingerprint: Seq<char>,
    pub last_message_timestamp: i64,
    pub unread_count: u32,
    pub archived: bool,
}

impl View for ExtendedConversationRecord {
    type V = ExtendedConversationView;

    open spec fn view(&self) -> ExtendedConversationView {
        ExtendedConversationView {
            id: self.id,
            fingerprint: self.fingerprint@,
            last_message_timestamp: self.last_message_timestamp,
            unread_count: self.unread_count,
            archived: self.archived,
        }
    }
}

/// A conversation row read back; the unread count is reported as a `u32`.
pub open spec fn extended_record_of(c: ConversationRowView) -> ExtendedConversationView {
    ExtendedConversationView {
        id: c.id,
        fingerprint: c.fingerprint,
        last_message_timestamp: c.last_message_timestamp,
        unread_count: c.unread_count as u32,
        archived: c.archived,
    }
}

/// Creates the conversations and messages tables if they do not exist.
pub fn init_message_history_tables(db: &mut Database) -> (res: Result<(), LotlError>)
    requires
        old(db)@.wf(),
    ensures
        res is Ok,
        final(db)@ == (DatabaseView { has_history_tables: true, ..old(db)@ }),
        final(db)@.wf(),
{
    db.has_history_tables = true;
    Ok(())
}

/// The database with the conversation for a contact, and its position: the existing
/// one, or a new one when the contact has none yet.
pub open spec fn open_conversation(pre: DatabaseView, fingerprint: Seq<char>) -> Result<
    (DatabaseView, int),
    DbFailure,
> {
    match pre.conversation_index(fingerprint) {
        Some(i) => Ok((pre, i)),
        None => if !pre.has_contacts_table {
            Err(DbFailure::NoSuchTable("main.contacts"@))
        } else if pre.contact_index(fingerprint) is None {
            Err(DbFailure::ForeignKey)
        } else if pre.last_conversation_id == i64::MAX {
            Err(DbFailure::Full)
        } else {
            let id = (pre.last_conversation_id + 1) as i64;
            Ok(
                (
                    DatabaseView {
                        conversations: pre.conversations.push(
                            ConversationRowView {
                                id,
                                fingerprint,
                                last_message_timestamp: 0,
                                unread_count: 0,
                                archived: false,
                            },
                        ),
                        last_conversation_id: id,
                        ..pre
                    },
                    pre.conversations.len() as int,
                ),
            )
        },
    }
}

/// Gets or creates the conversation for a contact.
fn get_or_create_conversation(db: &mut Database, fingerprint: &String) -> (res: Result<usize, LotlError>)
    requires
        old(db)@.wf(),
        old(db)@.has_history_tables,
    ensures
        final(db)@.wf(),
        match open_conversation(old(db)@, fingerprint@) {
            Ok((post, i)) => res matches Ok(j) && j as int == i && final(db)@ == post,
            Err(f) => res matches Err(e) && database::is_db_error(e, f) && final(db)@ == old(db)@,
        },
{
    let ghost pre = db@;
    match db.find_conversation(fingerprint) {
        Some(i) => {
            proof {
                database::lemma_conversation_index(pre, i as int);
            }
            return Ok(i);
        },
        None => {},
    }
    if !db.has_contacts_table {
        return Err(database::no_such_table("main.contacts"));
    }
    match db.find_contact(fingerprint) {
        Some(c) => {
            proof {
                database::lemma_contact_index(pre, c as int);
            }
        },
        None => {
            return Err(database::foreign_key_failure());
        },
    }
    if db.last_conversation_id == i64::MAX {
        return Err(database::database_full());
    }
    let id = db.last_conversation_id + 1;
    let row = ConversationRow {
        id,
        fingerprint: copy_string(fingerprint),
        last_message_timestamp: 0,
        unread_count: 0,
        archived: false,
    };
    let n = db.conversations.len();
    db.conversations.push(row);
    db.last_conversation_id = id;
    proof {
        match open_conversation(pre, fingerprint@) {
            Ok((post, _)) => {
                assert(db@.conversations =~= post.conversations);
            },
            Err(_) => {},
        }
    }
    Ok(n)
}

/// What storing a message does: the conversation is opened (possibly created), the
/// message gets the next id, and the conversation's last message time becomes the
/// message's; a received message also counts as unread.
pub open spec fn store_message_effect(
    pre: DatabaseView,
    fingerprint: Seq<char>,
    timestamp: i64,
    content: Seq<u8>,
    incoming: bool,
    was_prekey_message: bool,
    session_established: bool,
) -> (DatabaseView, Result<i64, DbFailure>) {
    if !pre.has_history_tables {
        (pre, Err(DbFailure::NoSuchTable("conversations"@)))
    } else {
        match open_conversation(pre, fingerprint) {
            Err(f) => (pre, Err(f)),
            Ok((mid, ci)) => if mid.last_message_id == i64::MAX {
                (mid, Err(DbFailure::Full))
            } else {
                let id = (mid.last_message_id + 1) as i64;
                let c = mid.conversations[ci];
                let row = MessageRowView {
                    id,
                    conversation_id: c.id,
                    direction: if incoming {
                        0
                    } else {
                        1
                    },
                    timestamp,
                    message_type: message_type_code(MessageType::Text),
                    content,
                    delivery_status: delivery_status_code(DeliveryStatus::Pending),
                    was_prekey_message,
                    session_established,
                };
                let conv = ConversationRowView {
                    last_message_timestamp: timestamp,
                    unread_count: if incoming {
                        (c.unread_count + 1) as i64
                    } else {
                        c.unread_count
                    },
                    ..c
                };
                (
                    DatabaseView {
                        messages: mid.messages.push(row),
                        last_message_id: id,
                        conversations: mid.conversations.update(ci, conv),
                        ..mid
                    },
                    Ok(id),
                )
            },
        }
    }
}

/// The result of storing a message, as the function returns it.
pub open spec fn store_result_matches(res: Result<i64, LotlError>, expected: Result<i64, DbFailure>) -> bool {
    match expected {
        Ok(id) => res == Ok::<i64, LotlError>(id),
        Err(f) => res matches Err(e) && database::is_db_error(e, f),
    }
}

fn store_message(
    db: &mut Database,
    fingerprint: &str,
    timestamp: i64,
    plaintext: &[u8],
    incoming: bool,
    was_prekey_message: bool,
    session_established: bool,
) -> (res: Result<i64, LotlError>)
    requires
        old(db)@.wf(),
    ensures
        final(db)@.wf(),
        ({
            let (post, expected) = store_message_effect(
                old(db)@,
                fingerprint@,
                timestamp,
                plaintext@,
                incoming,
                was_prekey_message,
                session_established,
            );
            final(db)@ == post && store_result_matches(res, expected)
        }),
{
    if !db.has_history_tables {
        return Err(database::no_such_table("conversations"));
    }
    let key = fingerprint.to_owned();
    let ci = match get_or_create_conversation(db, &key) {
        Ok(i) => i,
        Err(e) => {
            return Err(e);
        },
    };
    let ghost mid = db@;
    proof {
        match open_conversation(old(db)@, fingerprint@) {
            Ok((post, i)) => {
                assert(post == mid && i == ci as int);
            },
            Err(_) => {},
        }
        assert(open_conversation(old(db)@, fingerprint@) == Ok::<(DatabaseView, int), DbFailure>((mid, ci as int)));
    }
    if db.last_message_id == i64::MAX {
        return Err(database::database_full());
    }
    let cur_unread = db.conversations[ci].unread_count;
    assert(mid.conversations[ci as int].unread_count == cur_unread);
    assert(cur_unread <= mid.last_message_id);
    let id = db.last_message_id + 1;
    let conversation_id = db.conversations[ci].id;
    let row = MessageRow {
        id,
        conversation_id,
        direction: if incoming {
            0
        } else {
            1
        },
        timestamp,
        message_type: MessageType::Text.code(),
        content: copy_bytes(plaintext),
        delivery_status: DeliveryStatus::Pending.code(),
        was_prekey_message,
        session_established,
    };
    db.messages.push(row);
    db.last_message_id = id;
    let unread = if incoming {
        cur_unread + 1
    } else {
        cur_unread
    };
    let conv = ConversationRow {
        id: conversation_id,
        fingerprint: copy_string(&db.conversations[ci].fingerprint),
        last_message_timestamp: timestamp,
        unread_count: unread,
        archived: db.conversations[ci].archived,
    };
    db.conversations.set(ci, conv);
    proof {
        let (post, _) = store_message_effect(
            old(db)@,
            fingerprint@,
            timestamp,
            plaintext@,
            incoming,
            was_prekey_message,
            session_established,
        );
        assert(db@.messages =~= post.messages);
        assert(db@.conversations =~= post.conversations);
        assert forall|a: int, b: int| 0 <= a < b < db@.conversations.len() implies #[trigger] db@.conversations[a].fingerprint
            != #[trigger] db@.conversations[b].fingerprint && db@.conversations[a].id < db@.conversations[b].id by {
            assert(mid.conversations[a].fingerprint != mid.conversations[b].fingerprint);
            assert(mid.conversations[a].id < mid.conversations[b].id);
        }
    }
    Ok(id)
}

/// Stores a received message and returns its id.
pub fn store_incoming_message(
    db: &mut Database,
    fingerprint: &str,
    timestamp: i64,
    plaintext: &[u8],
    was_prekey_message: bool,
    session_established: bool,
) -> (res: Result<i64, LotlError>)
    requires
        old(db)@.wf(),
    ensures
        final(db)@.wf(),
        ({
            let (post, expected) = store_message_effect(
                old(db)@,
                fingerprint@,
                timestamp,
                plaintext@,
                true,
                was_prekey_message,
                session_established,
            );
            final(db)@ == post && store_result_matches(res, expected)
        }),
{
    store_message(db, fingerprint, timestamp, plaintext, true, was_prekey_message, session_established)
}

/// Stores a sent message, pending delivery, and returns its id.
pub fn store_outgoing_message(
    db: &mut Database,
    fingerprint: &str,
    timestamp: i64,
    plaintext: &[u8],
) -> (res: Result<i64, LotlError>)
    requires
        old(db)@.wf(),
    ensures
        final(db)@.wf(),
        ({
            let (post, expected) = store_message_effect(
                old(db)@,
                fingerprint@,
                timestamp,
                plaintext@,
                false,
                false,
                false,
            );
            final(db)@ == post && store_result_matches(res, expected)
        }),
{
    store_message(db, fingerprint, timestamp, plaintext, false, false, false)
}

/// The messages of one conversation, in the order they were stored.
pub open spec fn conversation_messages(msgs: Seq<MessageRowView>, conversation_id: i64) -> Seq<MessageRowView>
    decreases msgs.len(),
{
    if msgs.len() == 0 {
        Seq::empty()
    } else {
        let rest = conversation_messages(msgs.drop_last(), conversation_id);
        if msgs.last().conversation_id == conversation_id {
            rest.push(msgs.last())
        } else {
            rest
        }
    }
}

/// The messages of every other conversation, in the order they were stored.
pub open spec fn other_conversations_messages(msgs: Seq<MessageRowView>, conversation_id: i64) -> Seq<MessageRowView>
    decreases msgs.len(),
{
    if msgs.len() == 0 {
        Seq::empty()
    } else {
        let rest = other_conversations_messages(msgs.drop_last(), conversation_id);
        if msgs.last().conversation_id != conversation_id {
            rest.push(msgs.last())
        } else {
            rest
        }
    }
}

/// The number of received messages of a conversation sent after `after`.
pub open spec fn unread_after(msgs: Seq<MessageRowView>, conversation_id: i64, after: i64) -> nat
    decreases msgs.len(),
{
    if msgs.len() == 0 {
        0
    } else {
        let m = msgs.last();
        unread_after(msgs.drop_last(), conversation_id, after) + if m.conversation_id
            == conversation_id && m.direction == 0 && m.timestamp > after {
            1nat
        } else {
            0nat
        }
    }
}

/// The conversations listed: all of them, or only those not archived.
pub open spec fn listed_conversations(convs: Seq<ConversationRowView>, include_archived: bool) -> Seq<ConversationRowView>
    decreases convs.len(),
{
    if convs.len() == 0 {
        Seq::empty()
    } else {
        let rest = listed_conversations(convs.drop_last(), include_archived);
        if include_archived || !convs.last().archived {
            rest.push(convs.last())
        } else {
            rest
        }
    }
}

/// The message timestamps of a sequence of messages.
pub open spec fn message_times(msgs: Seq<MessageRowView>) -> Seq<i64> {
    msgs.map_values(|m: MessageRowView| m.timestamp)
}

/// The last message times of a sequence of conversations.
pub open spec fn conversation_times(convs: Seq<ConversationRowView>) -> Seq<i64> {
    convs.map_values(|c: ConversationRowView| c.last_message_timestamp)
}

/// The part of `s` that a page of `limit` items after skipping `offset` items shows.
pub open spec fn page<T>(s: Seq<T>, offset: u32, limit: u32) -> Seq<T> {
    let start = if offset as int <= s.len() { offset as int } else { s.len() as int };
    let end = if offset as int + limit as int <= s.len() { offset as int + limit as int } else { s.len() as int };
    s.subrange(start, end)
}

/// The database after the delivery status of a message is set (no such message: unchanged).
pub open spec fn after_status_update(pre: DatabaseView, message_id: i64, status: DeliveryStatus) -> DatabaseView {
    match pre.message_index(message_id) {
        Some(i) => DatabaseView {
            messages: pre.messages.update(
                i,
                MessageRowView { delivery_status: delivery_status_code(status), ..pre.messages[i] },
            ),
            ..pre
        },
        None => pre,
    }
}

/// The database after a contact's conversation is marked read (no conversation: unchanged).
pub open spec fn after_mark_read(pre: DatabaseView, fingerprint: Seq<char>) -> DatabaseView {
    match pre.conversation_index(fingerprint) {
        Some(ci) => DatabaseView {
            conversations: pre.conversations.update(
                ci,
                ConversationRowView { unread_count: 0, ..pre.conversations[ci] },
            ),
            ..pre
        },
        None => pre,
    }
}

/// The database after a contact's conversation is marked read up to a time: its unread
/// count becomes the number of its received messages sent after that time (no
/// conversation: unchanged).
pub open spec fn after_mark_read_up_to(pre: DatabaseView, fingerprint: Seq<char>, up_to_timestamp: i64) -> DatabaseView {
    match pre.conversation_index(fingerprint) {
        Some(ci) => DatabaseView {
            conversations: pre.conversations.update(
                ci,
                ConversationRowView {
                    unread_count: unread_after(pre.messages, pre.conversations[ci].id, up_to_timestamp) as i64,
                    ..pre.conversations[ci]
                },
            ),
            ..pre
        },
        None => pre,
    }
}

/// The database after a contact's conversation is archived or unarchived (no
/// conversation: unchanged).
pub open spec fn after_archive(pre: DatabaseView, fingerprint: Seq<char>, archived: bool) -> DatabaseView {
    match pre.conversation_index(fingerprint) {
        Some(ci) => DatabaseView {
            conversations: pre.conversations.update(ci, ConversationRowView { archived, ..pre.conversations[ci] }),
            ..pre
        },
        None => pre,
    }
}

/// The database after a message is deleted (no such message: unchanged).
pub open spec fn after_delete_message(pre: DatabaseView, message_id: i64) -> DatabaseView {
    match pre.message_index(message_id) {
        Some(i) => DatabaseView { messages: pre.messages.remove(i), ..pre },
        None => pre,
    }
}

/// The database after a contact's conversation and its messages are deleted (no
/// conversation: unchanged).
pub open spec fn after_delete_conversation(pre: DatabaseView, fingerprint: Seq<char>) -> DatabaseView {
    match pre.conversation_index(fingerprint) {
        Some(ci) => DatabaseView {
            messages: other_conversations_messages(pre.messages, pre.conversations[ci].id),
            conversations: pre.conversations.remove(ci),
            ..pre
        },
        None => pre,
    }
}

/// The message with this id, read back with the fingerprint of its conversation (none
/// when there is no such message, or its conversation is gone).
pub open spec fn found_message(db: DatabaseView, message_id: i64) -> Option<StoredMessageView> {
    match db.message_index(message_id) {
        Some(i) => match db.conversation_index_by_id(db.messages[i].conversation_id) {
            Some(ci) => Some(stored_message_of(db.messages[i], db.conversations[ci].fingerprint)),
            None => None,
        },
        None => None,
    }
}

/// The unread count of a contact's conversation (0 when there is none).
pub open spec fn unread_of(db: DatabaseView, fingerprint: Seq<char>) -> i64 {
    match db.conversation_index(fingerprint) {
        Some(ci) => db.conversations[ci].unread_count,
        None => 0,
    }
}

/// The text of the error for a message that is not found.
pub open spec fn message_not_found_text(message_id: i64) -> Seq<char> {
    "Message not found: "@ + decimal::decimal(message_id as int)
}

fn message_not_found(message_id: i64) -> (e: LotlError)
    ensures
        e matches LotlError::Storage(m) && m@ == message_not_found_text(message_id),
{
    let mut m = "Message not found: ".to_owned();
    decimal::push_decimal(&mut m, message_id);
    LotlError::Storage(m)
}

fn copy_message_row(m: &MessageRow) -> (r: MessageRow)
    ensures
        r@ == m@,
{
    MessageRow {
        id: m.id,
        conversation_id: m.conversation_id,
        direction: m.direction,
        timestamp: m.timestamp,
        message_type: m.message_type,
        content: copy_bytes(m.content.as_slice()),
        delivery_status: m.delivery_status,
        was_prekey_message: m.was_prekey_message,
        session_established: m.session_established,
    }
}

/// A message row read back with its conversation's fingerprint.
fn stored_message(m: &MessageRow, fingerprint: &String) -> (r: StoredMessage)
    ensures
        r@ == stored_message_of(m@, fingerprint@),
{
    StoredMessage {
        id: m.id,
        conversation_id: m.conversation_id,
        fingerprint: copy_string(fingerprint),
        direction: if m.direction == 0 {
            MessageDirection::Received
        } else {
            MessageDirection::Sent
        },
        timestamp: m.timestamp,
        message_type: MessageType::from(m.message_type),
        plaintext: copy_bytes(m.content.as_slice()),
        delivery_status: DeliveryStatus::from(m.delivery_status),
        was_prekey_message: m.was_prekey_message,
        session_established: m.session_established,
    }
}

/// Sets the delivery status of a message (no message with this id: nothing changes).
pub fn update_delivery_status(db: &mut Database, message_id: i64, status: DeliveryStatus) -> (res: Result<(), LotlError>)
    requires
        old(db)@.wf(),
    ensures
        final(db)@.wf(),
        if !old(db)@.has_history_tables {
            res matches Err(e) && database::is_db_error(e, DbFailure::NoSuchTable("messages"@))
                && final(db)@ == old(db)@
        } else {
            &&& res is Ok
            &&& final(db)@ == after_status_update(old(db)@, message_id, status)
        },
{
    if !db.has_history_tables {
        return Err(database::no_such_table("messages"));
    }
    let ghost pre = db@;
    match db.find_message(message_id) {
        Some(i) => {
            proof {
                database::lemma_message_index(pre, i as int);
            }
            let mut row = copy_message_row(&db.messages[i]);
            row.delivery_status = status.code();
            db.messages.set(i, row);
            proof {
                assert(db@.messages =~= pre.messages.update(
                    i as int,
                    MessageRowView { delivery_status: delivery_status_code(status), ..pre.messages[i as int] },
                ));
                assert(db@ == DatabaseView { messages: db@.messages, ..pre });
                assert forall|a: int, b: int| 0 <= a < b < db@.messages.len() implies #[trigger] db@.messages[a].id
                    < #[trigger] db@.messages[b].id by {
                    assert(pre.messages[a].id < pre.messages[b].id);
                }
            }
        },
        None => {},
    }
    Ok(())
}

/// Retrieves a message by id, with the fingerprint of its conversation.
pub fn get_message(db: &Database, message_id: i64) -> (res: Result<StoredMessage, LotlError>)
    requires
        db@.wf(),
    ensures
        if !db@.has_history_tables {
            res matches Err(e) && database::is_db_error(e, DbFailure::NoSuchTable("messages"@))
        } else {
            match found_message(db@, message_id) {
                Some(found) => res matches Ok(m) && m@ == found,
                None => res matches Err(LotlError::Storage(t)) && t@ == message_not_found_text(message_id),
            }
        },
{
    if !db.has_history_tables {
        return Err(database::no_such_table("messages"));
    }
    match db.find_message(message_id) {
        Some(i) => {
            proof {
                database::lemma_message_index(db@, i as int);
            }
            match db.find_conversation_by_id(db.messages[i].conversation_id) {
                Some(ci) => {
                    proof {
                        database::lemma_conversation_index(db@, ci as int);
                    }
                    Ok(stored_message(&db.messages[i], &db.conversations[ci].fingerprint))
                },
                None => Err(message_not_found(message_id)),
            }
        },
        None => Err(message_not_found(message_id)),
    }
}

/// Positions of the messages of a conversation, in stored order.
fn conversation_message_positions(db: &Database, conversation_id: i64) -> (r: (Vec<usize>, Vec<i64>))
    ensures
        r.0@.len() == conversation_messages(db@.messages, conversation_id).len(),
        forall|a: int|
            0 <= a < r.0@.len() ==> (#[trigger] r.0@[a]) < db@.messages.len()
                && db@.messages[r.0@[a] as int] == conversation_messages(db@.messages, conversation_id)[a],
        r.1@ == message_times(conversation_messages(db@.messages, conversation_id)),
{
    let mut idx: Vec<usize> = Vec::new();
    let mut keys: Vec<i64> = Vec::new();
    let mut i: usize = 0;
    while i < db.messages.len()
        invariant
            i <= db@.messages.len(),
            idx@.len() == conversation_messages(db@.messages.take(i as int), conversation_id).len(),
            forall|a: int|
                0 <= a < idx@.len() ==> (#[trigger] idx@[a]) < i && db@.messages[idx@[a] as int]
                    == conversation_messages(db@.messages.take(i as int), conversation_id)[a],
            keys@ == message_times(conversation_messages(db@.messages.take(i as int), conversation_id)),
        decreases db@.messages.len() - i,
    {
        let ghost before = conversation_messages(db@.messages.take(i as int), conversation_id);
        proof {
            assert(db@.messages.take(i + 1).drop_last() =~= db@.messages.take(i as int));
            assert(db@.messages.take(i + 1).last() == db@.messages[i as int]);
        }
        if db.messages[i].conversation_id == conversation_id {
            idx.push(i);
            keys.push(db.messages[i].timestamp);
            proof {
                let after = conversation_messages(db@.messages.take(i + 1), conversation_id);
                assert(after == before.push(db@.messages[i as int]));
                assert(keys@ =~= message_times(after));
                assert forall|a: int| 0 <= a < idx@.len() implies (#[trigger] idx@[a]) < i + 1
                    && db@.messages[idx@[a] as int] == after[a] by {
                    if a < idx@.len() - 1 {
                        assert(after[a] == before[a]);
                    }
                }
            }
        }
        i = i + 1;
    }
    assert(db@.messages.take(db@.messages.len() as int) =~= db@.messages);
    (idx, keys)
}

/// `shown` is the page of a conversation's messages, newest first (among messages with
/// the same timestamp, the one stored later first), read back with `fingerprint`.
pub open spec fn is_message_page(
    msgs: Seq<MessageRowView>,
    fingerprint: Seq<char>,
    limit: u32,
    offset: u32,
    shown: Seq<StoredMessageView>,
) -> bool {
    exists|p: Seq<int>|
        recency::is_recency_order(message_times(msgs), p) && shown == page(
            p.map_values(|k: int| stored_message_of(msgs[k], fingerprint)),
            offset,
            limit,
        )
}

/// Gets a page of a conversation's messages, newest first: at most `limit` of them,
/// after skipping `offset`. A contact without a conversation has no messages.
pub fn get_conversation_messages(
    db: &Database,
    fingerprint: &str,
    limit: u32,
    offset: u32,
) -> (res: Result<Vec<StoredMessage>, LotlError>)
    requires
        db@.wf(),
    ensures
        if !db@.has_history_tables {
            res matches Err(e) && database::is_db_error(e, DbFailure::NoSuchTable("conversations"@))
        } else {
            match db@.conversation_index(fingerprint@) {
                None => res matches Ok(v) && v@.len() == 0,
                Some(ci) => res matches Ok(v) && is_message_page(
                    conversation_messages(db@.messages, db@.conversations[ci].id),
                    fingerprint@,
                    limit,
                    offset,
                    v@.map_values(|m: StoredMessage| m@),
                ),
            }
        },
{
    if !db.has_history_tables {
        return Err(database::no_such_table("conversations"));
    }
    let key = fingerprint.to_owned();
    let ci = match db.find_conversation(&key) {
        Some(ci) => ci,
        None => {
            return Ok(Vec::new());
        },
    };
    proof {
        database::lemma_conversation_index(db@, ci as int);
    }
    let (idx, keys) = conversation_message_positions(db, db.conversations[ci].id);
    let ghost sel = conversation_messages(db@.messages, db@.conversations[ci as int].id);
    let order = recency_order(&keys);
    let ghost p = recency::positions(order@);
    let ghost all = p.map_values(|k: int| stored_message_of(sel[k], fingerprint@));
    let n = order.len();
    let start: usize = if (offset as u64) <= (n as u64) { offset as usize } else { n };
    let end: usize = if (offset as u64) + (limit as u64) <= (n as u64) {
        (offset as u64 + limit as u64) as usize
    } else {
        n
    };
    let mut out: Vec<StoredMessage> = Vec::new();
    let mut j: usize = start;
    while j < end
        invariant
            start <= j <= end <= n,
            key@ == fingerprint@,
            n == order@.len(),
            n == p.len(),
            recency::is_recency_order(keys@, p),
            keys@ == message_times(sel),
            p == recency::positions(order@),
            all == p.map_values(|k: int| stored_message_of(sel[k], fingerprint@)),
            idx@.len() == sel.len(),
            forall|a: int|
                0 <= a < idx@.len() ==> (#[trigger] idx@[a]) < db@.messages.len()
                    && db@.messages[idx@[a] as int] == sel[a],
            out@.len() == j - start,
            forall|a: int| 0 <= a < out@.len() ==> (#[trigger] out@[a])@ == all[start + a],
        decreases end - j,
    {
        let k = order[j];
        assert(p[j as int] == k as int);
        assert(0 <= p[j as int] < keys@.len());
        let pos = idx[k];
        assert(db@.messages[pos as int] == sel[k as int]);
        assert(db.messages@[pos as int]@ == db@.messages[pos as int]);
        let m = stored_message(&db.messages[pos], &key);
        assert(all[j as int] == stored_message_of(sel[p[j as int]], fingerprint@));
        assert(m@ == all[j as int]);
        out.push(m);
        j = j + 1;
    }
    proof {
        let shown = out@.map_values(|m: StoredMessage| m@);
        assert(shown =~= page(all, offset, limit));
    }
    Ok(out)
}

/// Positions of the conversations that are listed.
fn listed_conversation_positions(db: &Database, include_archived: bool) -> (r: (Vec<usize>, Vec<i64>))
    ensures
        r.0@.len() == listed_conversations(db@.conversations, include_archived).len(),
        forall|a: int|
            0 <= a < r.0@.len() ==> (#[trigger] r.0@[a]) < db@.conversations.len()
                && db@.conversations[r.0@[a] as int] == listed_conversations(db@.conversations, include_archived)[a],
        r.1@ == conversation_times(listed_conversations(db@.conversations, include_archived)),
{
    let mut idx: Vec<usize> = Vec::new();
    let mut keys: Vec<i64> = Vec::new();
    let mut i: usize = 0;
    while i < db.conversations.len()
        invariant
            i <= db@.conversations.len(),
            idx@.len() == listed_conversations(db@.conversations.take(i as int), include_archived).len(),
            forall|a: int|
                0 <= a < idx@.len() ==> (#[trigger] idx@[a]) < i && db@.conversations[idx@[a] as int]
                    == listed_conversations(db@.conversations.take(i as int), include_archived)[a],
            keys@ == conversation_times(listed_conversations(db@.conversations.take(i as int), include_archived)),
        decreases db@.conversations.len() - i,
    {
        let ghost before = listed_conversations(db@.conversations.take(i as int), include_archived);
        proof {
            assert(db@.conversations.take(i + 1).drop_last() =~= db@.conversations.take(i as int));
            assert(db@.conversations.take(i + 1).last() == db@.conversations[i as int]);
        }
        if include_archived || !db.conversations[i].archived {
            idx.push(i);
            keys.push(db.conversations[i].last_message_timestamp);
            proof {
                let after = listed_conversations(db@.conversations.take(i + 1), include_archived);
                assert(after == before.push(db@.conversations[i as int]));
                assert(keys@ =~= conversation_times(after));
                assert forall|a: int| 0 <= a < idx@.len() implies (#[trigger] idx@[a]) < i + 1
                    && db@.conversations[idx@[a] as int] == after[a] by {
                    if a < idx@.len() - 1 {
                        assert(after[a] == before[a]);
                    }
                }
            }
        }
        i = i + 1;
    }
    assert(db@.conversations.take(db@.conversations.len() as int) =~= db@.conversations);
    (idx, keys)
}

/// `shown` is every listed conversation once, with the most recent last message first
/// (among equal times, the conversation created later first).
pub open spec fn is_conversation_listing(
    convs: Seq<ConversationRowView>,
    shown: Seq<ExtendedConversationView>,
) -> bool {
    exists|p: Seq<int>|
        recency::is_recency_order(conversation_times(convs), p) && shown == p.map_values(
            |k: int| extended_record_of(convs[k]),
        )
}

/// Gets all conversations (or only those not archived), most recent activity first.
pub fn get_conversations(db: &Database, include_archived: bool) -> (res: Result<
    Vec<ExtendedConversationRecord>,
    LotlError,
>)
    requires
        db@.wf(),
    ensures
        if !db@.has_history_tables {
            res matches Err(e) && database::is_db_error(e, DbFailure::NoSuchTable("conversations"@))
        } else {
            res matches Ok(v) && is_conversation_listing(
                listed_conversations(db@.conversations, include_archived),
                v@.map_values(|c: ExtendedConversationRecord| c@),
            )
        },
{
    if !db.has_history_tables {
        return Err(database::no_such_table("conversations"));
    }
    let (idx, keys) = listed_conversation_positions(db, include_archived);
    let ghost sel = listed_conversations(db@.conversations, include_archived);
    let order = recency_order(&keys);
    let ghost p = recency::positions(order@);
    let mut out: Vec<ExtendedConversationRecord> = Vec::new();
    let mut j: usize = 0;
    while j < order.len()
        invariant
            j <= order@.len(),
            order@.len() == p.len(),
            recency::is_recency_order(keys@, p),
            keys@ == conversation_times(sel),
            p == recency::positions(order@),
            idx@.len() == sel.len(),
            forall|a: int|
                0 <= a < idx@.len() ==> (#[trigger] idx@[a]) < db@.conversations.len()
                    && db@.conversations[idx@[a] as int] == sel[a],
            out@.len() == j,
            forall|a: int| 0 <= a < out@.len() ==> (#[trigger] out@[a])@ == extended_record_of(sel[p[a]]),
        decreases order@.len() - j,
    {
        let k = order[j];
        assert(p[j as int] == k as int);
        assert(0 <= p[j as int] < keys@.len());
        let c = &db.conversations[idx[k]];
        let rec = ExtendedConversationRecord {
            id: c.id,
            fingerprint: copy_string(&c.fingerprint),
            last_message_timestamp: c.last_message_timestamp,
            unread_count: c.unread_count as u32,
            archived: c.archived,
        };
        out.push(rec);
        j = j + 1;
    }
    proof {
        let shown = out@.map_values(|c: ExtendedConversationRecord| c@);
        assert(shown =~= p.map_values(|k: int| extended_record_of(sel[k])));
    }
    Ok(out)
}

/// A conversation listing entry in its simple form.
pub open spec fn simple_record_of(c: ExtendedConversationView) -> ConversationRecordView {
    ConversationRecordView {
        id: c.id,
        fingerprint: c.fingerprint,
        last_message_timestamp: c.last_message_timestamp,
    }
}

/// Gets the conversations as simple records, in the order of [`get_conversations`].
pub fn list_conversations(db: &Database, include_archived: bool) -> (res: Result<Vec<ConversationRecord>, LotlError>)
    requires
        db@.wf(),
    ensures
        if !db@.has_history_tables {
            res matches Err(e) && database::is_db_error(e, DbFailure::NoSuchTable("conversations"@))
        } else {
            res matches Ok(v) && exists|ext: Seq<ExtendedConversationView>|
                is_conversation_listing(listed_conversations(db@.conversations, include_archived), ext)
                    && v@.map_values(|c: ConversationRecord| c@) == ext.map_values(
                    |e: ExtendedConversationView| simple_record_of(e),
                )
        },
{
    let extended = get_conversations(db, include_archived)?;
    let mut out: Vec<ConversationRecord> = Vec::new();
    let mut j: usize = 0;
    while j < extended.len()
        invariant
            j <= extended@.len(),
            out@.len() == j,
            forall|a: int| 0 <= a < j ==> (#[trigger] out@[a])@ == simple_record_of(extended@[a]@),
        decreases extended@.len() - j,
    {
        let e = &extended[j];
        out.push(ConversationRecord {
            id: e.id,
            fingerprint: copy_string(&e.fingerprint),
            last_message_timestamp: e.last_message_timestamp,
        });
        j = j + 1;
    }
    proof {
        let ext = extended@.map_values(|c: ExtendedConversationRecord| c@);
        assert(out@.map_values(|c: ConversationRecord| c@) =~= ext.map_values(
            |e: ExtendedConversationView| simple_record_of(e),
        ));
    }
    Ok(out)
}

/// Replaces a conversation row by one with the same id and contact.
fn set_conversation(db: &mut Database, ci: usize, row: ConversationRow)
    requires
        old(db)@.wf(),
        ci < old(db)@.conversations.len(),
        row@.id == old(db)@.conversations[ci as int].id,
        row@.fingerprint == old(db)@.conversations[ci as int].fingerprint,
        0 <= row@.unread_count <= old(db)@.last_message_id,
    ensures
        final(db)@ == (DatabaseView {
            conversations: old(db)@.conversations.update(ci as int, row@),
            ..old(db)@
        }),
        final(db)@.wf(),
{
    let ghost pre = db@;
    let ghost rv = row@;
    db.conversations.set(ci, row);
    proof {
        assert(db@.conversations =~= pre.conversations.update(ci as int, rv));
        assert forall|a: int, b: int| 0 <= a < b < db@.conversations.len() implies #[trigger] db@.conversations[a].fingerprint
            != #[trigger] db@.conversations[b].fingerprint && db@.conversations[a].id < db@.conversations[b].id by {
            assert(pre.conversations[a].fingerprint != pre.conversations[b].fingerprint);
            assert(pre.conversations[a].id < pre.conversations[b].id);
        }
    }
}

/// The number of unread messages of a contact's conversation (0 when there is none),
/// reported as a `u32`.
pub fn get_unread_count(db: &Database, fingerprint: &str) -> (res: Result<u32, LotlError>)
    requires
        db@.wf(),
    ensures
        if !db@.has_history_tables {
            res matches Err(e) && database::is_db_error(e, DbFailure::NoSuchTable("conversations"@))
        } else {
            res == Ok::<u32, LotlError>(unread_of(db@, fingerprint@) as u32)
        },
{
    if !db.has_history_tables {
        return Err(database::no_such_table("conversations"));
    }
    let key = fingerprint.to_owned();
    match db.find_conversation(&key) {
        Some(ci) => {
            proof {
                database::lemma_conversation_index(db@, ci as int);
            }
            Ok(db.conversations[ci].unread_count as u32)
        },
        None => Ok(0),
    }
}

/// Marks a contact's conversation read: its unread count becomes 0 (no conversation:
/// nothing changes).
pub fn mark_conversation_read(db: &mut Database, fingerprint: &str) -> (res: Result<(), LotlError>)
    requires
        old(db)@.wf(),
    ensures
        final(db)@.wf(),
        if !old(db)@.has_history_tables {
            res matches Err(e) && database::is_db_error(e, DbFailure::NoSuchTable("conversations"@))
                && final(db)@ == old(db)@
        } else {
            &&& res is Ok
            &&& final(db)@ == after_mark_read(old(db)@, fingerprint@)
        },
{
    if !db.has_history_tables {
        return Err(database::no_such_table("conversations"));
    }
    let key = fingerprint.to_owned();
    match db.find_conversation(&key) {
        Some(ci) => {
            proof {
                database::lemma_conversation_index(db@, ci as int);
            }
            let c = &db.conversations[ci];
            let row = ConversationRow {
                id: c.id,
                fingerprint: copy_string(&c.fingerprint),
                last_message_timestamp: c.last_message_timestamp,
                unread_count: 0,
                archived: c.archived,
            };
            set_conversation(db, ci, row);
        },
        None => {},
    }
    Ok(())
}

/// Counts the received messages of a conversation sent after `after`.
fn count_unread_after(db: &Database, conversation_id: i64, after: i64) -> (n: i64)
    requires
        db@.wf(),
    ensures
        n == unread_after(db@.messages, conversation_id, after),
        n <= db@.messages.len(),
{
    let mut n: i64 = 0;
    let mut i: usize = 0;
    while i < db.messages.len()
        invariant
            i <= db@.messages.len(),
            db@.messages.len() <= db@.last_message_id,
            n == unread_after(db@.messages.take(i as int), conversation_id, after),
            n <= i,
        decreases db@.messages.len() - i,
    {
        proof {
            assert(db@.messages.take(i + 1).drop_last() =~= db@.messages.take(i as int));
            assert(db@.messages.take(i + 1).last() == db@.messages[i as int]);
        }
        let m = &db.messages[i];
        if m.conversation_id == conversation_id && m.direction == 0 && m.timestamp > after {
            n = n + 1;
        }
        i = i + 1;
    }
    assert(db@.messages.take(db@.messages.len() as int) =~= db@.messages);
    n
}

/// Marks a contact's conversation read up to a time: its unread count becomes the
/// number of received messages sent after `up_to_timestamp`. A contact without a
/// conversation is an error.
pub fn mark_conversation_read_up_to(db: &mut Database, fingerprint: &str, up_to_timestamp: i64) -> (res:
    Result<(), LotlError>)
    requires
        old(db)@.wf(),
    ensures
        final(db)@.wf(),
        if !old(db)@.has_history_tables {
            res matches Err(e) && database::is_db_error(e, DbFailure::NoSuchTable("conversations"@))
                && final(db)@ == old(db)@
        } else {
            match old(db)@.conversation_index(fingerprint@) {
                Some(ci) => {
                    &&& res is Ok
                    &&& final(db)@ == after_mark_read_up_to(old(db)@, fingerprint@, up_to_timestamp)
                },
                None => res matches Err(e) && database::is_db_error(e, DbFailure::NoRows)
                    && final(db)@ == old(db)@,
            }
        },
{
    if !db.has_history_tables {
        return Err(database::no_such_table("conversations"));
    }
    let key = fingerprint.to_owned();
    match db.find_conversation(&key) {
        Some(ci) => {
            proof {
                database::lemma_conversation_index(db@, ci as int);
            }
            let cid = db.conversations[ci].id;
            let n = count_unread_after(db, cid, up_to_timestamp);
            let c = &db.conversations[ci];
            let row = ConversationRow {
                id: c.id,
                fingerprint: copy_string(&c.fingerprint),
                last_message_timestamp: c.last_message_timestamp,
                unread_count: n,
                archived: c.archived,
            };
            set_conversation(db, ci, row);
            Ok(())
        },
        None => Err(database::no_rows()),
    }
}

/// Archives (or unarchives) a contact's conversation (no conversation: nothing changes).
pub fn archive_conversation(db: &mut Database, fingerprint: &str, archived: bool) -> (res: Result<(), LotlError>)
    requires
        old(db)@.wf(),
    ensures
        final(db)@.wf(),
        if !old(db)@.has_history_tables {
            res matches Err(e) && database::is_db_error(e, DbFailure::NoSuchTable("conversations"@))
                && final(db)@ == old(db)@
        } else {
            &&& res is Ok
            &&& final(db)@ == after_archive(old(db)@, fingerprint@, archived)
        },
{
    if !db.has_history_tables {
        return Err(database::no_such_table("conversations"));
    }
    let key = fingerprint.to_owned();
    match db.find_conversation(&key) {
        Some(ci) => {
            proof {
                database::lemma_conversation_index(db@, ci as int);
            }
            let c = &db.conversations[ci];
            assert(db@.conversations[ci as int].unread_count == c.unread_count);
            let row = ConversationRow {
                id: c.id,
                fingerprint: copy_string(&c.fingerprint),
                last_message_timestamp: c.last_message_timestamp,
                unread_count: c.unread_count,
                archived,
            };
            set_conversation(db, ci, row);
        },
        None => {},
    }
    Ok(())
}

/// Deletes a message (no message with this id: nothing changes).
pub fn delete_message(db: &mut Database, message_id: i64) -> (res: Result<(), LotlError>)
    requires
        old(db)@.wf(),
    ensures
        final(db)@.wf(),
        if !old(db)@.has_history_tables {
            res matches Err(e) && database::is_db_error(e, DbFailure::NoSuchTable("messages"@))
                && final(db)@ == old(db)@
        } else {
            &&& res is Ok
            &&& final(db)@ == after_delete_message(old(db)@, message_id)
        },
{
    if !db.has_history_tables {
        return Err(database::no_such_table("messages"));
    }
    let ghost pre = db@;
    match db.find_message(message_id) {
        Some(i) => {
            proof {
                database::lemma_message_index(pre, i as int);
            }
            let _ = db.messages.remove(i);
            proof {
                assert(db@.messages =~= pre.messages.remove(i as int));
                assert(db@ == DatabaseView { messages: db@.messages, ..pre });
                assert forall|a: int, b: int| 0 <= a < b < db@.messages.len() implies #[trigger] db@.messages[a].id
                    < #[trigger] db@.messages[b].id by {
                    let a0 = if a < i { a } else { a + 1 };
                    let b0 = if b < i { b } else { b + 1 };
                    assert(db@.messages[a] == pre.messages[a0]);
                    assert(db@.messages[b] == pre.messages[b0]);
                    assert(pre.messages[a0].id < pre.messages[b0].id);
                }
                assert forall|a: int| 0 <= a < db@.messages.len() implies 1 <= #[trigger] db@.messages[a].id
                    <= db@.last_message_id by {
                    let a0 = if a < i { a } else { a + 1 };
                    assert(db@.messages[a] == pre.messages[a0]);
                }
            }
        },
        None => {},
    }
    Ok(())
}

/// Deletes a contact's conversation and all its messages (no conversation, or no
/// history tables: nothing changes).
pub fn delete_conversation(db: &mut Database, fingerprint: &str) -> (res: Result<(), LotlError>)
    requires
        old(db)@.wf(),
    ensures
        final(db)@.wf(),
        res is Ok,
        final(db)@ == if !old(db)@.has_history_tables {
            old(db)@
        } else {
            after_delete_conversation(old(db)@, fingerprint@)
        },
{
    if !db.has_history_tables {
        return Ok(());
    }
    let key = fingerprint.to_owned();
    let ghost pre = db@;
    let ci = match db.find_conversation(&key) {
        Some(ci) => ci,
        None => {
            return Ok(());
        },
    };
    proof {
        database::lemma_conversation_index(pre, ci as int);
    }
    let cid = db.conversations[ci].id;
    let mut kept: Vec<MessageRow> = Vec::new();
    let ghost mut from: Seq<int> = Seq::empty();
    let mut i: usize = 0;
    while i < db.messages.len()
        invariant
            db@ == pre,
            pre.wf(),
            i <= pre.messages.len(),
            kept@.map_values(|m: MessageRow| m@) == other_conversations_messages(pre.messages.take(i as int), cid),
            from.len() == kept@.len(),
            forall|a: int| 0 <= a < from.len() ==> 0 <= #[trigger] from[a] < i && kept@[a]@ == pre.messages[from[a]],
            forall|a: int, b: int| 0 <= a < b < from.len() ==> #[trigger] from[a] < #[trigger] from[b],
        decreases pre.messages.len() - i,
    {
        let ghost before = kept@.map_values(|m: MessageRow| m@);
        proof {
            assert(pre.messages.take(i + 1).drop_last() =~= pre.messages.take(i as int));
            assert(pre.messages.take(i + 1).last() == pre.messages[i as int]);
        }
        if db.messages[i].conversation_id != cid {
            let row = copy_message_row(&db.messages[i]);
            kept.push(row);
            proof {
                from = from.push(i as int);
                assert(kept@.map_values(|m: MessageRow| m@) =~= before.push(pre.messages[i as int]));
            }
        }
        i = i + 1;
    }
    assert(pre.messages.take(pre.messages.len() as int) =~= pre.messages);
    db.messages = kept;
    let _ = db.conversations.remove(ci);
    proof {
        assert(db@.conversations =~= pre.conversations.remove(ci as int));
        assert(db@ == DatabaseView { messages: db@.messages, conversations: db@.conversations, ..pre });
        assert forall|a: int, b: int| 0 <= a < b < db@.messages.len() implies #[trigger] db@.messages[a].id
            < #[trigger] db@.messages[b].id by {
            assert(db@.messages[a] == pre.messages[from[a]]);
            assert(db@.messages[b] == pre.messages[from[b]]);
            assert(pre.messages[from[a]].id < pre.messages[from[b]].id);
        }
        assert forall|a: int| 0 <= a < db@.messages.len() implies 1 <= #[trigger] db@.messages[a].id
            <= db@.last_message_id by {
            assert(db@.messages[a] == pre.messages[from[a]]);
        }
        lemma_increasing_positions_bound(from, pre.messages.len() as int);
        assert forall|a: int, b: int| 0 <= a < b < db@.conversations.len() implies #[trigger] db@.conversations[a].fingerprint
            != #[trigger] db@.conversations[b].fingerprint && db@.conversations[a].id < db@.conversations[b].id by {
            let a0 = if a < ci { a } else { a + 1 };
            let b0 = if b < ci { b } else { b + 1 };
            assert(db@.conversations[a] == pre.conversations[a0]);
            assert(db@.conversations[b] == pre.conversations[b0]);
            assert(pre.conversations[a0].fingerprint != pre.conversations[b0].fingerprint);
            assert(pre.conversations[a0].id < pre.conversations[b0].id);
        }
        assert forall|a: int| 0 <= a < db@.conversations.len() implies 1 <= #[trigger] db@.conversations[a].id
            <= db@.last_conversation_id && 0 <= db@.conversations[a].unread_count <= db@.last_message_id by {
            let a0 = if a < ci { a } else { a + 1 };
            assert(db@.conversations[a] == pre.conversations[a0]);
        }
    }
    Ok(())
}

/// Strictly increasing positions below `n` are at most `n` many.
proof fn lemma_increasing_positions_bound(from: Seq<int>, n: int)
    requires
        0 <= n,
        forall|a: int| 0 <= a < from.len() ==> 0 <= #[trigger] from[a] < n,
        forall|a: int, b: int| 0 <= a < b < from.len() ==> #[trigger] from[a] < #[trigger] from[b],
    ensures
        from.len() <= n,
    decreases from.len(),
{
    if from.len() > 0 {
        let rest = from.drop_last();
        assert forall|a: int| 0 <= a < rest.len() implies 0 <= #[trigger] rest[a] < from.last() by {
            assert(rest[a] == from[a]);
        }
        assert forall|a: int, b: int| 0 <= a < b < rest.len() implies #[trigger] rest[a] < #[trigger] rest[b] by {
            assert(rest[a] == from[a] && rest[b] == from[b]);
        }
        lemma_increasing_positions_bound(rest, from.last());
        assert(from.last() == from[from.len() - 1]);
        assert(from[from.len() - 1] < n);
        assert(rest.len() + 1 == from.len());
        assert(rest.len() <= from.last());
    }
}

} // verus!
