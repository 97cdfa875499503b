//! What the message history operations promise together: a stored message is read
//! back as it was stored, received messages count as unread until the conversation
//! is read, and what is deleted or archived is gone from the reads that skip it.

use vstd::prelude::*;
use crate::database::{self, ConversationRowView, DatabaseView, MessageRowView};
use crate::message_history::{
    after_archive, after_delete_conversation, after_delete_message, after_mark_read,
    after_mark_read_up_to, after_status_update, conversation_messages, found_message, is_message_page,
    message_times, page, stored_message_of, unread_after, lemma_delivery_status_code_roundtrip,
    lemma_message_type_code_roundtrip, listed_conversations, open_conversation,
    other_conversations_messages, store_message_effect, unread_of, DeliveryStatus, StoredMessageView,
    MessageType,
};
use crate::types::MessageDirection;

verus! {

/// Opening a conversation keeps the schema's constraints and yields the contact's
/// conversation; an existing one is left as it is, a new one has nothing unread.
proof fn lemma_open_conversation(pre: DatabaseView, fingerprint: Seq<char>)
    requires
        pre.wf(),
        open_conversation(pre, fingerprint) is Ok,
    ensures
        ({
            let (mid, ci) = open_conversation(pre, fingerprint)->Ok_0;
            &&& mid.wf()
            &&& 0 <= ci < mid.conversations.len()
            &&& mid.conversations[ci].fingerprint == fingerprint
            &&& mid.conversation_index(fingerprint) == Some(ci)
            &&& mid.messages == pre.messages
            &&& mid.last_message_id == pre.last_message_id
            &&& unread_of(pre, fingerprint) == mid.conversations[ci].unread_count
        }),
{
    match pre.conversation_index(fingerprint) {
        Some(i) => {
            database::lemma_conversation_index(pre, i);
        },
        None => {
            let (mid, ci) = open_conversation(pre, fingerprint)->Ok_0;
            let n = pre.conversations.len() as int;
            assert(ci == n);
            assert forall|a: int, b: int| 0 <= a < b < mid.conversations.len() implies #[trigger] mid.conversations[a].fingerprint
                != #[trigger] mid.conversations[b].fingerprint && mid.conversations[a].id < mid.conversations[b].id by {
                assert(mid.conversations[a] == pre.conversations[a]);
                if b < n {
                    assert(mid.conversations[b] == pre.conversations[b]);
                } else {
                    if pre.conversations[a].fingerprint == fingerprint {
                        assert(0 <= a < pre.conversations.len() && pre.conversations[a].fingerprint == fingerprint);
                    }
                }
            }
            assert forall|a: int| 0 <= a < mid.conversations.len() implies 1 <= #[trigger] mid.conversations[a].id
                <= mid.last_conversation_id && 0 <= mid.conversations[a].unread_count <= mid.last_message_id by {
                if a < n {
                    assert(mid.conversations[a] == pre.conversations[a]);
                }
            }
            assert(mid.wf());
            database::lemma_conversation_index(mid, ci);
        },
    }
}

/// A message that was stored is found again by its id: with the contact, time,
/// direction and content it was stored with, as a text message pending delivery.
/// Ids are handed out in increasing order.
pub proof fn lemma_stored_message_is_found(
    pre: DatabaseView,
    fingerprint: Seq<char>,
    timestamp: i64,
    content: Seq<u8>,
    incoming: bool,
    was_prekey_message: bool,
    session_established: bool,
)
    requires
        pre.wf(),
        store_message_effect(
            pre,
            fingerprint,
            timestamp,
            content,
            incoming,
            was_prekey_message,
            session_established,
        ).1 is Ok,
    ensures
        ({
            let (post, r) = store_message_effect(
                pre,
                fingerprint,
                timestamp,
                content,
                incoming,
                was_prekey_message,
                session_established,
            );
            let id = r->Ok_0;
            &&& id == pre.last_message_id + 1
            &&& found_message(post, id) matches Some(m) && {
                &&& m.id == id
                &&& m.fingerprint == fingerprint
                &&& m.direction == (if incoming {
                    MessageDirection::Received
                } else {
                    MessageDirection::Sent
                })
                &&& m.timestamp == timestamp
                &&& m.message_type == MessageType::Text
                &&& m.plaintext == content
                &&& m.delivery_status == DeliveryStatus::Pending
                &&& m.was_prekey_message == was_prekey_message
                &&& m.session_established == session_established
            }
        }),
{
    lemma_open_conversation(pre, fingerprint);
    let (mid, ci) = open_conversation(pre, fingerprint)->Ok_0;
    let (post, r) = store_message_effect(
        pre,
        fingerprint,
        timestamp,
        content,
        incoming,
        was_prekey_message,
        session_established,
    );
    let id = r->Ok_0;
    let n = mid.messages.len() as int;
    assert(post.messages[n].id == id);
    assert(0 <= n < post.messages.len() && post.messages[n].id == id);
    let k = choose|k: int| 0 <= k < post.messages.len() && post.messages[k].id == id;
    if k < n {
        assert(post.messages[k] == mid.messages[k]);
        assert(mid.messages[k].id <= mid.last_message_id);
    }
    assert(post.message_index(id) == Some(n));
    let cid = mid.conversations[ci].id;
    assert(post.messages[n].conversation_id == cid);
    assert(post.conversations[ci].id == cid);
    assert(0 <= ci < post.conversations.len() && post.conversations[ci].id == cid);
    let j = choose|j: int| 0 <= j < post.conversations.len() && post.conversations[j].id == cid;
    if j < ci {
        assert(post.conversations[j] == mid.conversations[j]);
        assert(mid.conversations[j].id < mid.conversations[ci].id);
    } else if j > ci {
        assert(post.conversations[j] == mid.conversations[j]);
        assert(mid.conversations[ci].id < mid.conversations[j].id);
    }
    assert(post.conversation_index_by_id(cid) == Some(ci));
    lemma_message_type_code_roundtrip(MessageType::Text);
    lemma_delivery_status_code_roundtrip(DeliveryStatus::Pending);
}

/// Storing a received message raises the contact's unread count by one; storing a
/// sent message leaves it as it was.
pub proof fn lemma_store_counts_unread(
    pre: DatabaseView,
    fingerprint: Seq<char>,
    timestamp: i64,
    content: Seq<u8>,
    incoming: bool,
    was_prekey_message: bool,
    session_established: bool,
)
    requires
        pre.wf(),
        store_message_effect(
            pre,
            fingerprint,
            timestamp,
            content,
            incoming,
            was_prekey_message,
            session_established,
        ).1 is Ok,
    ensures
        ({
            let post = store_message_effect(
                pre,
                fingerprint,
                timestamp,
                content,
                incoming,
                was_prekey_message,
                session_established,
            ).0;
            unread_of(post, fingerprint) == unread_of(pre, fingerprint) + if incoming {
                1int
            } else {
                0int
            }
        }),
{
    lemma_open_conversation(pre, fingerprint);
    let (mid, ci) = open_conversation(pre, fingerprint)->Ok_0;
    let post = store_message_effect(
        pre,
        fingerprint,
        timestamp,
        content,
        incoming,
        was_prekey_message,
        session_established,
    ).0;
    assert(post.conversations[ci].fingerprint == fingerprint);
    assert(0 <= ci < post.conversations.len() && post.conversations[ci].fingerprint == fingerprint);
    let j = choose|j: int| 0 <= j < post.conversations.len() && post.conversations[j].fingerprint == fingerprint;
    if j != ci {
        assert(post.conversations[j] == mid.conversations[j]);
        if j < ci {
            assert(mid.conversations[j].fingerprint != mid.conversations[ci].fingerprint);
        } else {
            assert(mid.conversations[ci].fingerprint != mid.conversations[j].fingerprint);
        }
    }
    assert(post.conversation_index(fingerprint) == Some(ci));
}

/// After a conversation is marked read, it has nothing unread.
pub proof fn lemma_read_conversation_has_nothing_unread(pre: DatabaseView, fingerprint: Seq<char>)
    requires
        pre.wf(),
    ensures
        unread_of(after_mark_read(pre, fingerprint), fingerprint) == 0,
{
    let post = after_mark_read(pre, fingerprint);
    match pre.conversation_index(fingerprint) {
        Some(ci) => {
            database::lemma_conversation_index(pre, ci);
            assert(0 <= ci < post.conversations.len() && post.conversations[ci].fingerprint == fingerprint);
            let j = choose|j: int|
                0 <= j < post.conversations.len() && post.conversations[j].fingerprint == fingerprint;
            if j != ci {
                assert(post.conversations[j] == pre.conversations[j]);
                if j < ci {
                    assert(pre.conversations[j].fingerprint != pre.conversations[ci].fingerprint);
                } else {
                    assert(pre.conversations[ci].fingerprint != pre.conversations[j].fingerprint);
                }
            }
        },
        None => {},
    }
}

/// A message's new delivery status is what it is read back with; nothing else about
/// it changes.
pub proof fn lemma_status_update_is_read_back(pre: DatabaseView, message_id: i64, status: DeliveryStatus)
    requires
        pre.wf(),
        found_message(pre, message_id) is Some,
    ensures
        found_message(after_status_update(pre, message_id, status), message_id) == Some(
            StoredMessageView {
                delivery_status: status,
                ..found_message(pre, message_id)->0
            },
        ),
{
    let post = after_status_update(pre, message_id, status);
    let i = pre.message_index(message_id)->0;
    database::lemma_message_index(pre, i);
    assert(0 <= i < post.messages.len() && post.messages[i].id == message_id);
    let k = choose|k: int| 0 <= k < post.messages.len() && post.messages[k].id == message_id;
    if k < i {
        assert(pre.messages[k].id < pre.messages[i].id);
    } else if k > i {
        assert(pre.messages[i].id < pre.messages[k].id);
    }
    assert(post.message_index(message_id) == Some(i));
    assert(post.conversations == pre.conversations);
    lemma_delivery_status_code_roundtrip(status);
}

/// A deleted message is not found any more.
pub proof fn lemma_deleted_message_is_gone(pre: DatabaseView, message_id: i64)
    requires
        pre.wf(),
    ensures
        found_message(after_delete_message(pre, message_id), message_id) is None,
        after_delete_message(pre, message_id).message_index(message_id) is None,
{
    let post = after_delete_message(pre, message_id);
    match pre.message_index(message_id) {
        Some(i) => {
            database::lemma_message_index(pre, i);
            if exists|k: int| 0 <= k < post.messages.len() && post.messages[k].id == message_id {
                let k = choose|k: int| 0 <= k < post.messages.len() && post.messages[k].id == message_id;
                let k0 = if k < i {
                    k
                } else {
                    k + 1
                };
                assert(post.messages[k] == pre.messages[k0]);
                if k0 < i {
                    assert(pre.messages[k0].id < pre.messages[i].id);
                } else {
                    assert(pre.messages[i].id < pre.messages[k0].id);
                }
            }
        },
        None => {},
    }
}

/// The messages kept when a conversation's messages are dropped belong to other
/// conversations, and every message of another conversation is kept.
proof fn lemma_other_conversations_messages(msgs: Seq<MessageRowView>, conversation_id: i64)
    ensures
        forall|k: int|
            0 <= k < other_conversations_messages(msgs, conversation_id).len()
                ==> (#[trigger] other_conversations_messages(msgs, conversation_id)[k]).conversation_id
                != conversation_id,
    decreases msgs.len(),
{
    if msgs.len() > 0 {
        lemma_other_conversations_messages(msgs.drop_last(), conversation_id);
        let rest = other_conversations_messages(msgs.drop_last(), conversation_id);
        let kept = other_conversations_messages(msgs, conversation_id);
        assert forall|k: int| 0 <= k < kept.len() implies (#[trigger] kept[k]).conversation_id != conversation_id by {
            if k < rest.len() {
                assert(kept[k] == rest[k]);
            }
        }
    }
}

/// A deleted conversation is gone: the contact has no conversation, nothing unread,
/// and no message of the conversation remains.
pub proof fn lemma_deleted_conversation_is_gone(pre: DatabaseView, fingerprint: Seq<char>)
    requires
        pre.wf(),
    ensures
        ({
            let post = after_delete_conversation(pre, fingerprint);
            &&& post.conversation_index(fingerprint) is None
            &&& unread_of(post, fingerprint) == 0
            &&& pre.conversation_index(fingerprint) matches Some(ci) ==> forall|k: int|
                0 <= k < post.messages.len() ==> (#[trigger] post.messages[k]).conversation_id
                    != pre.conversations[ci].id
        }),
{
    let post = after_delete_conversation(pre, fingerprint);
    match pre.conversation_index(fingerprint) {
        Some(ci) => {
            database::lemma_conversation_index(pre, ci);
            lemma_other_conversations_messages(pre.messages, pre.conversations[ci].id);
            if exists|k: int| 0 <= k < post.conversations.len() && post.conversations[k].fingerprint == fingerprint {
                let k = choose|k: int|
                    0 <= k < post.conversations.len() && post.conversations[k].fingerprint == fingerprint;
                let k0 = if k < ci {
                    k
                } else {
                    k + 1
                };
                assert(post.conversations[k] == pre.conversations[k0]);
                if k0 < ci {
                    assert(pre.conversations[k0].fingerprint != pre.conversations[ci].fingerprint);
                } else {
                    assert(pre.conversations[ci].fingerprint != pre.conversations[k0].fingerprint);
                }
            }
        },
        None => {},
    }
}

/// The conversations that a listing shows are rows of the table, archived ones only
/// when they are asked for; and every row that qualifies is shown.
proof fn lemma_listed_conversations(convs: Seq<ConversationRowView>, include_archived: bool)
    ensures
        forall|k: int|
            0 <= k < listed_conversations(convs, include_archived).len() ==> convs.contains(
                #[trigger] listed_conversations(convs, include_archived)[k],
            ) && (include_archived || !listed_conversations(convs, include_archived)[k].archived),
        forall|j: int|
            0 <= j < convs.len() && (include_archived || !convs[j].archived) ==> listed_conversations(
                convs,
                include_archived,
            ).contains(#[trigger] convs[j]),
    decreases convs.len(),
{
    if convs.len() > 0 {
        let init = convs.drop_last();
        lemma_listed_conversations(init, include_archived);
        let rest = listed_conversations(init, include_archived);
        let listed = listed_conversations(convs, include_archived);
        let last = convs.len() - 1;
        let pushed = include_archived || !convs[last].archived;
        assert(pushed ==> listed == rest.push(convs[last]));
        assert(!pushed ==> listed == rest);
        assert forall|k: int| 0 <= k < listed.len() implies convs.contains(#[trigger] listed[k]) && (
        include_archived || !listed[k].archived) by {
            if k < rest.len() {
                assert(listed[k] == rest[k]);
                assert(init.contains(rest[k]));
                let j = choose|j: int| 0 <= j < init.len() && init[j] == rest[k];
                assert(convs[j] == init[j]);
            } else {
                assert(pushed && k == rest.len());
                assert(convs[last] == listed[k]);
            }
        }
        assert forall|j: int| 0 <= j < convs.len() && (include_archived || !convs[j].archived) implies listed.contains(
            #[trigger] convs[j],
        ) by {
            if j < init.len() {
                assert(convs[j] == init[j]);
                assert(rest.contains(init[j]));
                let k = choose|k: int| 0 <= k < rest.len() && rest[k] == init[j];
                assert(listed[k] == rest[k]);
            } else {
                assert(listed[rest.len() as int] == convs[j]);
            }
        }
    }
}

/// An archived conversation is left out of the listing that skips archived ones; an
/// unarchived one is in it.
pub proof fn lemma_archived_conversation_is_not_listed(pre: DatabaseView, fingerprint: Seq<char>)
    requires
        pre.wf(),
    ensures
        forall|k: int|
            0 <= k < listed_conversations(after_archive(pre, fingerprint, true).conversations, false).len()
                ==> (#[trigger] listed_conversations(
                after_archive(pre, fingerprint, true).conversations,
                false,
            )[k]).fingerprint != fingerprint,
        pre.conversation_index(fingerprint) is Some ==> exists|k: int|
            0 <= k < listed_conversations(after_archive(pre, fingerprint, false).conversations, false).len()
                && (#[trigger] listed_conversations(
                after_archive(pre, fingerprint, false).conversations,
                false,
            )[k]).fingerprint == fingerprint,
{
    let archived = after_archive(pre, fingerprint, true).conversations;
    let shown = listed_conversations(archived, false);
    lemma_listed_conversations(archived, false);
    match pre.conversation_index(fingerprint) {
        Some(ci) => {
            database::lemma_conversation_index(pre, ci);
            assert forall|k: int| 0 <= k < shown.len() implies (#[trigger] shown[k]).fingerprint != fingerprint by {
                assert(archived.contains(shown[k]));
                let j = choose|j: int| 0 <= j < archived.len() && archived[j] == shown[k];
                if j != ci {
                    assert(archived[j] == pre.conversations[j]);
                    if j < ci {
                        assert(pre.conversations[j].fingerprint != pre.conversations[ci].fingerprint);
                    } else {
                        assert(pre.conversations[ci].fingerprint != pre.conversations[j].fingerprint);
                    }
                }
            }
            let unarchived = after_archive(pre, fingerprint, false).conversations;
            lemma_listed_conversations(unarchived, false);
            assert(0 <= ci < unarchived.len() && !unarchived[ci].archived);
            assert(listed_conversations(unarchived, false).contains(unarchived[ci]));
            let k = choose|k: int|
                0 <= k < listed_conversations(unarchived, false).len() && listed_conversations(unarchived, false)[k]
                    == unarchived[ci];
            assert(listed_conversations(unarchived, false)[k].fingerprint == fingerprint);
        },
        None => {
            assert forall|k: int| 0 <= k < shown.len() implies (#[trigger] shown[k]).fingerprint != fingerprint by {
                assert(archived.contains(shown[k]));
                let j = choose|j: int| 0 <= j < archived.len() && archived[j] == shown[k];
                assert(archived[j] == pre.conversations[j]);
                if pre.conversations[j].fingerprint == fingerprint {
                    assert(0 <= j < pre.conversations.len() && pre.conversations[j].fingerprint == fingerprint);
                }
            }
        },
    }
}

/// The messages of a conversation are the stored messages that carry its id, in stored
/// order.
proof fn lemma_conversation_messages_are_filtered(msgs: Seq<MessageRowView>, conversation_id: i64)
    ensures
        conversation_messages(msgs, conversation_id) == msgs.filter(
            |m: MessageRowView| m.conversation_id == conversation_id,
        ),
    decreases msgs.len(),
{
    reveal(Seq::filter);
    if msgs.len() > 0 {
        lemma_conversation_messages_are_filtered(msgs.drop_last(), conversation_id);
    }
}

/// The messages kept when a conversation is dropped are the stored messages that carry
/// another id, in stored order.
proof fn lemma_other_messages_are_filtered(msgs: Seq<MessageRowView>, conversation_id: i64)
    ensures
        other_conversations_messages(msgs, conversation_id) == msgs.filter(
            |m: MessageRowView| m.conversation_id != conversation_id,
        ),
    decreases msgs.len(),
{
    reveal(Seq::filter);
    if msgs.len() > 0 {
        lemma_other_messages_are_filtered(msgs.drop_last(), conversation_id);
    }
}

/// The unread count after a time is the number of stored messages of the conversation
/// that were received after that time.
proof fn lemma_unread_after_counts_filtered(msgs: Seq<MessageRowView>, conversation_id: i64, after: i64)
    ensures
        unread_after(msgs, conversation_id, after) == msgs.filter(
            |m: MessageRowView| m.conversation_id == conversation_id && m.direction == 0 && m.timestamp > after,
        ).len(),
    decreases msgs.len(),
{
    reveal(Seq::filter);
    if msgs.len() > 0 {
        lemma_unread_after_counts_filtered(msgs.drop_last(), conversation_id, after);
    }
}

/// A page of a contact's conversation holds only messages of that conversation, each a
/// stored message read back with the contact's fingerprint; a page from the start that
/// is at least as long as the whole table holds every stored message of the
/// conversation.
pub proof fn lemma_conversation_page_holds_its_messages(
    db: DatabaseView,
    fingerprint: Seq<char>,
    limit: u32,
    offset: u32,
    shown: Seq<StoredMessageView>,
)
    requires
        db.wf(),
        db.conversation_index(fingerprint) is Some,
        is_message_page(
            conversation_messages(db.messages, db.conversations[db.conversation_index(fingerprint)->0].id),
            fingerprint,
            limit,
            offset,
            shown,
        ),
    ensures
        forall|k: int|
            #![trigger shown[k]]
            0 <= k < shown.len() ==> shown[k].conversation_id
                == db.conversations[db.conversation_index(fingerprint)->0].id && shown[k].fingerprint
                == fingerprint && exists|i: int|
                0 <= i < db.messages.len() && shown[k] == stored_message_of(db.messages[i], fingerprint),
        offset == 0 && db.messages.len() <= limit ==> forall|i: int|
            #![trigger db.messages[i]]
            0 <= i < db.messages.len() && db.messages[i].conversation_id
                == db.conversations[db.conversation_index(fingerprint)->0].id ==> shown.contains(
                stored_message_of(db.messages[i], fingerprint),
            ),
{
    let cid = db.conversations[db.conversation_index(fingerprint)->0].id;
    let pred = |m: MessageRowView| m.conversation_id == cid;
    let cm = conversation_messages(db.messages, cid);
    lemma_conversation_messages_are_filtered(db.messages, cid);
    assert(cm == db.messages.filter(pred));
    let p = choose|p: Seq<int>|
        crate::recency::is_recency_order(message_times(cm), p) && shown == page(
            p.map_values(|k: int| stored_message_of(cm[k], fingerprint)),
            offset,
            limit,
        );
    let full = p.map_values(|k: int| stored_message_of(cm[k], fingerprint));
    let start = if offset as int <= full.len() { offset as int } else { full.len() as int };
    assert forall|k: int| #![trigger shown[k]] 0 <= k < shown.len() implies shown[k].conversation_id == cid
        && shown[k].fingerprint == fingerprint && exists|i: int|
        0 <= i < db.messages.len() && shown[k] == stored_message_of(db.messages[i], fingerprint) by {
        assert(shown[k] == full[start + k]);
        let j = p[start + k];
        assert(0 <= j < cm.len());
        db.messages.lemma_filter_pred(pred, j);
        assert(cm.contains(cm[j]));
        db.messages.lemma_filter_contains_rev(pred, cm[j]);
        let i = choose|i: int| 0 <= i < db.messages.len() && db.messages[i] == cm[j];
        assert(shown[k] == stored_message_of(db.messages[i], fingerprint));
    }
    if offset == 0 && db.messages.len() <= limit {
        db.messages.lemma_filter_len(pred);
        assert(shown =~= full);
        crate::recency::lemma_recency_order_covers(message_times(cm), p);
        assert forall|i: int|
            #![trigger db.messages[i]]
            0 <= i < db.messages.len() && db.messages[i].conversation_id == cid implies shown.contains(
            stored_message_of(db.messages[i], fingerprint),
        ) by {
            db.messages.lemma_filter_contains(pred, i);
            let j = choose|j: int| 0 <= j < cm.len() && cm[j] == db.messages[i];
            assert(p.contains(j));
            let t = choose|t: int| 0 <= t < p.len() && p[t] == j;
            assert(full[t] == stored_message_of(db.messages[i], fingerprint));
        }
    }
}

/// Storing a message, received or sent, makes its time the last message time of the
/// contact's conversation.
pub proof fn lemma_store_sets_last_message_time(
    pre: DatabaseView,
    fingerprint: Seq<char>,
    timestamp: i64,
    content: Seq<u8>,
    incoming: bool,
    was_prekey_message: bool,
    session_established: bool,
)
    requires
        pre.wf(),
        store_message_effect(
            pre,
            fingerprint,
            timestamp,
            content,
            incoming,
            was_prekey_message,
            session_established,
        ).1 is Ok,
    ensures
        ({
            let post = store_message_effect(
                pre,
                fingerprint,
                timestamp,
                content,
                incoming,
                was_prekey_message,
                session_established,
            ).0;
            post.conversation_index(fingerprint) matches Some(ci)
                && post.conversations[ci].fingerprint == fingerprint
                && post.conversations[ci].last_message_timestamp == timestamp
        }),
{
    lemma_open_conversation(pre, fingerprint);
    let (mid, ci) = open_conversation(pre, fingerprint)->Ok_0;
    let post = store_message_effect(
        pre,
        fingerprint,
        timestamp,
        content,
        incoming,
        was_prekey_message,
        session_established,
    ).0;
    assert(post.conversations[ci].fingerprint == fingerprint);
    assert(0 <= ci < post.conversations.len() && post.conversations[ci].fingerprint == fingerprint);
    let j = choose|j: int| 0 <= j < post.conversations.len() && post.conversations[j].fingerprint == fingerprint;
    if j != ci {
        assert(post.conversations[j] == mid.conversations[j]);
        if j < ci {
            assert(mid.conversations[j].fingerprint != mid.conversations[ci].fingerprint);
        } else {
            assert(mid.conversations[ci].fingerprint != mid.conversations[j].fingerprint);
        }
    }
    assert(post.conversation_index(fingerprint) == Some(ci));
}

/// Marking a conversation read up to a time leaves as unread exactly the messages of that
/// conversation received after the time; messages of other conversations and sent
/// messages do not count.
pub proof fn lemma_read_up_to_counts_later_received(pre: DatabaseView, fingerprint: Seq<char>, up_to_timestamp: i64)
    requires
        pre.wf(),
        pre.conversation_index(fingerprint) is Some,
    ensures
        unread_of(after_mark_read_up_to(pre, fingerprint, up_to_timestamp), fingerprint) == pre.messages.filter(
            |m: MessageRowView|
                m.conversation_id == pre.conversations[pre.conversation_index(fingerprint)->0].id
                    && m.direction == 0 && m.timestamp > up_to_timestamp,
        ).len(),
{
    let ci = pre.conversation_index(fingerprint)->0;
    let cid = pre.conversations[ci].id;
    let pred = |m: MessageRowView| m.conversation_id == cid && m.direction == 0 && m.timestamp > up_to_timestamp;
    let post = after_mark_read_up_to(pre, fingerprint, up_to_timestamp);
    database::lemma_conversation_index(pre, ci);
    lemma_unread_after_counts_filtered(pre.messages, cid, up_to_timestamp);
    pre.messages.lemma_filter_len(pred);
    assert(unread_after(pre.messages, cid, up_to_timestamp) <= pre.last_message_id);
    assert(0 <= ci < post.conversations.len() && post.conversations[ci].fingerprint == fingerprint);
    let j = choose|j: int| 0 <= j < post.conversations.len() && post.conversations[j].fingerprint == fingerprint;
    if j != ci {
        assert(post.conversations[j] == pre.conversations[j]);
        if j < ci {
            assert(pre.conversations[j].fingerprint != pre.conversations[ci].fingerprint);
        } else {
            assert(pre.conversations[ci].fingerprint != pre.conversations[j].fingerprint);
        }
    }
    assert(post.conversation_index(fingerprint) == Some(ci));
}

/// Deleting a conversation keeps every message of the other conversations, in stored
/// order, and each of them is still found by its id.
pub proof fn lemma_delete_conversation_keeps_other_messages(pre: DatabaseView, fingerprint: Seq<char>)
    requires
        pre.wf(),
        pre.conversation_index(fingerprint) is Some,
    ensures
        after_delete_conversation(pre, fingerprint).messages == pre.messages.filter(
            |m: MessageRowView| m.conversation_id != pre.conversations[pre.conversation_index(fingerprint)->0].id,
        ),
        forall|i: int|
            #![trigger pre.messages[i]]
            0 <= i < pre.messages.len() && pre.messages[i].conversation_id
                != pre.conversations[pre.conversation_index(fingerprint)->0].id ==> after_delete_conversation(
                pre,
                fingerprint,
            ).messages.contains(pre.messages[i]) && after_delete_conversation(pre, fingerprint).message_index(
                pre.messages[i].id,
            ) is Some,
{
    let ci = pre.conversation_index(fingerprint)->0;
    let cid = pre.conversations[ci].id;
    let pred = |m: MessageRowView| m.conversation_id != cid;
    let post = after_delete_conversation(pre, fingerprint);
    lemma_other_messages_are_filtered(pre.messages, cid);
    assert(post.messages == pre.messages.filter(pred));
    assert forall|i: int|
        #![trigger pre.messages[i]]
        0 <= i < pre.messages.len() && pre.messages[i].conversation_id != cid implies post.messages.contains(
        pre.messages[i],
    ) && post.message_index(pre.messages[i].id) is Some by {
        pre.messages.lemma_filter_contains(pred, i);
        let j = choose|j: int| 0 <= j < post.messages.len() && post.messages[j] == pre.messages[i];
        assert(0 <= j < post.messages.len() && post.messages[j].id == pre.messages[i].id);
    }
}

} // verus!
