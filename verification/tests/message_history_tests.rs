use lotl::contact_manager::{self, add_contact_at, generate_fingerprint, init_contacts_table};
use lotl::database::Database;
use lotl::error::LotlError;
use lotl::message_history::{
    archive_conversation, delete_conversation, delete_message, get_conversation_messages, get_conversations,
    get_message, get_unread_count, init_message_history_tables, list_conversations, mark_conversation_read,
    mark_conversation_read_up_to, store_incoming_message, store_outgoing_message, update_delivery_status,
    DeliveryStatus, MessageType,
};
use lotl::types::MessageDirection;

fn create_test_db() -> Database {
    let mut db = Database::new();
    contact_manager::init_contacts_table(&mut db).unwrap();
    init_message_history_tables(&mut db).unwrap();

    contact_manager::add_contact(&mut db, b"alice_key", Some("Alice"), "test_salt", "").unwrap();
    contact_manager::add_contact(&mut db, b"bob_key", Some("Bob"), "test_salt", "").unwrap();

    db
}

#[test]
fn test_init_message_history_tables() {
    let mut db = Database::new();
    init_message_history_tables(&mut db).unwrap();
    init_message_history_tables(&mut db).unwrap();
}

#[test]
fn test_store_and_get_incoming_message() {
    let mut db = create_test_db();
    let alice_fp = generate_fingerprint(b"alice_key", "test_salt", "");

    let msg_id = store_incoming_message(&mut db, &alice_fp, 1000, b"Hello", false, false).unwrap();

    let msg = get_message(&db, msg_id).unwrap();
    assert_eq!(msg.id, msg_id);
    assert_eq!(msg.fingerprint, alice_fp);
    assert_eq!(msg.direction, MessageDirection::Received);
    assert_eq!(msg.plaintext, b"Hello");
    assert_eq!(msg.timestamp, 1000);
}

#[test]
fn test_store_and_get_outgoing_message() {
    let mut db = create_test_db();
    let bob_fp = generate_fingerprint(b"bob_key", "test_salt", "");

    let msg_id = store_outgoing_message(&mut db, &bob_fp, 2000, b"Hi Bob").unwrap();

    let msg = get_message(&db, msg_id).unwrap();
    assert_eq!(msg.direction, MessageDirection::Sent);
    assert_eq!(msg.plaintext, b"Hi Bob");
    assert_eq!(msg.delivery_status, DeliveryStatus::Pending);
}

#[test]
fn test_update_delivery_status() {
    let mut db = create_test_db();
    let bob_fp = generate_fingerprint(b"bob_key", "test_salt", "");

    let msg_id = store_outgoing_message(&mut db, &bob_fp, 2000, b"Hi Bob").unwrap();

    update_delivery_status(&mut db, msg_id, DeliveryStatus::Delivered).unwrap();

    let msg = get_message(&db, msg_id).unwrap();
    assert_eq!(msg.delivery_status, DeliveryStatus::Delivered);
}

#[test]
fn test_get_conversation_messages() {
    let mut db = create_test_db();
    let alice_fp = generate_fingerprint(b"alice_key", "test_salt", "");

    store_incoming_message(&mut db, &alice_fp, 1000, b"Message 1", false, false).unwrap();
    store_outgoing_message(&mut db, &alice_fp, 2000, b"Message 2").unwrap();
    store_incoming_message(&mut db, &alice_fp, 3000, b"Message 3", false, false).unwrap();

    let messages = get_conversation_messages(&db, &alice_fp, 10, 0).unwrap();
    assert_eq!(messages.len(), 3);

    assert_eq!(messages[0].timestamp, 3000);
    assert_eq!(messages[1].timestamp, 2000);
    assert_eq!(messages[2].timestamp, 1000);
}

#[test]
fn test_get_conversation_messages_pagination() {
    let mut db = create_test_db();
    let alice_fp = generate_fingerprint(b"alice_key", "test_salt", "");

    for i in 0..5 {
        store_incoming_message(&mut db, &alice_fp, 1000 + i, b"Message", false, false).unwrap();
    }

    let page1 = get_conversation_messages(&db, &alice_fp, 2, 0).unwrap();
    assert_eq!(page1.len(), 2);
    assert_eq!(page1[0].timestamp, 1004);

    let page2 = get_conversation_messages(&db, &alice_fp, 2, 2).unwrap();
    assert_eq!(page2.len(), 2);
    assert_eq!(page2[0].timestamp, 1002);
}

#[test]
fn test_get_conversations() {
    let mut db = create_test_db();
    let alice_fp = generate_fingerprint(b"alice_key", "test_salt", "");
    let bob_fp = generate_fingerprint(b"bob_key", "test_salt", "");

    store_incoming_message(&mut db, &alice_fp, 1000, b"Hello", false, false).unwrap();
    store_incoming_message(&mut db, &bob_fp, 2000, b"Hi", false, false).unwrap();

    let conversations = get_conversations(&db, false).unwrap();
    assert_eq!(conversations.len(), 2);

    assert_eq!(conversations[0].fingerprint, bob_fp);
    assert_eq!(conversations[0].last_message_timestamp, 2000);
    assert_eq!(conversations[1].fingerprint, alice_fp);
}

#[test]
fn test_unread_count() {
    let mut db = create_test_db();
    let alice_fp = generate_fingerprint(b"alice_key", "test_salt", "");

    store_incoming_message(&mut db, &alice_fp, 1000, b"Message 1", false, false).unwrap();
    store_incoming_message(&mut db, &alice_fp, 2000, b"Message 2", false, false).unwrap();
    store_outgoing_message(&mut db, &alice_fp, 3000, b"Reply").unwrap();

    let count = get_unread_count(&db, &alice_fp).unwrap();
    assert_eq!(count, 2);
}

#[test]
fn test_mark_conversation_read() {
    let mut db = create_test_db();
    let alice_fp = generate_fingerprint(b"alice_key", "test_salt", "");

    store_incoming_message(&mut db, &alice_fp, 1000, b"Message", false, false).unwrap();

    let count_before = get_unread_count(&db, &alice_fp).unwrap();
    assert_eq!(count_before, 1);

    mark_conversation_read(&mut db, &alice_fp).unwrap();

    let count_after = get_unread_count(&db, &alice_fp).unwrap();
    assert_eq!(count_after, 0);
}

#[test]
fn test_mark_conversation_read_up_to() {
    let mut db = create_test_db();
    let alice_fp = generate_fingerprint(b"alice_key", "test_salt", "");

    store_incoming_message(&mut db, &alice_fp, 1000, b"Message 1", false, false).unwrap();
    store_incoming_message(&mut db, &alice_fp, 2000, b"Message 2", false, false).unwrap();
    store_incoming_message(&mut db, &alice_fp, 3000, b"Message 3", false, false).unwrap();

    mark_conversation_read_up_to(&mut db, &alice_fp, 2000).unwrap();

    let count = get_unread_count(&db, &alice_fp).unwrap();
    assert_eq!(count, 1);
}

#[test]
fn test_delete_message() {
    let mut db = create_test_db();
    let alice_fp = generate_fingerprint(b"alice_key", "test_salt", "");

    let msg_id = store_incoming_message(&mut db, &alice_fp, 1000, b"Message", false, false).unwrap();

    delete_message(&mut db, msg_id).unwrap();

    let result = get_message(&db, msg_id);
    assert!(result.is_err());
}

#[test]
fn test_delete_conversation() {
    let mut db = create_test_db();
    let alice_fp = generate_fingerprint(b"alice_key", "test_salt", "");

    store_incoming_message(&mut db, &alice_fp, 1000, b"Message 1", false, false).unwrap();
    store_incoming_message(&mut db, &alice_fp, 2000, b"Message 2", false, false).unwrap();

    delete_conversation(&mut db, &alice_fp).unwrap();

    let messages = get_conversation_messages(&db, &alice_fp, 10, 0).unwrap();
    assert_eq!(messages.len(), 0);

    let conversations = get_conversations(&db, false).unwrap();
    assert!(!conversations.iter().any(|c| c.fingerprint == alice_fp));
}

#[test]
fn test_archive_conversation() {
    let mut db = create_test_db();
    let alice_fp = generate_fingerprint(b"alice_key", "test_salt", "");

    store_incoming_message(&mut db, &alice_fp, 1000, b"Message", false, false).unwrap();

    archive_conversation(&mut db, &alice_fp, true).unwrap();

    let all_convs = get_conversations(&db, true).unwrap();
    assert_eq!(all_convs.len(), 1);
    assert!(all_convs[0].archived);

    let active_convs = get_conversations(&db, false).unwrap();
    assert_eq!(active_convs.len(), 0);
}

#[test]
fn test_get_message_nonexistent() {
    let db = create_test_db();
    let result = get_message(&db, 99999);
    assert!(result.is_err());
}

#[test]
fn test_list_conversations() {
    let mut db = create_test_db();
    let alice_fp = generate_fingerprint(b"alice_key", "test_salt", "");
    let bob_fp = generate_fingerprint(b"bob_key", "test_salt", "");

    store_incoming_message(&mut db, &alice_fp, 1000, b"Hello", false, false).unwrap();
    store_incoming_message(&mut db, &bob_fp, 2000, b"Hi", false, false).unwrap();

    let conversations = list_conversations(&db, false).unwrap();
    assert_eq!(conversations.len(), 2);
    assert_eq!(conversations[0].fingerprint, bob_fp);
    assert_eq!(conversations[0].last_message_timestamp, 2000);
}

#[test]
fn missing_message_error_names_the_id() {
    let db = create_test_db();
    match get_message(&db, 99999) {
        Err(LotlError::Storage(m)) => assert_eq!(m, "Message not found: 99999"),
        other => panic!("unexpected {:?}", other.map(|m| m.id)),
    }
    match get_message(&db, -7) {
        Err(LotlError::Storage(m)) => assert_eq!(m, "Message not found: -7"),
        other => panic!("unexpected {:?}", other.map(|m| m.id)),
    }
}

#[test]
fn stored_message_keeps_its_flags_and_type() {
    let mut db = create_test_db();
    let alice_fp = generate_fingerprint(b"alice_key", "test_salt", "");
    let first = store_incoming_message(&mut db, &alice_fp, 5, b"", true, true).unwrap();
    let second = store_outgoing_message(&mut db, &alice_fp, 6, b"x").unwrap();
    assert_eq!(second, first + 1);
    let m = get_message(&db, first).unwrap();
    assert!(m.was_prekey_message);
    assert!(m.session_established);
    assert_eq!(m.message_type, MessageType::Text);
    assert_eq!(m.delivery_status, DeliveryStatus::Pending);
    assert!(m.plaintext.is_empty());
    assert_eq!(m.conversation_id, get_message(&db, second).unwrap().conversation_id);
}

#[test]
fn storing_for_an_unknown_contact_is_a_foreign_key_error() {
    let mut db = create_test_db();
    match store_incoming_message(&mut db, "stranger", 1, b"hi", false, false) {
        Err(LotlError::Database(m)) => assert_eq!(m, "FOREIGN KEY constraint failed"),
        other => panic!("unexpected {:?}", other),
    }
    assert_eq!(get_conversations(&db, true).unwrap().len(), 0);
}

#[test]
fn history_operations_without_tables_fail() {
    let mut db = Database::new();
    init_contacts_table(&mut db).unwrap();
    let fp = add_contact_at(&mut db, b"k", None, "s", "", 1).unwrap();
    match store_incoming_message(&mut db, &fp, 1, b"x", false, false) {
        Err(LotlError::Database(m)) => assert_eq!(m, "no such table: conversations"),
        other => panic!("unexpected {:?}", other),
    }
    match get_message(&db, 1) {
        Err(LotlError::Database(m)) => assert_eq!(m, "no such table: messages"),
        _ => panic!("expected an error"),
    }
    assert!(matches!(get_unread_count(&db, &fp), Err(LotlError::Database(_))));
    assert!(matches!(update_delivery_status(&mut db, 1, DeliveryStatus::Sent), Err(LotlError::Database(_))));
    // Deleting a conversation without the tables does nothing and succeeds.
    assert!(delete_conversation(&mut db, &fp).is_ok());
}

#[test]
fn conversation_without_contact_table_is_refused() {
    let mut db = Database::new();
    init_message_history_tables(&mut db).unwrap();
    match store_outgoing_message(&mut db, "fp", 1, b"x") {
        Err(LotlError::Database(m)) => assert_eq!(m, "no such table: main.contacts"),
        other => panic!("unexpected {:?}", other),
    }
}

#[test]
fn mark_read_up_to_without_conversation_is_an_error() {
    let mut db = create_test_db();
    let bob_fp = generate_fingerprint(b"bob_key", "test_salt", "");
    match mark_conversation_read_up_to(&mut db, &bob_fp, 10) {
        Err(LotlError::Database(m)) => assert_eq!(m, "Query returned no rows"),
        other => panic!("unexpected {:?}", other),
    }
    // Marking read without a conversation changes nothing and succeeds.
    assert!(mark_conversation_read(&mut db, &bob_fp).is_ok());
    assert_eq!(get_unread_count(&db, &bob_fp).unwrap(), 0);
}

#[test]
fn sent_messages_do_not_count_as_unread_and_reads_reset() {
    let mut db = create_test_db();
    let alice_fp = generate_fingerprint(b"alice_key", "test_salt", "");
    store_outgoing_message(&mut db, &alice_fp, 1, b"a").unwrap();
    assert_eq!(get_unread_count(&db, &alice_fp).unwrap(), 0);
    store_incoming_message(&mut db, &alice_fp, 2, b"b", false, false).unwrap();
    store_incoming_message(&mut db, &alice_fp, 3, b"c", false, false).unwrap();
    assert_eq!(get_unread_count(&db, &alice_fp).unwrap(), 2);
    mark_conversation_read_up_to(&mut db, &alice_fp, 0).unwrap();
    assert_eq!(get_unread_count(&db, &alice_fp).unwrap(), 2);
    mark_conversation_read_up_to(&mut db, &alice_fp, 3).unwrap();
    assert_eq!(get_unread_count(&db, &alice_fp).unwrap(), 0);
}

#[test]
fn unarchived_conversation_is_listed_again() {
    let mut db = create_test_db();
    let alice_fp = generate_fingerprint(b"alice_key", "test_salt", "");
    store_incoming_message(&mut db, &alice_fp, 1, b"a", false, false).unwrap();
    archive_conversation(&mut db, &alice_fp, true).unwrap();
    assert_eq!(list_conversations(&db, false).unwrap().len(), 0);
    assert_eq!(list_conversations(&db, true).unwrap().len(), 1);
    archive_conversation(&mut db, &alice_fp, false).unwrap();
    let listed = get_conversations(&db, false).unwrap();
    assert_eq!(listed.len(), 1);
    assert!(!listed[0].archived);
    assert_eq!(listed[0].unread_count, 1);
}

#[test]
fn deleting_a_conversation_keeps_other_conversations() {
    let mut db = create_test_db();
    let alice_fp = generate_fingerprint(b"alice_key", "test_salt", "");
    let bob_fp = generate_fingerprint(b"bob_key", "test_salt", "");
    let a = store_incoming_message(&mut db, &alice_fp, 1, b"a", false, false).unwrap();
    let b = store_incoming_message(&mut db, &bob_fp, 2, b"b", false, false).unwrap();
    delete_conversation(&mut db, &alice_fp).unwrap();
    assert!(get_message(&db, a).is_err());
    assert_eq!(get_message(&db, b).unwrap().plaintext, b"b");
    assert_eq!(get_unread_count(&db, &alice_fp).unwrap(), 0);
    // Deleting a message that is not there changes nothing.
    delete_message(&mut db, a).unwrap();
    assert_eq!(get_conversation_messages(&db, &bob_fp, 10, 0).unwrap().len(), 1);
}

#[test]
fn pages_past_the_end_are_short_or_empty() {
    let mut db = create_test_db();
    let alice_fp = generate_fingerprint(b"alice_key", "test_salt", "");
    for i in 0..3 {
        store_incoming_message(&mut db, &alice_fp, 10 + i, b"m", false, false).unwrap();
    }
    assert_eq!(get_conversation_messages(&db, &alice_fp, 2, 2).unwrap().len(), 1);
    assert_eq!(get_conversation_messages(&db, &alice_fp, 2, 5).unwrap().len(), 0);
    assert_eq!(get_conversation_messages(&db, "nobody", 2, 0).unwrap().len(), 0);
}

#[test]
fn equal_times_list_the_later_stored_first() {
    let mut db = create_test_db();
    let alice_fp = generate_fingerprint(b"alice_key", "test_salt", "");
    store_incoming_message(&mut db, &alice_fp, 7, b"first", false, false).unwrap();
    store_incoming_message(&mut db, &alice_fp, 7, b"second", false, false).unwrap();
    let msgs = get_conversation_messages(&db, &alice_fp, 10, 0).unwrap();
    assert_eq!(msgs[0].plaintext, b"second");
    assert_eq!(msgs[1].plaintext, b"first");
}

#[test]
fn delivery_status_codes_round_trip() {
    for s in [DeliveryStatus::Pending, DeliveryStatus::Sent, DeliveryStatus::Delivered, DeliveryStatus::Failed] {
        assert_eq!(DeliveryStatus::from(s.code()), s);
    }
    assert_eq!(DeliveryStatus::Pending.code(), 0);
    assert_eq!(DeliveryStatus::Failed.code(), 3);
    assert_eq!(DeliveryStatus::from(99), DeliveryStatus::Pending);
    for t in [MessageType::Text, MessageType::BundleAnnouncement, MessageType::System] {
        assert_eq!(MessageType::from(t.code()), t);
    }
    assert_eq!(MessageType::System.code(), 2);
    assert_eq!(MessageType::from(-1), MessageType::Text);
}
