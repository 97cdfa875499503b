use lotl::contact_manager::{
    add_contact, add_contact_at, generate_fingerprint, init_contacts_table, list_contacts, lookup_contact,
    update_contact_alias, update_contact_alias_at,
};
use lotl::database::Database;
use lotl::error::LotlError;

fn create_test_db() -> Database {
    let mut db = Database::new();
    init_contacts_table(&mut db).unwrap();
    db
}

#[test]
fn test_generate_fingerprint() {
    let identity_key = b"test_identity_key";
    let salt = "test_salt";

    let fp1 = generate_fingerprint(identity_key, salt, "");
    let fp2 = generate_fingerprint(identity_key, salt, "");

    assert_eq!(fp1, fp2, "Fingerprints should be deterministic");
    assert_eq!(fp1.len(), 64, "SHA-256 hex should be 64 characters");
    assert!(!fp1.contains("RDX:"), "Should not contain prefix");
}

#[test]
fn test_generate_fingerprint_different_salts() {
    let identity_key = b"test_identity_key";
    let fp1 = generate_fingerprint(identity_key, "salt1", "");
    let fp2 = generate_fingerprint(identity_key, "salt2", "");
    assert_ne!(fp1, fp2, "Different salts should produce different fingerprints");
}

#[test]
fn test_add_and_lookup_contact() {
    let mut db = create_test_db();
    let identity_key = b"test_identity_key_1";

    let fingerprint = add_contact(&mut db, identity_key, Some("Alice"), "test_salt", "").unwrap();
    assert!(!fingerprint.is_empty());

    let contact = lookup_contact(&db, &fingerprint).unwrap().unwrap();
    assert_eq!(contact.fingerprint, fingerprint);
    assert_eq!(contact.signal_identity_key, identity_key);
    assert_eq!(contact.user_alias, Some("Alice".to_string()));
    assert!(contact.first_seen > 0);
    assert!(contact.last_updated > 0);
}

#[test]
fn test_add_contact_no_alias() {
    let mut db = create_test_db();
    let fingerprint = add_contact(&mut db, b"test_identity_key_2", None, "test_salt", "").unwrap();
    let contact = lookup_contact(&db, &fingerprint).unwrap().unwrap();
    assert_eq!(contact.user_alias, None);
}

#[test]
fn test_add_contact_idempotent() {
    let mut db = create_test_db();
    let identity_key = b"test_identity_key_3";

    let fp1 = add_contact(&mut db, identity_key, Some("Alice"), "test_salt", "").unwrap();
    let fp2 = add_contact(&mut db, identity_key, Some("Alice Updated"), "test_salt", "").unwrap();

    assert_eq!(fp1, fp2, "Same identity key should produce same fingerprint");

    let contact = lookup_contact(&db, &fp1).unwrap().unwrap();
    assert_eq!(contact.user_alias, Some("Alice Updated".to_string()));
}

#[test]
fn test_lookup_nonexistent_contact() {
    let db = create_test_db();
    let result = lookup_contact(&db, "nonexistent_fingerprint").unwrap();
    assert!(result.is_none());
}

#[test]
fn test_list_contacts() {
    let mut db = create_test_db();
    let salt = "test_salt";

    add_contact(&mut db, b"key1", Some("Alice"), salt, "").unwrap();
    add_contact(&mut db, b"key2", Some("Bob"), salt, "").unwrap();
    add_contact(&mut db, b"key3", Some("Charlie"), salt, "").unwrap();

    let contacts = list_contacts(&db).unwrap();
    assert_eq!(contacts.len(), 3);

    assert_eq!(contacts[0].user_alias, Some("Charlie".to_string()));
    assert_eq!(contacts[1].user_alias, Some("Bob".to_string()));
    assert_eq!(contacts[2].user_alias, Some("Alice".to_string()));
}

#[test]
fn test_list_contacts_empty() {
    let db = create_test_db();
    let contacts = list_contacts(&db).unwrap();
    assert_eq!(contacts.len(), 0);
}

#[test]
fn test_update_contact_alias() {
    let mut db = create_test_db();
    let fingerprint = add_contact(&mut db, b"test_identity_key_4", Some("Alice"), "test_salt", "").unwrap();

    let contact_before = lookup_contact(&db, &fingerprint).unwrap().unwrap();
    let last_updated_before = contact_before.last_updated;

    // One second later.
    update_contact_alias_at(&mut db, &fingerprint, Some("Alice Smith"), last_updated_before + 1).unwrap();

    let contact_after = lookup_contact(&db, &fingerprint).unwrap().unwrap();
    assert_eq!(contact_after.user_alias, Some("Alice Smith".to_string()));
    assert!(contact_after.last_updated > last_updated_before);
    assert_eq!(contact_after.first_seen, contact_before.first_seen);
}

#[test]
fn test_update_contact_alias_to_none() {
    let mut db = create_test_db();
    let fingerprint = add_contact(&mut db, b"test_identity_key_5", Some("Alice"), "test_salt", "").unwrap();

    update_contact_alias(&mut db, &fingerprint, None).unwrap();

    let contact = lookup_contact(&db, &fingerprint).unwrap().unwrap();
    assert_eq!(contact.user_alias, None);
}

#[test]
fn test_update_nonexistent_contact() {
    let mut db = create_test_db();
    let result = update_contact_alias(&mut db, "nonexistent", Some("Alias"));
    assert!(result.is_err());
    assert!(matches!(result.unwrap_err(), LotlError::ContactNotFound(_)));
}

#[test]
fn test_init_contacts_table_idempotent() {
    let mut db = Database::new();
    init_contacts_table(&mut db).unwrap();
    init_contacts_table(&mut db).unwrap();
}

#[test]
fn fingerprint_of_known_key_is_its_salted_sha256() {
    // SHA-256 of "abc" with an empty salt, in lowercase hexadecimal.
    let fp = generate_fingerprint(b"abc", "", "");
    assert_eq!(fp, "ba7816bf8f01cfea414140de5dae2223b00361a396177a9cb410ff61f20015ad");
    // The salt is appended to the key before hashing.
    assert_eq!(generate_fingerprint(b"ab", "c", ""), fp);
}

#[test]
fn fingerprint_carries_the_prefix() {
    let fp = generate_fingerprint(b"abc", "", "RDX:");
    assert_eq!(fp, "RDX:ba7816bf8f01cfea414140de5dae2223b00361a396177a9cb410ff61f20015ad");
    assert_eq!(fp.len(), 4 + 64);
}

#[test]
fn readding_a_contact_without_alias_keeps_the_alias_and_first_seen() {
    let mut db = create_test_db();
    let fp = add_contact_at(&mut db, b"k", Some("Alice"), "s", "", 100).unwrap();
    let fp2 = add_contact_at(&mut db, b"k", None, "s", "", 200).unwrap();
    assert_eq!(fp, fp2);
    let c = lookup_contact(&db, &fp).unwrap().unwrap();
    assert_eq!(c.user_alias, Some("Alice".to_string()));
    assert_eq!(c.first_seen, 100);
    assert_eq!(c.last_updated, 200);
    assert_eq!(list_contacts(&db).unwrap().len(), 1);
}

#[test]
fn contacts_are_listed_most_recently_updated_first() {
    let mut db = create_test_db();
    add_contact_at(&mut db, b"k1", Some("A"), "s", "", 300).unwrap();
    add_contact_at(&mut db, b"k2", Some("B"), "s", "", 100).unwrap();
    add_contact_at(&mut db, b"k3", Some("C"), "s", "", 200).unwrap();
    let listed = list_contacts(&db).unwrap();
    let names: Vec<Option<String>> = listed.into_iter().map(|c| c.user_alias).collect();
    assert_eq!(names, vec![Some("A".to_string()), Some("C".to_string()), Some("B".to_string())]);
}

#[test]
fn contact_operations_without_the_table_fail() {
    let mut db = Database::new();
    match add_contact_at(&mut db, b"k", None, "s", "", 1) {
        Err(LotlError::Database(m)) => assert_eq!(m, "no such table: contacts"),
        other => panic!("unexpected {:?}", other),
    }
    match lookup_contact(&db, "x") {
        Err(LotlError::Database(m)) => assert_eq!(m, "no such table: contacts"),
        other => panic!("unexpected {:?}", other),
    }
    assert!(matches!(list_contacts(&db), Err(LotlError::Database(_))));
    assert!(matches!(update_contact_alias_at(&mut db, "x", None, 1), Err(LotlError::Database(_))));
}
