use hkdf::Hkdf;
use lotl::contact_manager::init_contacts_table;
use lotl::database::Database;
use lotl::error::LotlError;
use lotl::integrations::nostr::{
    derive_nostr_keypair, get_fingerprint_by_nostr_pubkey, get_nostr_pubkey, init_nostr_tables, store_nostr_identity,
    NostrConfig,
};
use lotl::types::ContactInfo;
use sha2::Sha256;

fn setup_test_db() -> Database {
    let mut db = Database::new();
    init_contacts_table(&mut db).unwrap();
    init_nostr_tables(&mut db).unwrap();
    db
}

fn insert_test_contact(db: &mut Database, fingerprint: &str) {
    let now = 1234567890i64;
    db.contacts.push(ContactInfo {
        fingerprint: fingerprint.to_string(),
        signal_identity_key: vec![0x42u8; 32],
        user_alias: None,
        first_seen: now,
        last_updated: now,
    });
}

#[test]
fn test_nostr_config_default() {
    let config = NostrConfig::default();
    assert_eq!(config.derivation_context, "lotl_nostr_derivation");
    assert_eq!(config.bundle_tag, "lotl_prekey_bundle_v1");
}

#[test]
fn test_nostr_config_custom() {
    let config = NostrConfig { derivation_context: "custom_context".to_string(), bundle_tag: "custom_tag".to_string() };
    assert_eq!(config.derivation_context, "custom_context");
    assert_eq!(config.bundle_tag, "custom_tag");
}

#[test]
fn test_init_nostr_tables() {
    let mut db = Database::new();
    init_contacts_table(&mut db).unwrap();
    let result = init_nostr_tables(&mut db);
    assert!(result.is_ok());
    assert!(db.has_nostr_table);
}

#[test]
fn test_store_and_get_nostr_identity() {
    let mut db = setup_test_db();
    insert_test_contact(&mut db, "test_fingerprint");

    let store_result = store_nostr_identity(&mut db, "test_fingerprint", "npub1test123", "test_context");
    assert!(store_result.is_ok());

    let retrieved_pubkey = get_nostr_pubkey(&db, "test_fingerprint").unwrap();
    assert_eq!(retrieved_pubkey, Some("npub1test123".to_string()));
}

#[test]
fn test_get_nostr_pubkey_not_found() {
    let db = setup_test_db();
    let result = get_nostr_pubkey(&db, "nonexistent").unwrap();
    assert_eq!(result, None);
}

#[test]
fn test_get_fingerprint_by_nostr_pubkey() {
    let mut db = setup_test_db();
    insert_test_contact(&mut db, "test_fingerprint");
    store_nostr_identity(&mut db, "test_fingerprint", "npub1test123", "test_context").unwrap();

    let retrieved_fingerprint = get_fingerprint_by_nostr_pubkey(&db, "npub1test123").unwrap();
    assert_eq!(retrieved_fingerprint, Some("test_fingerprint".to_string()));
}

#[test]
fn test_get_fingerprint_by_nostr_pubkey_not_found() {
    let db = setup_test_db();
    let result = get_fingerprint_by_nostr_pubkey(&db, "nonexistent").unwrap();
    assert_eq!(result, None);
}

#[test]
fn test_store_nostr_identity_replace() {
    let mut db = setup_test_db();
    insert_test_contact(&mut db, "test_fingerprint");

    store_nostr_identity(&mut db, "test_fingerprint", "npub1test123", "test_context").unwrap();
    let retrieved1 = get_nostr_pubkey(&db, "test_fingerprint").unwrap();
    assert_eq!(retrieved1, Some("npub1test123".to_string()));

    store_nostr_identity(&mut db, "test_fingerprint", "npub1test456", "test_context").unwrap();
    let retrieved2 = get_nostr_pubkey(&db, "test_fingerprint").unwrap();
    assert_eq!(retrieved2, Some("npub1test456".to_string()));
}

#[test]
fn test_unique_nostr_pubkey_constraint() {
    let mut db = setup_test_db();
    insert_test_contact(&mut db, "fingerprint1");
    insert_test_contact(&mut db, "fingerprint2");

    store_nostr_identity(&mut db, "fingerprint1", "npub1test123", "test_context").unwrap();

    let result = store_nostr_identity(&mut db, "fingerprint2", "npub1test123", "test_context");
    assert!(result.is_err());
}

#[test]
fn taken_pubkey_error_names_its_owner() {
    let mut db = setup_test_db();
    insert_test_contact(&mut db, "fingerprint1");
    insert_test_contact(&mut db, "fingerprint2");
    store_nostr_identity(&mut db, "fingerprint1", "npub1", "ctx").unwrap();
    match store_nostr_identity(&mut db, "fingerprint2", "npub1", "ctx") {
        Err(LotlError::Storage(m)) => {
            assert_eq!(m, "Nostr pubkey npub1 is already associated with fingerprint fingerprint1")
        }
        other => panic!("unexpected {:?}", other),
    }
    assert_eq!(get_nostr_pubkey(&db, "fingerprint2").unwrap(), None);
}

#[test]
fn replaced_pubkey_no_longer_leads_back() {
    let mut db = setup_test_db();
    insert_test_contact(&mut db, "fp");
    store_nostr_identity(&mut db, "fp", "old", "ctx").unwrap();
    store_nostr_identity(&mut db, "fp", "new", "ctx").unwrap();
    assert_eq!(get_fingerprint_by_nostr_pubkey(&db, "old").unwrap(), None);
    assert_eq!(get_fingerprint_by_nostr_pubkey(&db, "new").unwrap(), Some("fp".to_string()));
}

#[test]
fn storing_for_a_non_contact_is_a_foreign_key_error() {
    let mut db = setup_test_db();
    match store_nostr_identity(&mut db, "nobody", "npub", "ctx") {
        Err(LotlError::Database(m)) => assert_eq!(m, "FOREIGN KEY constraint failed"),
        other => panic!("unexpected {:?}", other),
    }
}

#[test]
fn nostr_storage_without_table_fails() {
    let mut db = Database::new();
    match get_nostr_pubkey(&db, "x") {
        Err(LotlError::Database(m)) => assert_eq!(m, "no such table: nostr_identities"),
        other => panic!("unexpected {:?}", other),
    }
    assert!(get_fingerprint_by_nostr_pubkey(&db, "x").is_err());
    assert!(store_nostr_identity(&mut db, "x", "y", "z").is_err());
}

#[test]
fn test_derive_nostr_keypair_deterministic() {
    let identity_key = [0x42u8; 32];
    let config = NostrConfig::default();

    let keys1 = derive_nostr_keypair(&identity_key, &config).unwrap();
    let keys2 = derive_nostr_keypair(&identity_key, &config).unwrap();

    assert_eq!(keys1.secret_key, keys2.secret_key);
    assert_eq!(keys1.public_key, keys2.public_key);
}

#[test]
fn test_derive_nostr_keypair_different_contexts() {
    let identity_key = [0x42u8; 32];
    let config1 = NostrConfig { derivation_context: "context1".to_string(), bundle_tag: "tag1".to_string() };
    let config2 = NostrConfig { derivation_context: "context2".to_string(), bundle_tag: "tag1".to_string() };

    let keys1 = derive_nostr_keypair(&identity_key, &config1).unwrap();
    let keys2 = derive_nostr_keypair(&identity_key, &config2).unwrap();

    assert_ne!(keys1.secret_key, keys2.secret_key);
    assert_ne!(keys1.public_key, keys2.public_key);
}

#[test]
fn test_derive_nostr_keypair_different_inputs() {
    let config = NostrConfig::default();
    let keys1 = derive_nostr_keypair(&[0x42u8; 32], &config).unwrap();
    let keys2 = derive_nostr_keypair(&[0x43u8; 32], &config).unwrap();

    assert_ne!(keys1.secret_key, keys2.secret_key);
    assert_ne!(keys1.public_key, keys2.public_key);
}

#[test]
fn test_public_key_matches_secret_key() {
    let identity_key = [0x42u8; 32];
    let config = NostrConfig::default();

    let nostr_keys = derive_nostr_keypair(&identity_key, &config).unwrap();
    let secret = nostr::key::SecretKey::from_slice(&nostr_keys.secret_key).unwrap();
    let keys_from_secret = nostr::key::Keys::new(secret);

    assert_eq!(nostr_keys.public_key, keys_from_secret.public_key().to_bytes().to_vec());
}

#[test]
fn secret_key_is_the_hkdf_output_of_the_identity_key() {
    let identity_key = [0x42u8; 32];
    let config = NostrConfig::default();
    let keys = derive_nostr_keypair(&identity_key, &config).unwrap();

    let hk = Hkdf::<Sha256>::new(None, &identity_key);
    let mut expected = [0u8; 32];
    hk.expand(b"lotl_nostr_derivation", &mut expected).unwrap();
    assert_eq!(keys.secret_key, expected.to_vec());
    assert_eq!(keys.secret_key.len(), 32);
    assert_eq!(keys.public_key.len(), 32);
    assert_ne!(keys.public_key, keys.secret_key);
}
