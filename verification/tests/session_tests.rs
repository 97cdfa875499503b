use lotl::clock::unix_now;
use lotl::contact_manager::generate_fingerprint;
use lotl::decimal::push_decimal;
use lotl::error::LotlError;
use lotl::hex_digest::push_hex_lower;
use lotl::recency::recency_order;
use lotl::session::{fingerprint_for, generate_registration_id, maintenance_result, registration_id_from, validate_config};
use lotl::types::LotlConfig;

#[test]
fn test_invalid_config() {
    let config = LotlConfig::default();
    match validate_config(&config) {
        Err(LotlError::InvalidConfig(m)) => assert_eq!(m, "db_path cannot be empty"),
        other => panic!("unexpected {:?}", other),
    }
    let ok = LotlConfig { db_path: ":memory:".to_string(), ..LotlConfig::default() };
    assert!(validate_config(&ok).is_ok());
}

#[test]
fn default_config_uses_the_standard_salt() {
    let config = LotlConfig::default();
    assert_eq!(config.fingerprint_salt, "signal-identity-fingerprint");
    assert_eq!(config.fingerprint_prefix, "");
    assert_eq!(config.db_path, "");
}

#[test]
fn registration_ids_are_fourteen_bits() {
    assert_eq!(registration_id_from(0), 0);
    assert_eq!(registration_id_from(16383), 16383);
    assert_eq!(registration_id_from(16384), 0);
    assert_eq!(registration_id_from(u32::MAX), 16383);
    assert_eq!(registration_id_from(0x12345678), 0x12345678 & 0x3FFF);
    for _ in 0..100 {
        assert!(generate_registration_id() < 16384);
    }
}

#[test]
fn fingerprint_for_uses_the_configured_salt_and_prefix() {
    let config = LotlConfig {
        db_path: "x".to_string(),
        fingerprint_salt: "pepper".to_string(),
        fingerprint_prefix: "ID:".to_string(),
    };
    let fp = fingerprint_for(&config, b"key");
    assert_eq!(fp, generate_fingerprint(b"key", "pepper", "ID:"));
    assert!(fp.starts_with("ID:"));
    assert_eq!(fp.len(), 3 + 64);
}

#[test]
fn maintenance_report_counts_added_prekeys() {
    let r = maintenance_result(true, false, 10, 100);
    assert!(r.signed_pre_key_rotated);
    assert!(!r.kyber_pre_key_rotated);
    assert_eq!(r.pre_keys_generated, 90);
    let none = maintenance_result(false, true, 100, 40);
    assert_eq!(none.pre_keys_generated, 0);
    assert!(none.kyber_pre_key_rotated);
}

#[test]
fn clock_reads_seconds_since_epoch() {
    let now = unix_now().unwrap();
    // After 2020-01-01 and before 2200-01-01.
    assert!(now > 1_577_836_800);
    assert!(now < 7_258_118_400);
}

#[test]
fn hex_and_decimal_text() {
    let mut s = String::from(">");
    push_hex_lower(&mut s, &[0x00, 0x0f, 0xa5, 0xff]);
    assert_eq!(s, ">000fa5ff");
    let mut d = String::new();
    push_decimal(&mut d, 0);
    push_decimal(&mut d, -1);
    push_decimal(&mut d, 1234567890);
    assert_eq!(d, "0-11234567890");
    let mut m = String::new();
    push_decimal(&mut m, i64::MIN);
    assert_eq!(m, "-9223372036854775808");
    let mut x = String::new();
    push_decimal(&mut x, i64::MAX);
    assert_eq!(x, "9223372036854775807");
}

#[test]
fn recency_order_lists_newest_first_and_later_on_ties() {
    let keys = vec![5i64, 9, 5, 1, 9];
    assert_eq!(recency_order(&keys), vec![4, 1, 2, 0, 3]);
    assert_eq!(recency_order(&vec![]), Vec::<usize>::new());
}
