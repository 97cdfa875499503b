use lotl::error::LotlError;
use lotl::prekey_bundle::{
    bundle_version, deserialize_bundle, identity_key_from_bundle, local_prekey_bundle, prekey_bundle_with_metadata,
    serialize_bundle,
};
use lotl::{name, version};

#[test]
fn test_name() {
    assert_eq!(name(), "lotl");
}

#[test]
fn test_version() {
    assert_eq!(version(), "0.1.0");
}

#[test]
fn test_library_loads() {
    assert_eq!(name(), "lotl");
    assert_eq!(version(), "0.1.0");
}

#[test]
fn test_bundle_version_invalid_data() {
    let invalid_data = b"not a valid bundle";
    let result = bundle_version(invalid_data);
    assert!(result.is_err());
}

fn sample_bundle_bytes() -> Vec<u8> {
    let (bytes, pre, signed, kyber) = prekey_bundle_with_metadata(
        4242,
        7,
        vec![1, 2, 3],
        8,
        vec![4, 5],
        vec![6; 64],
        vec![5; 33],
        9,
        vec![7; 10],
        vec![8; 64],
    );
    assert_eq!((pre, signed, kyber), (7, 8, 9));
    bytes
}

#[test]
fn bundle_version_of_a_local_bundle() {
    let bundle = sample_bundle_bytes();
    assert_eq!(bundle_version(&bundle).unwrap(), version());
}

#[test]
fn identity_key_of_a_local_bundle() {
    let bundle = sample_bundle_bytes();
    assert_eq!(identity_key_from_bundle(&bundle).unwrap(), vec![5u8; 33]);
}

#[test]
fn bundle_round_trips_through_bytes() {
    let b = local_prekey_bundle(1, 2, vec![3], 4, vec![5, 6], vec![7], vec![8, 9, 10], 11, vec![], vec![12]);
    assert_eq!(b.version, "0.1.0");
    assert_eq!(b.device_id, 1);
    let bytes = serialize_bundle(&b);
    let back = deserialize_bundle(&bytes).unwrap();
    assert_eq!(back.version, b.version);
    assert_eq!(back.registration_id, 1);
    assert_eq!(back.device_id, 1);
    assert_eq!(back.pre_key_id, 2);
    assert_eq!(back.pre_key_public, vec![3]);
    assert_eq!(back.signed_pre_key_id, 4);
    assert_eq!(back.signed_pre_key_public, vec![5, 6]);
    assert_eq!(back.signed_pre_key_signature, vec![7]);
    assert_eq!(back.identity_key, vec![8, 9, 10]);
    assert_eq!(back.kyber_pre_key_id, 11);
    assert!(back.kyber_pre_key_public.is_empty());
    assert_eq!(back.kyber_pre_key_signature, vec![12]);
}

#[test]
fn bundle_bytes_match_bincode_layout() {
    let bytes = sample_bundle_bytes();
    let expected = bincode::serialize(&(
        "0.1.0".to_string(),
        4242u32,
        1u8,
        7u32,
        vec![1u8, 2, 3],
        8u32,
        vec![4u8, 5],
        vec![6u8; 64],
        vec![5u8; 33],
        9u32,
        vec![7u8; 10],
        vec![8u8; 64],
    ))
    .unwrap();
    assert_eq!(bytes, expected);
}

#[test]
fn bincode_written_bundle_is_read() {
    let bytes = bincode::serialize(&(
        "9.9.9".to_string(),
        1u32,
        2u8,
        3u32,
        vec![4u8],
        5u32,
        vec![6u8],
        vec![7u8],
        vec![0xAAu8; 32],
        8u32,
        vec![9u8],
        vec![10u8],
    ))
    .unwrap();
    assert_eq!(bundle_version(&bytes).unwrap(), "9.9.9");
    assert_eq!(identity_key_from_bundle(&bytes).unwrap(), vec![0xAAu8; 32]);
    let b = deserialize_bundle(&bytes).unwrap();
    assert_eq!(b.device_id, 2);
    assert_eq!(b.kyber_pre_key_id, 8);
}

#[test]
fn trailing_bytes_after_a_bundle_are_ignored() {
    let mut bytes = sample_bundle_bytes();
    bytes.extend_from_slice(&[0xFF, 0x00, 0x13]);
    assert_eq!(bundle_version(&bytes).unwrap(), "0.1.0");
}

type BundleFields = (String, u32, u8, u32, Vec<u8>, u32, Vec<u8>, Vec<u8>, Vec<u8>, u32, Vec<u8>, Vec<u8>);

fn bincode_read(bytes: &[u8]) -> Result<BundleFields, String> {
    bincode::deserialize::<BundleFields>(bytes).map_err(|e| e.to_string())
}

/// The library accepts exactly the bytes bincode accepts, and reports bincode's error.
fn agrees_with_bincode(bytes: &[u8]) {
    match (deserialize_bundle(bytes), bincode_read(bytes)) {
        (Ok(b), Ok(f)) => {
            assert_eq!(b.version, f.0);
            assert_eq!(b.registration_id, f.1);
            assert_eq!(b.identity_key, f.8);
            assert_eq!(b.kyber_pre_key_signature, f.11);
        }
        (Err(LotlError::Serialization(m)), Err(expected)) => assert_eq!(m, expected),
        (Err(e), Ok(_)) => panic!("rejected what bincode reads: {:?}", e),
        (Err(e), Err(expected)) => panic!("wrong error {:?}, bincode says {}", e, expected),
        (Ok(_), Err(expected)) => panic!("accepted what bincode rejects: {}", expected),
    }
}

#[test]
fn truncated_or_invalid_bundles_are_serialization_errors() {
    let bytes = sample_bundle_bytes();
    for cut in [0usize, 1, 8, 12, bytes.len() - 1] {
        match deserialize_bundle(&bytes[..cut]) {
            Err(LotlError::Serialization(m)) => assert_eq!(m, bincode_read(&bytes[..cut]).unwrap_err()),
            _ => panic!("a truncated bundle was accepted"),
        }
    }
    // A version string that is not UTF-8.
    let mut bad = bytes.clone();
    bad[8] = 0xFF;
    assert!(matches!(identity_key_from_bundle(&bad), Err(LotlError::Serialization(_))));
    agrees_with_bincode(&bad);
}

#[test]
fn invalid_bundle_reports_bincode_error() {
    let invalid_data = b"not a valid bundle";
    match bundle_version(invalid_data) {
        Err(LotlError::Serialization(m)) => {
            assert_eq!(m, bincode_read(invalid_data).unwrap_err());
            assert!(!m.is_empty());
        }
        other => panic!("unexpected {:?}", other),
    }
}

#[test]
fn decoding_agrees_with_bincode_on_sample_inputs() {
    let good = sample_bundle_bytes();
    agrees_with_bincode(&good);
    for cut in 0..good.len() {
        agrees_with_bincode(&good[..cut]);
    }
    let mut long = good.clone();
    long.extend_from_slice(b"trailing");
    agrees_with_bincode(&long);
    // A length prefix far beyond the input.
    let mut huge = good.clone();
    huge[0..8].copy_from_slice(&u64::MAX.to_le_bytes());
    agrees_with_bincode(&huge);
    let mut huge_blob = good.clone();
    let blob_len_at = 8 + 5 + 4 + 1 + 4;
    huge_blob[blob_len_at..blob_len_at + 8].copy_from_slice(&(1u64 << 40).to_le_bytes());
    agrees_with_bincode(&huge_blob);
    agrees_with_bincode(b"not a valid bundle");
    agrees_with_bincode(&[]);
}
