//! Decisions of the session manager that do not depend on the Signal Protocol
//! implementation: configuration checks, registration ids, fingerprints of the
//! local identity and the report of key maintenance.

use vstd::prelude::*;
use rand::Rng;
use crate::contact_manager::{self, generate_fingerprint};
use crate::error::LotlError;
use crate::types::{LotlConfig, MaintenanceResult};

verus! {

/// The message of the error for a configuration without a database path.
pub open spec fn empty_db_path_text() -> Seq<char> {
    "db_path cannot be empty"@
}

/// Checks a configuration before a session manager is opened with it: the database
/// path must not be empty.
pub fn validate_config(config: &LotlConfig) -> (res: Result<(), LotlError>)
    ensures
        config.db_path@.len() == 0 <==> res is Err,
        res matches Err(e) ==> e matches LotlError::InvalidConfig(m) && m@ == empty_db_path_text(),
{
    if config.db_path.as_str().is_empty() {
        return Err(LotlError::InvalidConfig("db_path cannot be empty".to_owned()));
    }
    Ok(())
}

/// `rand::rng().random::<u32>()`: a random `u32` from the thread-local generator.
/// Nothing is claimed of its value.
#[verifier::external_body]
fn random_u32() -> u32 {
    rand::rng().random::<u32>()
}

/// The registration id made from a random `u32`: its low 14 bits.
pub fn registration_id_from(raw: u32) -> (id: u32)
    ensures
        id == raw % 16384,
        id < 16384,
{
    let id = raw & 0x3FFFu32;
    assert(raw & 0x3FFFu32 == raw % 16384) by (bit_vector);
    id
}

/// A fresh random registration id, below 2^14.
pub fn generate_registration_id() -> (id: u32)
    ensures
        id < 16384,
{
    registration_id_from(random_u32())
}

/// The fingerprint of an identity key under a configuration's salt and prefix.
pub fn fingerprint_for(config: &LotlConfig, identity_key: &[u8]) -> (fp: String)
    ensures
        fp@ == contact_manager::fingerprint_of(
            identity_key@,
            config.fingerprint_salt@,
            config.fingerprint_prefix@,
        ),
        fp@.len() == config.fingerprint_prefix@.len() + 64,
{
    generate_fingerprint(
        identity_key,
        config.fingerprint_salt.as_str(),
        config.fingerprint_prefix.as_str(),
    )
}

/// The report of a key maintenance run: whether the signed and Kyber prekeys were
/// rotated, and how many one-time prekeys were added, from the counts before and
/// after replenishing (never negative; the count is kept in 32 bits).
pub fn maintenance_result(
    signed_pre_key_rotated: bool,
    kyber_pre_key_rotated: bool,
    pre_key_count_before: usize,
    pre_key_count_after: usize,
) -> (r: MaintenanceResult)
    ensures
        r.signed_pre_key_rotated == signed_pre_key_rotated,
        r.kyber_pre_key_rotated == kyber_pre_key_rotated,
        r.pre_keys_generated == (if pre_key_count_after >= pre_key_count_before {
            (pre_key_count_after - pre_key_count_before) as u32
        } else {
            0u32
        }),
{
    let added: usize = if pre_key_count_after >= pre_key_count_before {
        pre_key_count_after - pre_key_count_before
    } else {
        0
    };
    MaintenanceResult {
        pre_keys_generated: added as u32,
        signed_pre_key_rotated,
        kyber_pre_key_rotated,
    }
}

} // verus!
