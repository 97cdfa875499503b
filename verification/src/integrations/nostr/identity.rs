//! Nostr identity derivation from Signal Protocol identity keys.
//!
//! The Nostr secret key is derived with HKDF-SHA256 (no salt) from the Signal
//! identity key, with the configured derivation context as the HKDF info.

use vstd::prelude::*;
use hkdf::Hkdf;
use sha2::Sha256;
use crate::error::LotlError;
use crate::integrations::nostr::types::{NostrConfig, NostrKeys};

verus! {

/// The 32 bytes of HKDF-SHA256 output keying material for `ikm` and `info`, without salt.
pub uninterp spec fn hkdf_sha256_32(ikm: Seq<u8>, info: Seq<u8>) -> Seq<u8>;

/// `Hkdf::<Sha256>::new(None, ikm)` followed by `expand(info, ..)` into 32 bytes. The
/// expansion fails only when more than 255 hash lengths are asked for, so for 32 bytes
/// it always succeeds; the output is claimed to be the HKDF output for exactly these
/// arguments, 32 bytes long. The function itself is not stated.
#[verifier::external_body]
fn hkdf_sha256_expand32(ikm: &[u8], info: &[u8]) -> (okm: Option<Vec<u8>>)
    ensures
        okm is Some,
        okm matches Some(k) ==> k@ == hkdf_sha256_32(ikm@, info@) && k@.len() == 32,
{
    let hk = Hkdf::<Sha256>::new(None, ikm);
    let mut out = [0u8; 32];
    hk.expand(info, &mut out).ok().map(|_| out.to_vec())
}

/// The value of bytes read as a big-endian number.
pub open spec fn be_value(b: Seq<u8>) -> nat
    decreases b.len(),
{
    if b.len() == 0 {
        0
    } else {
        be_value(b.drop_last()) * 256 + b.last() as nat
    }
}

/// The order of the secp256k1 group.
pub open spec fn secp256k1_order() -> nat {
    0xFFFFFFFFFFFFFFFFFFFFFFFFFFFFFFFEBAAEDCE6AF48A03BBFD25E8CD0364141nat
}

/// A secp256k1 secret key: 32 bytes whose big-endian value is not 0 and is below the
/// group order.
pub open spec fn is_valid_secret_key(b: Seq<u8>) -> bool {
    b.len() == 32 && 0 < be_value(b) < secp256k1_order()
}

/// The 32-byte x-only public key of a secp256k1 secret key.
pub uninterp spec fn xonly_public_key(secret: Seq<u8>) -> Seq<u8>;

/// `nostr::SecretKey::from_slice` followed by `nostr::Keys::new(..).public_key()`: the
/// secret key is accepted exactly when it is valid (32 bytes, not 0, below the group
/// order, as `secp256k1_ec_seckey_verify` documents), and the public key is then claimed
/// to be the 32-byte x-only key of exactly this secret. The derivation itself is not
/// stated.
#[verifier::external_body]
fn nostr_public_key(secret: &[u8]) -> (pk: Option<Vec<u8>>)
    ensures
        pk is Some <==> is_valid_secret_key(secret@),
        pk matches Some(p) ==> p@ == xonly_public_key(secret@) && p@.len() == 32,
{
    match ::nostr::key::SecretKey::from_slice(secret) {
        Ok(sk) => Some(::nostr::key::Keys::new(sk).public_key().to_bytes().to_vec()),
        Err(_) => None,
    }
}

/// The message of the error for a derived secret that is not a valid key.
pub open spec fn invalid_secret_key_text() -> Seq<char> {
    "Invalid secret key: malformed or out-of-range secret key"@
}

/// Derives a Nostr keypair from a Signal Protocol identity key: the secret key is the
/// HKDF-SHA256 output (no salt, the derivation context as info), the public key is its
/// x-only public key. The result depends on the identity key and the context only.
pub fn derive_nostr_keypair(signal_identity_key: &[u8], config: &NostrConfig) -> (res: Result<
    NostrKeys,
    LotlError,
>)
    ensures
        ({
            let secret = hkdf_sha256_32(
                signal_identity_key@,
                vstd::utf8::encode_utf8(config.derivation_context@),
            );
            if is_valid_secret_key(secret) {
                res matches Ok(k) && k.secret_key@ == secret && k.public_key@ == xonly_public_key(
                    secret,
                )
            } else {
                res matches Err(LotlError::Crypto(m)) && m@ == invalid_secret_key_text()
            }
        }),
{
    let info = config.derivation_context.as_str().as_bytes();
    let derived = match hkdf_sha256_expand32(signal_identity_key, info) {
        Some(k) => k,
        None => {
            return Err(LotlError::Crypto("HKDF expansion failed".to_owned()));
        },
    };
    let public_key = nostr_public_key(derived.as_slice());
    keypair_from_parts(derived, public_key)
}

/// The keypair made of a secret key and the public key computed from it; no public key
/// means the secret was not a valid key.
pub fn keypair_from_parts(secret_key: Vec<u8>, public_key: Option<Vec<u8>>) -> (res: Result<NostrKeys, LotlError>)
    ensures
        match public_key {
            Some(p) => res matches Ok(k) && k.secret_key@ == secret_key@ && k.public_key@ == p@,
            None => res matches Err(LotlError::Crypto(m)) && m@ == invalid_secret_key_text(),
        },
{
    match public_key {
        Some(public_key) => Ok(NostrKeys { secret_key, public_key }),
        None => Err(LotlError::Crypto("Invalid secret key: malformed or out-of-range secret key".to_owned())),
    }
}

} // verus!
