# lotl

The verified local state of a Signal Protocol session manager: contacts and their
fingerprints, message history, Nostr identity mappings, and the prekey bundle wire
format.

Sessions, encryption and decryption, identity and prekey generation, key rotation and
database encryption are not in this crate. They are the work of the Signal Protocol
implementation (`libsignal_protocol`) and of key-store modules that could not be built
here, so only the decisions around them that stand on plain values are included: the
configuration check, registration ids, fingerprints of an identity key, the bundle
encoding and the key-maintenance report.

- `src/` is the library, verified with Verus. Its database operations (contacts,
  conversations and messages, Nostr identity mappings) work on an in-memory model of
  the SQLite tables, `database::Database`, whose `view` and well-formedness predicate
  the contracts speak of. The prekey bundle encoding (bincode's layout), fingerprints,
  newest-first listings and Nostr key derivation are verified there too; SHA-256, HKDF,
  secp256k1, bincode's error messages, the clock and the random generator are reached
  through small trusted wrappers.
- `src/history_laws.rs`, and the `lemma_*` proof functions beside the operations,
  state what the operations promise together (a stored message is read back as stored,
  a deleted one is gone, a bundle decodes to what was encoded, ...).
- `app/` loads the model from SQLite, runs the verified operations and writes the model
  back; it also holds the error type with `Display` and a facade over contacts, Nostr
  identities and bundle inspection.
- `tests/` exercise the library through its public functions.
