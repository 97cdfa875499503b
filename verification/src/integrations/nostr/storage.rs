//! Storage of Nostr identity mappings: which Nostr public key belongs to which
//! Signal Protocol fingerprint.
//!
//! A fingerprint has at most one Nostr public key, a public key belongs to at most
//! one fingerprint, and the fingerprint must be a stored contact.

use vstd::prelude::*;
use crate::database::{self, Database, DatabaseView, DbFailure, NostrIdentityRow, NostrIdentityRowView};
use crate::error::LotlError;
use crate::types::copy_string;

verus! {

/// Creates the Nostr identities table if it does not exist.
pub fn init_nostr_tables(db: &mut Database) -> (res: Result<(), LotlError>)
    requires
        old(db)@.wf(),
    ensures
        res is Ok,
        final(db)@ == (DatabaseView { has_nostr_table: true, ..old(db)@ }),
        final(db)@.wf(),
{
    db.has_nostr_table = true;
    Ok(())
}

/// The position of the mapping for a fingerprint.
pub open spec fn nostr_index_by_fingerprint(db: DatabaseView, fingerprint: Seq<char>) -> Option<int> {
    if exists|i: int| 0 <= i < db.nostr_identities.len() && db.nostr_identities[i].fingerprint == fingerprint {
        Some(choose|i: int| 0 <= i < db.nostr_identities.len() && db.nostr_identities[i].fingerprint == fingerprint)
    } else {
        None
    }
}

/// The position of the mapping for a Nostr public key.
pub open spec fn nostr_index_by_pubkey(db: DatabaseView, nostr_pubkey: Seq<char>) -> Option<int> {
    if exists|i: int| 0 <= i < db.nostr_identities.len() && db.nostr_identities[i].nostr_pubkey == nostr_pubkey {
        Some(choose|i: int| 0 <= i < db.nostr_identities.len() && db.nostr_identities[i].nostr_pubkey == nostr_pubkey)
    } else {
        None
    }
}

proof fn lemma_nostr_index(db: DatabaseView, i: int)
    requires
        db.wf(),
        0 <= i < db.nostr_identities.len(),
    ensures
        nostr_index_by_fingerprint(db, db.nostr_identities[i].fingerprint) == Some(i),
        nostr_index_by_pubkey(db, db.nostr_identities[i].nostr_pubkey) == Some(i),
{
    let fp = db.nostr_identities[i].fingerprint;
    assert(0 <= i < db.nostr_identities.len() && db.nostr_identities[i].fingerprint == fp);
    let j = choose|j: int| 0 <= j < db.nostr_identities.len() && db.nostr_identities[j].fingerprint == fp;
    if j < i {
        assert(db.nostr_identities[j].fingerprint != db.nostr_identities[i].fingerprint);
    } else if j > i {
        assert(db.nostr_identities[i].fingerprint != db.nostr_identities[j].fingerprint);
    }
    let pk = db.nostr_identities[i].nostr_pubkey;
    assert(0 <= i < db.nostr_identities.len() && db.nostr_identities[i].nostr_pubkey == pk);
    let k = choose|k: int| 0 <= k < db.nostr_identities.len() && db.nostr_identities[k].nostr_pubkey == pk;
    if k < i {
        assert(db.nostr_identities[k].nostr_pubkey != db.nostr_identities[i].nostr_pubkey);
    } else if k > i {
        assert(db.nostr_identities[i].nostr_pubkey != db.nostr_identities[k].nostr_pubkey);
    }
}

fn find_by_fingerprint(db: &Database, fingerprint: &String) -> (r: Option<usize>)
    requires
        db@.wf(),
    ensures
        r matches Some(i) ==> nostr_index_by_fingerprint(db@, fingerprint@) == Some(i as int),
        r is None ==> nostr_index_by_fingerprint(db@, fingerprint@) is None,
{
    let mut i: usize = 0;
    while i < db.nostr_identities.len()
        invariant
            i <= db@.nostr_identities.len(),
            db@.wf(),
            forall|j: int| 0 <= j < i ==> db@.nostr_identities[j].fingerprint != fingerprint@,
        decreases db@.nostr_identities.len() - i,
    {
        if db.nostr_identities[i].fingerprint == *fingerprint {
            proof {
                lemma_nostr_index(db@, i as int);
            }
            return Some(i);
        }
        i = i + 1;
    }
    None
}

fn find_by_pubkey(db: &Database, nostr_pubkey: &String) -> (r: Option<usize>)
    requires
        db@.wf(),
    ensures
        r matches Some(i) ==> nostr_index_by_pubkey(db@, nostr_pubkey@) == Some(i as int),
        r is None ==> nostr_index_by_pubkey(db@, nostr_pubkey@) is None,
{
    let mut i: usize = 0;
    while i < db.nostr_identities.len()
        invariant
            i <= db@.nostr_identities.len(),
            db@.wf(),
            forall|j: int| 0 <= j < i ==> db@.nostr_identities[j].nostr_pubkey != nostr_pubkey@,
        decreases db@.nostr_identities.len() - i,
    {
        if db.nostr_identities[i].nostr_pubkey == *nostr_pubkey {
            proof {
                lemma_nostr_index(db@, i as int);
            }
            return Some(i);
        }
        i = i + 1;
    }
    None
}

/// The Nostr public key stored for a fingerprint.
pub fn get_nostr_pubkey(db: &Database, fingerprint: &str) -> (res: Result<Option<String>, LotlError>)
    requires
        db@.wf(),
    ensures
        if !db@.has_nostr_table {
            res matches Err(e) && database::is_db_error(e, DbFailure::NoSuchTable("nostr_identities"@))
        } else {
            res matches Ok(r) && match nostr_index_by_fingerprint(db@, fingerprint@) {
                Some(i) => r matches Some(k) && k@ == db@.nostr_identities[i].nostr_pubkey,
                None => r is None,
            }
        },
{
    if !db.has_nostr_table {
        return Err(database::no_such_table("nostr_identities"));
    }
    let key = fingerprint.to_owned();
    match find_by_fingerprint(db, &key) {
        Some(i) => Ok(Some(copy_string(&db.nostr_identities[i].nostr_pubkey))),
        None => Ok(None),
    }
}

/// The fingerprint whose Nostr public key this is.
pub fn get_fingerprint_by_nostr_pubkey(db: &Database, nostr_pubkey: &str) -> (res: Result<Option<String>, LotlError>)
    requires
        db@.wf(),
    ensures
        if !db@.has_nostr_table {
            res matches Err(e) && database::is_db_error(e, DbFailure::NoSuchTable("nostr_identities"@))
        } else {
            res matches Ok(r) && match nostr_index_by_pubkey(db@, nostr_pubkey@) {
                Some(i) => r matches Some(f) && f@ == db@.nostr_identities[i].fingerprint,
                None => r is None,
            }
        },
{
    if !db.has_nostr_table {
        return Err(database::no_such_table("nostr_identities"));
    }
    let key = nostr_pubkey.to_owned();
    match find_by_pubkey(db, &key) {
        Some(i) => Ok(Some(copy_string(&db.nostr_identities[i].fingerprint))),
        None => Ok(None),
    }
}

/// The text of the error for a public key that belongs to another fingerprint.
pub open spec fn pubkey_taken_text(nostr_pubkey: Seq<char>, owner: Seq<char>) -> Seq<char> {
    "Nostr pubkey "@ + nostr_pubkey + " is already associated with fingerprint "@ + owner
}

/// The mappings after storing one: any mapping of the fingerprint is replaced.
pub open spec fn nostr_after_store(
    db: DatabaseView,
    fingerprint: Seq<char>,
    nostr_pubkey: Seq<char>,
    derivation_context: Seq<char>,
) -> Seq<NostrIdentityRowView> {
    let row = NostrIdentityRowView { fingerprint, nostr_pubkey, derivation_context };
    match nostr_index_by_fingerprint(db, fingerprint) {
        Some(i) => db.nostr_identities.remove(i).push(row),
        None => db.nostr_identities.push(row),
    }
}

/// Two rows after a store differ in fingerprint and in public key.
proof fn lemma_store_pair(
    pre: DatabaseView,
    post: DatabaseView,
    fingerprint: Seq<char>,
    nostr_pubkey: Seq<char>,
    derivation_context: Seq<char>,
    a: int,
    b: int,
)
    requires
        pre.wf(),
        post.nostr_identities == nostr_after_store(pre, fingerprint, nostr_pubkey, derivation_context),
        nostr_index_by_pubkey(pre, nostr_pubkey) matches Some(i) ==> pre.nostr_identities[i].fingerprint == fingerprint,
        0 <= a < b < post.nostr_identities.len(),
    ensures
        post.nostr_identities[a].fingerprint != post.nostr_identities[b].fingerprint,
        post.nostr_identities[a].nostr_pubkey != post.nostr_identities[b].nostr_pubkey,
{
    let n = post.nostr_identities.len();
    match nostr_index_by_fingerprint(pre, fingerprint) {
        Some(r) => {
            let a0 = if a < r { a } else { a + 1 };
            assert(post.nostr_identities[a] == pre.nostr_identities[a0]);
            assert(a0 != r);
            if b < n - 1 {
                let b0 = if b < r { b } else { b + 1 };
                assert(post.nostr_identities[b] == pre.nostr_identities[b0]);
                assert(a0 < b0);
            } else {
                lemma_nostr_index(pre, a0);
                lemma_nostr_index(pre, r);
                assert(pre.nostr_identities[a0].fingerprint != fingerprint);
                if pre.nostr_identities[a0].nostr_pubkey == nostr_pubkey {
                    assert(pre.nostr_identities[a0].fingerprint == fingerprint);
                }
            }
        },
        None => {
            assert(post.nostr_identities[a] == pre.nostr_identities[a]);
            if b < n - 1 {
                assert(post.nostr_identities[b] == pre.nostr_identities[b]);
            } else {
                if pre.nostr_identities[a].fingerprint == fingerprint {
                    assert(0 <= a < pre.nostr_identities.len() && pre.nostr_identities[a].fingerprint
                        == fingerprint);
                }
                if pre.nostr_identities[a].nostr_pubkey == nostr_pubkey {
                    lemma_nostr_index(pre, a);
                }
            }
        },
    }
}

/// Stores the Nostr public key of a fingerprint, with the context it was derived with,
/// replacing the fingerprint's earlier mapping. A public key that already belongs to
/// another fingerprint is refused, and so is a fingerprint that is not a contact.
pub fn store_nostr_identity(
    db: &mut Database,
    fingerprint: &str,
    nostr_pubkey: &str,
    derivation_context: &str,
) -> (res: Result<(), LotlError>)
    requires
        old(db)@.wf(),
    ensures
        final(db)@.wf(),
        ({
            let pre = old(db)@;
            if !pre.has_nostr_table {
                res matches Err(e) && database::is_db_error(e, DbFailure::NoSuchTable("nostr_identities"@))
                    && final(db)@ == pre
            } else if nostr_index_by_pubkey(pre, nostr_pubkey@) matches Some(i)
                && pre.nostr_identities[i].fingerprint != fingerprint@ {
                res matches Err(LotlError::Storage(m)) && m@ == pubkey_taken_text(
                    nostr_pubkey@,
                    pre.nostr_identities[nostr_index_by_pubkey(pre, nostr_pubkey@)->0].fingerprint,
                ) && final(db)@ == pre
            } else if !pre.has_contacts_table {
                res matches Err(e) && database::is_db_error(e, DbFailure::NoSuchTable("main.contacts"@))
                    && final(db)@ == pre
            } else if pre.contact_index(fingerprint@) is None {
                res matches Err(e) && database::is_db_error(e, DbFailure::ForeignKey)
                    && final(db)@ == pre
            } else {
                res is Ok && final(db)@ == (DatabaseView {
                    nostr_identities: nostr_after_store(pre, fingerprint@, nostr_pubkey@, derivation_context@),
                    ..pre
                })
            }
        }),
{
    if !db.has_nostr_table {
        return Err(database::no_such_table("nostr_identities"));
    }
    let ghost pre = db@;
    let fp = fingerprint.to_owned();
    let pk = nostr_pubkey.to_owned();
    match find_by_pubkey(db, &pk) {
        Some(i) => {
            if db.nostr_identities[i].fingerprint != fp {
                let mut m = "Nostr pubkey ".to_owned();
                m.append(nostr_pubkey);
                m.append(" is already associated with fingerprint ");
                m.append(db.nostr_identities[i].fingerprint.as_str());
                return Err(LotlError::Storage(m));
            }
        },
        None => {},
    }
    if !db.has_contacts_table {
        return Err(database::no_such_table("main.contacts"));
    }
    match db.find_contact(&fp) {
        Some(c) => {
            proof {
                database::lemma_contact_index(pre, c as int);
            }
        },
        None => {
            return Err(database::foreign_key_failure());
        },
    }
    let ghost owner = nostr_index_by_pubkey(pre, pk@);
    match find_by_fingerprint(db, &fp) {
        Some(i) => {
            let _ = db.nostr_identities.remove(i);
        },
        None => {},
    }
    let ghost mid = db@;
    let row = NostrIdentityRow {
        fingerprint: fp,
        nostr_pubkey: pk,
        derivation_context: derivation_context.to_owned(),
    };
    db.nostr_identities.push(row);
    proof {
        let expect = nostr_after_store(pre, fingerprint@, nostr_pubkey@, derivation_context@);
        assert(db@.nostr_identities =~= expect);
        let n = db@.nostr_identities.len();
        assert forall|a: int, b: int| 0 <= a < b < n implies #[trigger] db@.nostr_identities[a].fingerprint
            != #[trigger] db@.nostr_identities[b].fingerprint && db@.nostr_identities[a].nostr_pubkey
            != db@.nostr_identities[b].nostr_pubkey by {
            lemma_store_pair(pre, db@, fingerprint@, nostr_pubkey@, derivation_context@, a, b);
        }
        assert forall|a: int, b: int| 0 <= a < b < n implies #[trigger] db@.nostr_identities[a].nostr_pubkey
            != #[trigger] db@.nostr_identities[b].nostr_pubkey by {
            lemma_store_pair(pre, db@, fingerprint@, nostr_pubkey@, derivation_context@, a, b);
        }
    }
    Ok(())
}

/// After a mapping is stored, the fingerprint's public key is the one stored (with its
/// derivation context), and the public key leads back to the fingerprint.
pub proof fn lemma_stored_nostr_identity_is_found(
    pre: DatabaseView,
    fingerprint: Seq<char>,
    nostr_pubkey: Seq<char>,
    derivation_context: Seq<char>,
)
    requires
        pre.wf(),
        nostr_index_by_pubkey(pre, nostr_pubkey) matches Some(i) ==> pre.nostr_identities[i].fingerprint
            == fingerprint,
    ensures
        ({
            let post = DatabaseView {
                nostr_identities: nostr_after_store(pre, fingerprint, nostr_pubkey, derivation_context),
                ..pre
            };
            &&& post.wf()
            &&& nostr_index_by_fingerprint(post, fingerprint) matches Some(i)
                && post.nostr_identities[i].nostr_pubkey == nostr_pubkey
                && post.nostr_identities[i].derivation_context == derivation_context
            &&& nostr_index_by_pubkey(post, nostr_pubkey) matches Some(j)
                && post.nostr_identities[j].fingerprint == fingerprint
        }),
{
    let post = DatabaseView {
        nostr_identities: nostr_after_store(pre, fingerprint, nostr_pubkey, derivation_context),
        ..pre
    };
    let n = post.nostr_identities.len();
    assert forall|a: int, b: int| 0 <= a < b < n implies #[trigger] post.nostr_identities[a].fingerprint
        != #[trigger] post.nostr_identities[b].fingerprint && post.nostr_identities[a].nostr_pubkey
        != post.nostr_identities[b].nostr_pubkey by {
        lemma_store_pair(pre, post, fingerprint, nostr_pubkey, derivation_context, a, b);
    }
    assert forall|a: int, b: int| 0 <= a < b < n implies #[trigger] post.nostr_identities[a].nostr_pubkey
        != #[trigger] post.nostr_identities[b].nostr_pubkey by {
        lemma_store_pair(pre, post, fingerprint, nostr_pubkey, derivation_context, a, b);
    }
    lemma_nostr_index(post, n - 1);
}

/// Storing a mapping leaves the mapping of every other fingerprint as it was: the same
/// row when it had one, none when it had none.
pub proof fn lemma_store_keeps_other_nostr_identities(
    pre: DatabaseView,
    fingerprint: Seq<char>,
    nostr_pubkey: Seq<char>,
    derivation_context: Seq<char>,
    other: Seq<char>,
)
    requires
        pre.wf(),
        nostr_index_by_pubkey(pre, nostr_pubkey) matches Some(i) ==> pre.nostr_identities[i].fingerprint
            == fingerprint,
        other != fingerprint,
    ensures
        ({
            let post = DatabaseView {
                nostr_identities: nostr_after_store(pre, fingerprint, nostr_pubkey, derivation_context),
                ..pre
            };
            match nostr_index_by_fingerprint(pre, other) {
                Some(i) => nostr_index_by_fingerprint(post, other) matches Some(j)
                    && post.nostr_identities[j] == pre.nostr_identities[i],
                None => nostr_index_by_fingerprint(post, other) is None,
            }
        }),
{
    let post = DatabaseView {
        nostr_identities: nostr_after_store(pre, fingerprint, nostr_pubkey, derivation_context),
        ..pre
    };
    lemma_stored_nostr_identity_is_found(pre, fingerprint, nostr_pubkey, derivation_context);
    let n = post.nostr_identities.len();
    match nostr_index_by_fingerprint(pre, other) {
        Some(i) => {
            lemma_nostr_index(pre, i);
            let i2 = match nostr_index_by_fingerprint(pre, fingerprint) {
                Some(r) => {
                    assert(i != r);
                    if i < r { i } else { i - 1 }
                },
                None => i,
            };
            assert(post.nostr_identities[i2] == pre.nostr_identities[i]);
            lemma_nostr_index(post, i2);
        },
        None => {
            if exists|j: int| 0 <= j < n && post.nostr_identities[j].fingerprint == other {
                let j = choose|j: int| 0 <= j < n && post.nostr_identities[j].fingerprint == other;
                if j < n - 1 {
                    match nostr_index_by_fingerprint(pre, fingerprint) {
                        Some(r) => {
                            let j0 = if j < r { j } else { j + 1 };
                            assert(post.nostr_identities[j] == pre.nostr_identities[j0]);
                            assert(0 <= j0 < pre.nostr_identities.len()
                                && pre.nostr_identities[j0].fingerprint == other);
                        },
                        None => {
                            assert(post.nostr_identities[j] == pre.nostr_identities[j]);
                            assert(0 <= j < pre.nostr_identities.len()
                                && pre.nostr_identities[j].fingerprint == other);
                        },
                    }
                }
            }
        },
    }
}

} // verus!
