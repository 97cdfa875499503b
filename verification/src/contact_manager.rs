//! Contact management and fingerprint generation.
//!
//! A fingerprint is the lowercase hexadecimal SHA-256 digest of an identity key
//! followed by a salt, with an optional prefix in front.

use vstd::prelude::*;
use vstd::utf8::encode_utf8;
use crate::database::{self, Database, DatabaseView};
use crate::clock;
use crate::error::LotlError;
use crate::hex_digest::{self, push_hex_lower, sha256_digest};
use crate::recency::{self, recency_order};
use crate::types::{
    copy_bytes, copy_contact, copy_opt_string, copy_string, own_opt_str, opt_str_view,
    ContactInfo, ContactView,
};

verus! {

/// The fingerprint of an identity key under a salt and a prefix.
pub open spec fn fingerprint_of(identity_key: Seq<u8>, salt: Seq<char>, prefix: Seq<char>) -> Seq<
    char,
> {
    prefix + hex_digest::hex_lower(hex_digest::sha256(identity_key + encode_utf8(salt)))
}

/// Generates the fingerprint `{prefix}{hex}` where `hex` is the lowercase hexadecimal
/// SHA-256 digest of the identity key followed by the UTF-8 bytes of the salt.
pub fn generate_fingerprint(identity_key: &[u8], salt: &str, prefix: &str) -> (fp: String)
    ensures
        fp@ == fingerprint_of(identity_key@, salt@, prefix@),
        fp@.len() == prefix@.len() + 64,
        fp@.subrange(0, prefix@.len() as int) == prefix@,
        forall|i: int|
            prefix@.len() <= i < fp@.len() ==> hex_digest::is_hex_digit(#[trigger] fp@[i]),
{
    let mut data = copy_bytes(identity_key);
    let salt_bytes = salt.as_bytes();
    let mut i: usize = 0;
    while i < salt_bytes.len()
        invariant
            i <= salt_bytes@.len(),
            data@ == identity_key@ + salt_bytes@.subrange(0, i as int),
        decreases salt_bytes@.len() - i,
    {
        data.push(salt_bytes[i]);
        i = i + 1;
        assert(data@ =~= identity_key@ + salt_bytes@.subrange(0, i as int));
    }
    assert(salt_bytes@.subrange(0, salt_bytes@.len() as int) =~= salt_bytes@);
    let digest = sha256_digest(data.as_slice());
    let mut fp = prefix.to_owned();
    push_hex_lower(&mut fp, digest.as_slice());
    proof {
        let h = hex_digest::hex_lower(digest@);
        hex_digest::lemma_hex_lower_shape(digest@);
        assert(fp@.subrange(0, prefix@.len() as int) =~= prefix@);
        assert forall|i: int| prefix@.len() <= i < fp@.len() implies hex_digest::is_hex_digit(
            #[trigger] fp@[i],
        ) by {
            assert(fp@[i] == h[i - prefix@.len()]);
        }
    }
    fp
}

/// Creates the contacts table if it does not exist.
pub fn init_contacts_table(db: &mut Database) -> (res: Result<(), LotlError>)
    requires
        old(db)@.wf(),
    ensures
        res is Ok,
        final(db)@ == (DatabaseView { has_contacts_table: true, ..old(db)@ }),
        final(db)@.wf(),
{
    db.has_contacts_table = true;
    Ok(())
}

/// The contacts after adding (or re-adding) a contact: an existing contact keeps its
/// `first_seen` and, when no alias is given, its alias; a new one is seen first now.
pub open spec fn contacts_after_add(
    db: DatabaseView,
    fingerprint: Seq<char>,
    identity_key: Seq<u8>,
    alias: Option<Seq<char>>,
    now: i64,
) -> Seq<ContactView> {
    match db.contact_index(fingerprint) {
        Some(i) => db.contacts.update(
            i,
            ContactView {
                signal_identity_key: identity_key,
                user_alias: if alias is Some {
                    alias
                } else {
                    db.contacts[i].user_alias
                },
                last_updated: now,
                ..db.contacts[i]
            },
        ),
        None => db.contacts.push(
            ContactView {
                fingerprint,
                signal_identity_key: identity_key,
                user_alias: alias,
                first_seen: now,
                last_updated: now,
            },
        ),
    }
}

/// What adding a contact at time `now` does.
pub open spec fn add_contact_outcome(
    pre: DatabaseView,
    post: DatabaseView,
    res: Result<String, LotlError>,
    identity_key: Seq<u8>,
    alias: Option<Seq<char>>,
    salt: Seq<char>,
    prefix: Seq<char>,
    now: i64,
) -> bool {
    let fp = fingerprint_of(identity_key, salt, prefix);
    if pre.has_contacts_table {
        &&& res matches Ok(f) && f@ == fp
        &&& post == (DatabaseView {
            contacts: contacts_after_add(pre, fp, identity_key, alias, now),
            ..pre
        })
    } else {
        &&& res matches Err(LotlError::Database(m)) && m@ == database::no_such_table_text(
            "contacts"@,
        )
        &&& post == pre
    }
}

/// Adds a contact, seen at time `now` (seconds since the Unix epoch), and returns its
/// fingerprint. A contact with the same fingerprint is updated instead: its identity
/// key and `last_updated` change, and its alias changes only when one is given.
#[verifier::spinoff_prover]
pub fn add_contact_at(
    db: &mut Database,
    identity_key: &[u8],
    alias: Option<&str>,
    salt: &str,
    prefix: &str,
    now: i64,
) -> (res: Result<String, LotlError>)
    requires
        old(db)@.wf(),
    ensures
        add_contact_outcome(
            old(db)@,
            final(db)@,
            res,
            identity_key@,
            opt_str_view(alias),
            salt@,
            prefix@,
            now,
        ),
        final(db)@.wf(),
{
    let fingerprint = generate_fingerprint(identity_key, salt, prefix);
    if !db.has_contacts_table {
        return Err(database::no_such_table("contacts"));
    }
    let ghost pre = db@;
    match db.find_contact(&fingerprint) {
        Some(i) => {
            proof {
                database::lemma_contact_index(pre, i as int);
            }
            let user_alias = match alias {
                Some(a) => Some(a.to_owned()),
                None => copy_opt_string(&db.contacts[i].user_alias),
            };
            let row = ContactInfo {
                fingerprint: copy_string(&fingerprint),
                signal_identity_key: copy_bytes(identity_key),
                user_alias,
                first_seen: db.contacts[i].first_seen,
                last_updated: now,
            };
            db.contacts.set(i, row);
            proof {
                let expect = contacts_after_add(pre, fingerprint@, identity_key@, opt_str_view(alias), now);
                assert(db@.contacts =~= expect);
            }
        },
        None => {
            let row = ContactInfo {
                fingerprint: copy_string(&fingerprint),
                signal_identity_key: copy_bytes(identity_key),
                user_alias: own_opt_str(alias),
                first_seen: now,
                last_updated: now,
            };
            db.contacts.push(row);
            proof {
                let expect = contacts_after_add(pre, fingerprint@, identity_key@, opt_str_view(alias), now);
                assert(db@.contacts =~= expect);
            }
        },
    }
    assert(db@ == (DatabaseView {
        contacts: contacts_after_add(pre, fingerprint@, identity_key@, opt_str_view(alias), now),
        ..pre
    }));
    Ok(fingerprint)
}

/// Adds a contact, seen now, and returns its fingerprint (see [`add_contact_at`]).
/// When the system clock reads earlier than the Unix epoch nothing is stored and a
/// crypto error is returned.
pub fn add_contact(
    db: &mut Database,
    identity_key: &[u8],
    alias: Option<&str>,
    salt: &str,
    prefix: &str,
) -> (res: Result<String, LotlError>)
    requires
        old(db)@.wf(),
    ensures
        final(db)@.wf(),
        (res matches Err(LotlError::Crypto(m)) && m@ == clock::clock_error_text() && final(db)@
            == old(db)@) || exists|now: i64|
            add_contact_outcome(
                old(db)@,
                final(db)@,
                res,
                identity_key@,
                opt_str_view(alias),
                salt@,
                prefix@,
                now,
            ),
{
    let now = clock::unix_now()?;
    add_contact_at(db, identity_key, alias, salt, prefix, now)
}

/// Looks up a contact by fingerprint.
pub fn lookup_contact(db: &Database, fingerprint: &str) -> (res: Result<Option<ContactInfo>, LotlError>)
    requires
        db@.wf(),
    ensures
        if db@.has_contacts_table {
            res matches Ok(r) && match db@.contact_index(fingerprint@) {
                Some(i) => r matches Some(c) && c@ == db@.contacts[i],
                None => r is None,
            }
        } else {
            res matches Err(LotlError::Database(m)) && m@ == database::no_such_table_text(
                "contacts"@,
            )
        },
{
    if !db.has_contacts_table {
        return Err(database::no_such_table("contacts"));
    }
    let key = fingerprint.to_owned();
    match db.find_contact(&key) {
        Some(i) => {
            proof {
                database::lemma_contact_index(db@, i as int);
            }
            Ok(Some(copy_contact(&db.contacts[i])))
        },
        None => Ok(None),
    }
}

/// The `last_updated` times of the contacts, in table order.
pub open spec fn contact_update_times(contacts: Seq<ContactView>) -> Seq<i64> {
    contacts.map_values(|c: ContactView| c.last_updated)
}

/// `listed` is every contact once, most recently updated first; among contacts updated
/// at the same time, the one stored later comes first.
pub open spec fn is_contact_listing(contacts: Seq<ContactView>, listed: Seq<ContactView>) -> bool {
    exists|p: Seq<int>|
        recency::is_recency_order(contact_update_times(contacts), p) && listed == p.map_values(
            |i: int| contacts[i],
        )
}

/// Lists all contacts, most recently updated first.
pub fn list_contacts(db: &Database) -> (res: Result<Vec<ContactInfo>, LotlError>)
    requires
        db@.wf(),
    ensures
        if db@.has_contacts_table {
            res matches Ok(v) && is_contact_listing(
                db@.contacts,
                v@.map_values(|c: ContactInfo| c@),
            )
        } else {
            res matches Err(LotlError::Database(m)) && m@ == database::no_such_table_text(
                "contacts"@,
            )
        },
{
    if !db.has_contacts_table {
        return Err(database::no_such_table("contacts"));
    }
    let mut keys: Vec<i64> = Vec::new();
    let mut i: usize = 0;
    while i < db.contacts.len()
        invariant
            i <= db@.contacts.len(),
            keys@ == contact_update_times(db@.contacts).take(i as int),
        decreases db@.contacts.len() - i,
    {
        keys.push(db.contacts[i].last_updated);
        i = i + 1;
        assert(keys@ =~= contact_update_times(db@.contacts).take(i as int));
    }
    assert(keys@ =~= contact_update_times(db@.contacts));
    let order = recency_order(&keys);
    let ghost p = recency::positions(order@);
    let mut out: Vec<ContactInfo> = Vec::new();
    let mut j: usize = 0;
    while j < order.len()
        invariant
            j <= order@.len(),
            recency::is_recency_order(keys@, p),
            p == recency::positions(order@),
            keys@ == contact_update_times(db@.contacts),
            out@.len() == j,
            forall|a: int| 0 <= a < j ==> (#[trigger] out@[a])@ == db@.contacts[p[a]],
        decreases order@.len() - j,
    {
        assert(p[j as int] == order@[j as int] as int);
        let c = copy_contact(&db.contacts[order[j]]);
        let ghost k = order@[j as int] as int;
        assert(c@ == db@.contacts[k]);
        out.push(c);
        j = j + 1;
    }
    assert(out@.map_values(|c: ContactInfo| c@) =~= p.map_values(|i: int| db@.contacts[i]));
    Ok(out)
}

/// What setting a contact's alias at time `now` does: the alias is replaced (cleared
/// when `None`) and `last_updated` becomes `now`.
pub open spec fn update_alias_outcome(
    pre: DatabaseView,
    post: DatabaseView,
    res: Result<(), LotlError>,
    fingerprint: Seq<char>,
    alias: Option<Seq<char>>,
    now: i64,
) -> bool {
    if !pre.has_contacts_table {
        &&& res matches Err(LotlError::Database(m)) && m@ == database::no_such_table_text(
            "contacts"@,
        )
        &&& post == pre
    } else {
        match pre.contact_index(fingerprint) {
            Some(i) => {
                &&& res is Ok
                &&& post == (DatabaseView {
                    contacts: pre.contacts.update(
                        i,
                        ContactView { user_alias: alias, last_updated: now, ..pre.contacts[i] },
                    ),
                    ..pre
                })
            },
            None => {
                &&& res matches Err(LotlError::ContactNotFound(m)) && m@ == fingerprint
                &&& post == pre
            },
        }
    }
}

/// Sets a contact's alias at time `now` (seconds since the Unix epoch).
#[verifier::spinoff_prover]
pub fn update_contact_alias_at(
    db: &mut Database,
    fingerprint: &str,
    alias: Option<&str>,
    now: i64,
) -> (res: Result<(), LotlError>)
    requires
        old(db)@.wf(),
    ensures
        update_alias_outcome(old(db)@, final(db)@, res, fingerprint@, opt_str_view(alias), now),
        final(db)@.wf(),
{
    if !db.has_contacts_table {
        return Err(database::no_such_table("contacts"));
    }
    let key = fingerprint.to_owned();
    let ghost pre = db@;
    match db.find_contact(&key) {
        Some(i) => {
            proof {
                database::lemma_contact_index(pre, i as int);
            }
            let row = ContactInfo {
                fingerprint: key,
                signal_identity_key: copy_bytes(db.contacts[i].signal_identity_key.as_slice()),
                user_alias: own_opt_str(alias),
                first_seen: db.contacts[i].first_seen,
                last_updated: now,
            };
            db.contacts.set(i, row);
            proof {
                let c = ContactView { user_alias: opt_str_view(alias), last_updated: now, ..pre.contacts[i as int] };
                assert(db@.contacts =~= pre.contacts.update(i as int, c));
                assert(db@ == DatabaseView { contacts: pre.contacts.update(i as int, c), ..pre });
                database::lemma_contact_update_keeps_wf(pre, i as int, c);
            }
            Ok(())
        },
        None => Err(LotlError::ContactNotFound(key)),
    }
}

/// Sets a contact's alias, now (see [`update_contact_alias_at`]). When the system clock
/// reads earlier than the Unix epoch nothing changes and a crypto error is returned.
pub fn update_contact_alias(db: &mut Database, fingerprint: &str, alias: Option<&str>) -> (res:
    Result<(), LotlError>)
    requires
        old(db)@.wf(),
    ensures
        final(db)@.wf(),
        (res matches Err(LotlError::Crypto(m)) && m@ == clock::clock_error_text() && final(db)@
            == old(db)@) || exists|now: i64|
            update_alias_outcome(
                old(db)@,
                final(db)@,
                res,
                fingerprint@,
                opt_str_view(alias),
                now,
            ),
{
    let now = clock::unix_now()?;
    update_contact_alias_at(db, fingerprint, alias, now)
}

/// The database after adding a contact.
pub open spec fn db_after_add(
    pre: DatabaseView,
    identity_key: Seq<u8>,
    alias: Option<Seq<char>>,
    salt: Seq<char>,
    prefix: Seq<char>,
    now: i64,
) -> DatabaseView {
    DatabaseView {
        contacts: contacts_after_add(pre, fingerprint_of(identity_key, salt, prefix), identity_key, alias, now),
        ..pre
    }
}

/// Looking up a contact right after adding it finds it: with the identity key it was
/// added with, updated now, and with the alias it was given (if any).
pub proof fn lemma_added_contact_is_found(
    pre: DatabaseView,
    identity_key: Seq<u8>,
    alias: Option<Seq<char>>,
    salt: Seq<char>,
    prefix: Seq<char>,
    now: i64,
)
    requires
        pre.wf(),
    ensures
        ({
            let fp = fingerprint_of(identity_key, salt, prefix);
            let post = db_after_add(pre, identity_key, alias, salt, prefix, now);
            &&& post.wf()
            &&& post.contact_index(fp) matches Some(i) && {
                &&& post.contacts[i].fingerprint == fp
                &&& post.contacts[i].signal_identity_key == identity_key
                &&& post.contacts[i].last_updated == now
                &&& (alias is Some ==> post.contacts[i].user_alias == alias)
            }
        }),
{
    let fp = fingerprint_of(identity_key, salt, prefix);
    let post = db_after_add(pre, identity_key, alias, salt, prefix, now);
    match pre.contact_index(fp) {
        Some(i) => {
            assert forall|a: int, b: int| 0 <= a < b < post.contacts.len() implies #[trigger] post.contacts[a].fingerprint
                != #[trigger] post.contacts[b].fingerprint by {
                assert(post.contacts[a].fingerprint == pre.contacts[a].fingerprint);
                assert(post.contacts[b].fingerprint == pre.contacts[b].fingerprint);
            }
            database::lemma_contact_index(post, i);
        },
        None => {
            let n = pre.contacts.len() as int;
            assert forall|a: int, b: int| 0 <= a < b < post.contacts.len() implies #[trigger] post.contacts[a].fingerprint
                != #[trigger] post.contacts[b].fingerprint by {
                assert(post.contacts[a] == pre.contacts[a]);
                if b < n {
                    assert(post.contacts[b] == pre.contacts[b]);
                } else {
                    if pre.contacts[a].fingerprint == fp {
                        assert(0 <= a < pre.contacts.len() && pre.contacts[a].fingerprint == fp);
                    }
                }
            }
            database::lemma_contact_index(post, n);
        },
    }
}

/// Adding a contact that is already stored adds no row and keeps when it was first seen.
pub proof fn lemma_readded_contact_keeps_first_seen(
    pre: DatabaseView,
    identity_key: Seq<u8>,
    alias: Option<Seq<char>>,
    salt: Seq<char>,
    prefix: Seq<char>,
    now: i64,
)
    requires
        pre.wf(),
        pre.contact_index(fingerprint_of(identity_key, salt, prefix)) is Some,
    ensures
        ({
            let i = pre.contact_index(fingerprint_of(identity_key, salt, prefix))->0;
            let post = db_after_add(pre, identity_key, alias, salt, prefix, now);
            &&& post.contacts.len() == pre.contacts.len()
            &&& post.contacts[i].first_seen == pre.contacts[i].first_seen
            &&& alias is None ==> post.contacts[i].user_alias == pre.contacts[i].user_alias
        }),
{
}

} // verus!
