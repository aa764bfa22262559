//! The item store: the sealed records of the vault.

use vstd::prelude::*;
use vstd::string::StringExecFns;
use crate::crypto::{
    bytes_result_view, encrypt_blob, is_sealing_of, open_outcome, open_stored, sealable,
};
use crate::catalog::{
    count_id, first_with_id, lemma_upserted_lists_once, lemma_without_id_lists_none, remove_entry,
    upserted, without_id, CatalogEntry,
};
use crate::db::{copy_bytes, ItemRow, Vault};
use crate::error::VaultError;
use crate::text::{trim, trimmed};
use crate::util::{is_record_id, new_id, now_unix};

verus! {

/// The fields of a record, in the clear.
#[derive(Debug)]
pub struct ItemPlain {
    pub title: String,
    pub username: String,
    pub password: String,
    pub notes: String,
}

/// A record sealed under the session's key: its nonce, its ciphertext,
/// and the time of sealing.
#[derive(Debug)]
pub struct SealedItem {
    pub nonce: Vec<u8>,
    pub ciphertext: Vec<u8>,
    pub stamp: i64,
}

/// What loading a record returns: `NotFound` where the vault has no row
/// for it, the error of `open_outcome` for a row that does not open, and
/// otherwise the encoded record.
pub open spec fn load_item_outcome(key: Seq<u8>, row: Option<ItemRow>) -> Result<
    Seq<u8>,
    VaultError,
> {
    match row {
        None => Err(VaultError::NotFound),
        Some(row) => open_outcome(key, row.nonce@, row.ciphertext@),
    }
}

/// Opens the row of a record, if the vault has one, and returns the
/// encoded record.
pub fn load_item(v: &Vault, row: Option<ItemRow>) -> (r: Result<Vec<u8>, VaultError>)
    ensures
        bytes_result_view(r) == load_item_outcome(v.key@, row),
{
    match row {
        None => Err(VaultError::NotFound),
        Some(row) => open_stored(v.key.expose(), row.nonce.as_slice(), row.ciphertext.as_slice()),
    }
}

/// The lines that show a record: title, user name and password, and the
/// notes unless they are blank.
pub open spec fn shown(item: ItemPlain) -> Seq<Seq<char>> {
    let head = seq![
        "Title:    "@ + item.title@,
        "Username: "@ + item.username@,
        "Password: "@ + item.password@,
    ];
    if trimmed(item.notes@).len() == 0 {
        head
    } else {
        head.push("Notes:    "@ + item.notes@)
    }
}

/// The texts of a list of strings.
pub open spec fn texts(lines: Seq<String>) -> Seq<Seq<char>> {
    lines.map_values(|s: String| s@)
}

/// The lines that show a record.
pub fn show_item(item: &ItemPlain) -> (lines: Vec<String>)
    ensures
        texts(lines@) == shown(*item),
{
    let mut lines: Vec<String> = Vec::new();
    lines.push(String::from_str("Title:    ").concat(item.title.as_str()));
    lines.push(String::from_str("Username: ").concat(item.username.as_str()));
    lines.push(String::from_str("Password: ").concat(item.password.as_str()));
    if !trim(item.notes.as_str()).is_empty() {
        lines.push(String::from_str("Notes:    ").concat(item.notes.as_str()));
    }
    assert(texts(lines@) =~= shown(*item));
    lines
}

/// Seals an encoded record under the session's key and a fresh nonce, and
/// stamps it with the time. It fails with `Crypto` where the random source
/// fails.
pub fn seal_item(v: &Vault, encoded: &[u8]) -> (r: Result<SealedItem, VaultError>)
    ensures
        match r {
            Ok(sealed) => sealable(encoded@) && sealed.nonce@.len() == 12 && is_sealing_of(
                v.key@,
                encoded@,
                sealed.nonce@,
                sealed.ciphertext@,
            ) && sealed.stamp >= 0,
            Err(e) => e == VaultError::Crypto,
        },
        !sealable(encoded@) ==> r is Err,
{
    match encrypt_blob(v.key.expose(), encoded) {
        Ok((ciphertext, nonce)) => {
            let stamp = now_unix();
            Ok(SealedItem { nonce: copy_bytes(nonce.as_slice()), ciphertext, stamp })
        },
        Err(e) => Err(e),
    }
}

/// Makes the row of a new record from its encoding: seals it, gives it a
/// new random id, the hexadecimal form of sixteen random bytes, and stamps
/// it as made and written at the same time. It fails with `Crypto` where
/// the random source fails.
pub fn add_item_interactive(v: &Vault, encoded: &[u8]) -> (r: Result<ItemRow, VaultError>)
    ensures
        match r {
            Ok(row) => {
                &&& sealable(encoded@)
                &&& is_record_id(row.id@)
                &&& row.nonce@.len() == 12
                &&& is_sealing_of(v.key@, encoded@, row.nonce@, row.ciphertext@)
                &&& row.created_at == row.updated_at
                &&& row.created_at >= 0
            },
            Err(e) => e == VaultError::Crypto,
        },
        !sealable(encoded@) ==> r is Err,
{
    let sealed = match seal_item(v, encoded) {
        Ok(s) => s,
        Err(e) => { return Err(e); },
    };
    let id = match new_id() {
        Ok(id) => id,
        Err(e) => { return Err(e); },
    };
    Ok(
        ItemRow {
            id,
            nonce: sealed.nonce,
            ciphertext: sealed.ciphertext,
            created_at: sealed.stamp,
            updated_at: sealed.stamp,
        },
    )
}

/// Adding a record lists it once: when the catalog records the row of a
/// new record under its title, the catalog has an entry with the row's id,
/// which is a record id, the title and the row's time stamp; and a catalog
/// that listed the id at most once before lists it exactly once.
pub proof fn lemma_added_record_is_listed_once(s: Seq<CatalogEntry>, row: ItemRow, title: String)
    requires
        is_record_id(row.id@),
        count_id(s, row.id@) <= 1,
    ensures
        ({
            let out = upserted(s, row.id, title, row.updated_at);
            let i = first_with_id(s, row.id@);
            &&& count_id(out, row.id@) == 1
            &&& 0 <= i < out.len()
            &&& is_record_id(out[i].id@)
            &&& out[i].id@ == row.id@
            &&& out[i].title == title
            &&& out[i].updated_at == row.updated_at
        }),
{
    lemma_upserted_lists_once(s, row.id, title, row.updated_at);
}

/// What a stored record opens to is what was sealed: the row that
/// `add_item_interactive` or `seal_item` makes for an encoding, `load_item`
/// opens to that encoding.
pub proof fn lemma_load_inverts_add(key: Seq<u8>, encoded: Seq<u8>, row: ItemRow)
    requires
        row.nonce@.len() == 12,
        is_sealing_of(key, encoded, row.nonce@, row.ciphertext@),
    ensures
        load_item_outcome(key, Some(row)) == Ok::<Seq<u8>, VaultError>(encoded),
{
}

/// The record after an edit: title, user name and notes as given, and the
/// password as given or, where none is given, as it was.
pub open spec fn edited(
    item: ItemPlain,
    title: String,
    username: String,
    password: Option<String>,
    notes: String,
) -> ItemPlain {
    ItemPlain {
        title,
        username,
        password: match password {
            Some(p) => p,
            None => item.password,
        },
        notes,
    }
}

/// Applies an edit to a record: sets title, user name and notes, and the
/// password only where a new one is given.
pub fn edit_item(
    item: ItemPlain,
    title: String,
    username: String,
    password: Option<String>,
    notes: String,
) -> (r: ItemPlain)
    ensures
        r == edited(item, title, username, password, notes),
{
    let ItemPlain { title: _, username: _, password: current, notes: _ } = item;
    let password = match password {
        Some(p) => p,
        None => current,
    };
    ItemPlain { title, username, password, notes }
}

/// Judges the number of rows that the update of a record changed: none
/// means that the record is gone, which is `NotFound`.
pub fn updated_or_gone(rows: usize) -> (r: Result<(), VaultError>)
    ensures
        r == if rows == 0 {
            Err::<(), VaultError>(VaultError::NotFound)
        } else {
            Ok::<(), VaultError>(())
        },
{
    if rows == 0 {
        Err(VaultError::NotFound)
    } else {
        Ok(())
    }
}

/// What the deletion of a record leaves and reports.
#[derive(Debug)]
pub struct Deletion {
    /// The catalog without the record: what is to be saved.
    pub entries: Vec<CatalogEntry>,
    /// Whether the vault held a row for the record. That it held none is
    /// reported, and is no error.
    pub found: bool,
    /// Whether the catalog listed the record.
    pub was_listed: bool,
}

/// Finishes the deletion of a record, once the statement that deletes its
/// row has removed `rows` rows: takes every entry with the record's id out
/// of the catalog, whether or not a row was removed, and reports whether
/// there was a row and whether there was an entry.
pub fn delete_item(entries: Vec<CatalogEntry>, id: &str, rows: usize) -> (r: Deletion)
    ensures
        r.entries@ == without_id(entries@, id@),
        count_id(r.entries@, id@) == 0,
        r.found == (rows != 0),
        r.was_listed == (r.entries@.len() != entries@.len()),
{
    proof {
        lemma_without_id_lists_none(entries@, id@, id@);
    }
    let (left, was_listed) = remove_entry(entries, id);
    Deletion { entries: left, found: rows != 0, was_listed }
}

} // verus!
