//! The catalog: the one encrypted index of record metadata. It is stored
//! as a single sealed blob, listed in a fixed order, and kept in step with
//! the records as they are written and deleted.

use vstd::prelude::*;
use crate::crypto::{encrypt_blob, is_sealing_of, open_outcome, open_stored, sealable};
use crate::db::{copy_bytes, CatalogRow, Vault};
use crate::error::VaultError;
use crate::order::{in_order, sort_entries, sorted_entries, SortOrder};
use crate::text::str_eq;
use crate::util::now_unix;

pub use crate::order::entry_before;
pub use crate::search::{holds, search, DeepSearch, SearchHit};
pub use crate::selector::{resolve_in_view, resolve_selector_to_id};

verus! {

/// One entry of the catalog: the id of a record, its title, and when it
/// last changed, in seconds since the Unix epoch.
#[derive(Debug)]
pub struct CatalogEntry {
    pub id: String,
    pub title: String,
    pub updated_at: i64,
}

/// The catalog in the order of listings: by title without regard to case,
/// entries with one title by id.
pub fn load_catalog_sorted(entries: Vec<CatalogEntry>) -> (out: Vec<CatalogEntry>)
    ensures
        out@ == sorted_entries(entries@, SortOrder::ByTitle),
        in_order(out@, SortOrder::ByTitle),
        out@.to_multiset() == entries@.to_multiset(),
        out@.len() == entries@.len(),
{
    sort_entries(entries, SortOrder::ByTitle)
}

/// The plaintext of an empty catalog: the two bytes `[]`.
pub open spec fn empty_catalog_text() -> Seq<u8> {
    seq![91u8, 93u8]
}

/// What making sure of the catalog returns for a vault with `count`
/// catalog rows: nothing to insert where a row exists, and otherwise a row
/// that seals the empty catalog under the key, or `Crypto` where the
/// random source fails.
pub open spec fn catalog_ensured(
    count: i64,
    key: Seq<u8>,
    r: Result<Option<CatalogRow>, VaultError>,
) -> bool {
    if count != 0 {
        r is Ok && r->Ok_0 is None
    } else {
        match r {
            Ok(Some(row)) => row.nonce@.len() == 12 && is_sealing_of(
                key,
                empty_catalog_text(),
                row.nonce@,
                row.ciphertext@,
            ),
            Ok(None) => false,
            Err(e) => e == VaultError::Crypto,
        }
    }
}

/// The catalog row of a new vault, if the vault has none: the sealed empty
/// catalog. `count` is the number of catalog rows that the vault holds.
///
/// Where a row exists nothing is made, so that opening a vault again never
/// adds a second row. It fails with `Crypto` where the random source
/// fails.
pub fn ensure_empty_catalog(count: i64, key: &[u8; 32]) -> (r: Result<Option<CatalogRow>, VaultError>)
    ensures
        catalog_ensured(count, key@, r),
{
    if count != 0 {
        return Ok(None);
    }
    let mut plaintext: Vec<u8> = Vec::new();
    plaintext.push(91u8);
    plaintext.push(93u8);
    assert(plaintext@ =~= empty_catalog_text());
    match encrypt_blob(key, plaintext.as_slice()) {
        Ok((ciphertext, nonce)) => {
            let now = now_unix();
            Ok(Some(CatalogRow { nonce: copy_bytes(nonce.as_slice()), ciphertext, updated_at: now }))
        },
        Err(e) => Err(e),
    }
}

/// What loading the catalog returns: the error of `open_outcome`, nothing
/// for an empty plaintext, which stands for the empty catalog, and
/// otherwise the plaintext to decode.
pub open spec fn load_catalog_outcome(key: Seq<u8>, row: CatalogRow) -> Result<
    Option<Seq<u8>>,
    VaultError,
> {
    match open_outcome(key, row.nonce@, row.ciphertext@) {
        Ok(plaintext) => if plaintext.len() == 0 {
            Ok(None)
        } else {
            Ok(Some(plaintext))
        },
        Err(e) => Err(e),
    }
}

/// The bytes of a catalog result.
pub open spec fn catalog_result_view(r: Result<Option<Vec<u8>>, VaultError>) -> Result<
    Option<Seq<u8>>,
    VaultError,
> {
    match r {
        Ok(Some(bytes)) => Ok(Some(bytes@)),
        Ok(None) => Ok(None),
        Err(e) => Err(e),
    }
}

/// Opens the catalog row and returns the encoded catalog, or nothing for
/// the empty catalog.
pub fn load_catalog(v: &Vault, row: &CatalogRow) -> (r: Result<Option<Vec<u8>>, VaultError>)
    ensures
        catalog_result_view(r) == load_catalog_outcome(v.key@, *row),
{
    match open_stored(v.key.expose(), row.nonce.as_slice(), row.ciphertext.as_slice()) {
        Ok(plaintext) => {
            if plaintext.len() == 0 {
                Ok(None)
            } else {
                Ok(Some(plaintext))
            }
        },
        Err(e) => Err(e),
    }
}

/// Seals an encoded catalog under a fresh nonce, as the row that replaces
/// the catalog row. It fails with `Crypto` where the random source fails.
pub fn save_catalog(v: &Vault, encoded: &[u8]) -> (r: Result<CatalogRow, VaultError>)
    ensures
        match r {
            Ok(row) => sealable(encoded@) && row.nonce@.len() == 12 && is_sealing_of(
                v.key@,
                encoded@,
                row.nonce@,
                row.ciphertext@,
            ) && row.updated_at >= 0,
            Err(e) => e == VaultError::Crypto,
        },
        !sealable(encoded@) ==> r is Err,
{
    match encrypt_blob(v.key.expose(), encoded) {
        Ok((ciphertext, nonce)) => {
            let now = now_unix();
            Ok(CatalogRow { nonce: copy_bytes(nonce.as_slice()), ciphertext, updated_at: now })
        },
        Err(e) => Err(e),
    }
}

/// What `save_catalog` writes, `load_catalog` reads back: a row that seals
/// an encoded catalog under the session's key opens to that encoding, or
/// to nothing if the encoding is empty.
pub proof fn lemma_load_inverts_save(key: Seq<u8>, encoded: Seq<u8>, row: CatalogRow)
    requires
        row.nonce@.len() == 12,
        is_sealing_of(key, encoded, row.nonce@, row.ciphertext@),
    ensures
        load_catalog_outcome(key, row) == if encoded.len() == 0 {
            Ok::<Option<Seq<u8>>, VaultError>(None)
        } else {
            Ok::<Option<Seq<u8>>, VaultError>(Some(encoded))
        },
{
}

/// How many entries have an id.
pub open spec fn count_id(s: Seq<CatalogEntry>, id: Seq<char>) -> nat
    decreases s.len(),
{
    if s.len() == 0 {
        0
    } else {
        count_id(s.drop_last(), id) + if s.last().id@ == id {
            1nat
        } else {
            0nat
        }
    }
}

/// The position of the first entry with an id, or the length of the
/// entries where none has it.
pub open spec fn first_with_id(s: Seq<CatalogEntry>, id: Seq<char>) -> int
    decreases s.len(),
{
    if s.len() == 0 || s[0].id@ == id {
        0
    } else {
        1 + first_with_id(s.drop_first(), id)
    }
}

/// The catalog once a record has been written: the first entry with the
/// record's id gets the title and the time stamp, and where no entry has
/// the id a new one is added at the end.
pub open spec fn upserted(s: Seq<CatalogEntry>, id: String, title: String, now: i64) -> Seq<
    CatalogEntry,
> {
    let i = first_with_id(s, id@);
    if i < s.len() {
        s.update(i, CatalogEntry { id: s[i].id, title, updated_at: now })
    } else {
        s.push(CatalogEntry { id, title, updated_at: now })
    }
}

/// The test for an entry with another id.
pub open spec fn has_other_id(id: Seq<char>) -> spec_fn(CatalogEntry) -> bool {
    |e: CatalogEntry| e.id@ != id
}

/// The catalog once a record has been deleted: the entries with another
/// id, in their order.
pub open spec fn without_id(s: Seq<CatalogEntry>, id: Seq<char>) -> Seq<CatalogEntry> {
    s.filter(has_other_id(id))
}

proof fn lemma_first_with_id(s: Seq<CatalogEntry>, id: Seq<char>)
    ensures
        0 <= first_with_id(s, id) <= s.len(),
        forall|k: int| 0 <= k < first_with_id(s, id) ==> (#[trigger] s[k]).id@ != id,
        first_with_id(s, id) < s.len() ==> s[first_with_id(s, id)].id@ == id,
    decreases s.len(),
{
    if s.len() == 0 || s[0].id@ == id {
    } else {
        let rest = s.drop_first();
        lemma_first_with_id(rest, id);
        assert forall|k: int| 0 <= k < first_with_id(s, id) implies (#[trigger] s[k]).id@ != id by {
            if k > 0 {
                assert(s[k] == rest[k - 1]);
            }
        }
        if first_with_id(s, id) < s.len() {
            assert(s[first_with_id(s, id)] == rest[first_with_id(rest, id)]);
        }
    }
}

proof fn lemma_first_with_id_is(s: Seq<CatalogEntry>, id: Seq<char>, i: int)
    requires
        0 <= i <= s.len(),
        forall|k: int| 0 <= k < i ==> (#[trigger] s[k]).id@ != id,
        i < s.len() ==> s[i].id@ == id,
    ensures
        first_with_id(s, id) == i,
    decreases s.len(),
{
    if i > 0 {
        let rest = s.drop_first();
        assert(s[0].id@ != id);
        assert forall|k: int| 0 <= k < i - 1 implies (#[trigger] rest[k]).id@ != id by {
            assert(rest[k] == s[k + 1]);
        }
        if i - 1 < rest.len() {
            assert(rest[i - 1] == s[i]);
        }
        lemma_first_with_id_is(rest, id, i - 1);
    }
}

proof fn lemma_count_none(s: Seq<CatalogEntry>, id: Seq<char>)
    requires
        forall|k: int| 0 <= k < s.len() ==> (#[trigger] s[k]).id@ != id,
    ensures
        count_id(s, id) == 0,
    decreases s.len(),
{
    if s.len() > 0 {
        assert forall|k: int| 0 <= k < s.drop_last().len() implies (#[trigger] s.drop_last()[k]).id@
            != id by {
            assert(s.drop_last()[k] == s[k]);
        }
        lemma_count_none(s.drop_last(), id);
    }
}

proof fn lemma_count_same_ids(s: Seq<CatalogEntry>, t: Seq<CatalogEntry>, id: Seq<char>)
    requires
        s.len() == t.len(),
        forall|k: int| 0 <= k < s.len() ==> (#[trigger] s[k]).id@ == t[k].id@,
    ensures
        count_id(s, id) == count_id(t, id),
    decreases s.len(),
{
    if s.len() > 0 {
        assert forall|k: int| 0 <= k < s.drop_last().len() implies (#[trigger] s.drop_last()[k]).id@
            == t.drop_last()[k].id@ by {
            assert(s.drop_last()[k] == s[k]);
            assert(t.drop_last()[k] == t[k]);
        }
        lemma_count_same_ids(s.drop_last(), t.drop_last(), id);
    }
}

proof fn lemma_count_some(s: Seq<CatalogEntry>, id: Seq<char>, i: int)
    requires
        0 <= i < s.len(),
        s[i].id@ == id,
    ensures
        count_id(s, id) >= 1,
    decreases s.len(),
{
    if i < s.len() - 1 {
        assert(s.drop_last()[i] == s[i]);
        lemma_count_some(s.drop_last(), id, i);
    }
}

/// After a record is written the catalog lists it, with its title and time
/// stamp, under the id it was written with; a catalog that listed the id
/// at most once lists it exactly once; and every entry with another id is
/// as it was.
pub proof fn lemma_upserted_lists_once(s: Seq<CatalogEntry>, id: String, title: String, now: i64)
    ensures
        ({
            let out = upserted(s, id, title, now);
            let i = first_with_id(s, id@);
            &&& 0 <= i < out.len()
            &&& out[i].id@ == id@
            &&& out[i].title == title
            &&& out[i].updated_at == now
            &&& first_with_id(out, id@) == i
            &&& count_id(s, id@) <= 1 ==> count_id(out, id@) == 1
            &&& forall|k: int| 0 <= k < s.len() && k != i ==> #[trigger] out[k] == s[k]
        }),
{
    let out = upserted(s, id, title, now);
    let i = first_with_id(s, id@);
    lemma_first_with_id(s, id@);
    if i < s.len() {
        assert forall|k: int| 0 <= k < s.len() implies (#[trigger] out[k]).id@ == s[k].id@ by {}
        lemma_count_same_ids(out, s, id@);
        lemma_count_some(s, id@, i);
        assert forall|k: int| 0 <= k < i implies (#[trigger] out[k]).id@ != id@ by {
            assert(out[k] == s[k]);
        }
        lemma_first_with_id_is(out, id@, i);
    } else {
        lemma_count_none(s, id@);
        assert(out.drop_last() =~= s);
        assert forall|k: int| 0 <= k < i implies (#[trigger] out[k]).id@ != id@ by {
            assert(out[k] == s[k]);
        }
        lemma_first_with_id_is(out, id@, i);
    }
}

/// After a record is deleted no entry of the catalog has its id, and the
/// entries with any other id are as many as before.
pub proof fn lemma_without_id_lists_none(s: Seq<CatalogEntry>, id: Seq<char>, other: Seq<char>)
    ensures
        count_id(without_id(s, id), id) == 0,
        other != id ==> count_id(without_id(s, id), other) == count_id(s, other),
    decreases s.len(),
{
    reveal(Seq::filter);
    if s.len() > 0 {
        lemma_without_id_lists_none(s.drop_last(), id, other);
        let kept = without_id(s.drop_last(), id);
        if s.last().id@ != id {
            assert(without_id(s, id) == kept.push(s.last()));
            assert(kept.push(s.last()).drop_last() =~= kept);
        }
    }
}

/// Records in the catalog that a record was written: sets the title and
/// time stamp of the first entry with the record's id, or adds an entry
/// where none has it.
pub fn upsert_entry(entries: &mut Vec<CatalogEntry>, id: String, title: String, now: i64)
    ensures
        final(entries)@ == upserted(old(entries)@, id, title, now),
{
    let mut i: usize = 0;
    while i < entries.len()
        invariant
            i <= entries@.len(),
            entries@ == old(entries)@,
            forall|k: int| 0 <= k < i ==> (#[trigger] entries@[k]).id@ != id@,
        decreases entries@.len() - i,
    {
        if str_eq(entries[i].id.as_str(), id.as_str()) {
            proof {
                lemma_first_with_id_is(entries@, id@, i as int);
            }
            let kept = entries[i].id.clone();
            entries.set(i, CatalogEntry { id: kept, title, updated_at: now });
            return ;
        }
        i += 1;
    }
    proof {
        lemma_first_with_id_is(entries@, id@, i as int);
    }
    entries.push(CatalogEntry { id, title, updated_at: now });
}

/// Takes the entries of a deleted record out of the catalog, and says
/// whether there was any.
pub fn remove_entry(entries: Vec<CatalogEntry>, id: &str) -> (r: (Vec<CatalogEntry>, bool))
    ensures
        r.0@ == without_id(entries@, id@),
        r.1 == (r.0@.len() != entries@.len()),
{
    let ghost all = entries@;
    let ghost pred = has_other_id(id@);
    let mut kept = entries;
    let total = kept.len();
    let mut i: usize = 0;
    let mut removed: usize = 0;
    proof {
        reveal(Seq::filter);
        assert(all.take(0) =~= Seq::<CatalogEntry>::empty());
        assert(all.skip(0) =~= all);
    }
    while i < kept.len()
        invariant
            pred == has_other_id(id@),
            total == all.len(),
            i + removed <= all.len(),
            i <= kept@.len(),
            kept@.len() + removed == all.len(),
            kept@.take(i as int) == all.take(i + removed).filter(pred),
            kept@.skip(i as int) == all.skip(i + removed),
        decreases kept@.len() - i,
    {
        let ghost j = (i + removed) as int;
        proof {
            assert(kept@[i as int] == kept@.skip(i as int)[0]);
            assert(all[j] == all.skip(j)[0]);
            assert(all.take(j + 1) =~= all.take(j).push(all[j]));
            all.take(j).lemma_filter_push(all[j], pred);
        }
        if str_eq(kept[i].id.as_str(), id) {
            let ghost before = kept@;
            kept.remove(i);
            removed += 1;
            assert(kept@.take(i as int) =~= before.take(i as int));
            assert(kept@.skip(i as int) =~= before.skip(i as int).drop_first());
            assert(all.skip(j).drop_first() =~= all.skip(j + 1));
        } else {
            assert(kept@.take(i + 1) =~= kept@.take(i as int).push(kept@[i as int]));
            assert(kept@.skip(i as int).drop_first() =~= kept@.skip(i + 1));
            assert(all.skip(j).drop_first() =~= all.skip(j + 1));
            i += 1;
        }
    }
    assert(kept@.take(kept@.len() as int) =~= kept@);
    assert(all.take(all.len() as int) =~= all);
    (kept, removed > 0)
}

/// One line of a listing of the catalog.
#[derive(Debug)]
pub struct ListRow {
    /// Position in the listing, counted from one: the number that selects
    /// the record.
    pub index: usize,
    /// The start of the id.
    pub id_short: String,
    pub title: String,
    pub updated_at: i64,
}

/// How many characters of an id a listing shows.
pub const SHORT_ID_LEN: usize = 12;

/// The start of an id that a listing shows: the first twelve characters
/// of an ASCII id that has as many, and otherwise the whole id.
pub open spec fn short_id(id: Seq<char>) -> Seq<char> {
    if vstd::utf8::is_ascii_chars(id) && id.len() >= SHORT_ID_LEN {
        id.subrange(0, SHORT_ID_LEN as int)
    } else {
        id
    }
}

/// The line of a listing for the entry at a position of the view.
pub open spec fn is_row_of(row: ListRow, view: Seq<CatalogEntry>, i: int) -> bool {
    &&& row.index == i + 1
    &&& row.id_short@ == short_id(view[i].id@)
    &&& row.title == view[i].title
    &&& row.updated_at == view[i].updated_at
}

/// The lines of a listing of the catalog: one for each entry, in the
/// order of listings, numbered from one.
pub fn list_items(entries: Vec<CatalogEntry>) -> (rows: Vec<ListRow>)
    ensures
        rows@.len() == entries@.len(),
        forall|i: int|
            0 <= i < rows@.len() ==> is_row_of(
                #[trigger] rows@[i],
                sorted_entries(entries@, SortOrder::ByTitle),
                i,
            ),
{
    let view = load_catalog_sorted(entries);
    let mut rows: Vec<ListRow> = Vec::new();
    let mut i: usize = 0;
    while i < view.len()
        invariant
            i <= view@.len(),
            rows@.len() == i,
            forall|k: int| 0 <= k < i ==> is_row_of(#[trigger] rows@[k], view@, k),
        decreases view@.len() - i,
    {
        let id = view[i].id.as_str();
        let id_short = if id.is_ascii() && id.unicode_len() >= SHORT_ID_LEN {
            id.substring_ascii(0, SHORT_ID_LEN).to_owned()
        } else {
            id.to_owned()
        };
        rows.push(
            ListRow {
                index: i + 1,
                id_short,
                title: view[i].title.clone(),
                updated_at: view[i].updated_at,
            },
        );
        i += 1;
    }
    rows
}

} // verus!
