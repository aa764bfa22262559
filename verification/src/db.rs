//! The vault store: the header row with the key-derivation parameters, the
//! session, and the rotation of the master password.

use vstd::prelude::*;
use crate::catalog::{empty_catalog_text, ensure_empty_catalog};
use crate::crypto::{
    derive_key, derive_key_from_header, derive_key_from_header_outcome, derive_key_outcome,
    encrypt_blob, header_costs, is_sealing_of, open_outcome, open_stored, random_array, KdfParams,
    MIN_SALT_LEN,
};
use crate::error::VaultError;
use crate::secret::SecretKey;
use crate::util::now_unix;

verus! {

/// The header row: the format version and the key-derivation parameters.
#[derive(Debug)]
pub struct Header {
    /// Version of the vault format.
    pub format_version: i64,
    /// Salt of the key derivation.
    pub kdf_salt: Vec<u8>,
    /// Memory cost, in KiB.
    pub kdf_mem_kib: i64,
    /// Number of passes.
    pub kdf_iters: i64,
    /// Number of lanes.
    pub kdf_parallelism: i64,
}

/// The catalog row: the sealed catalog, its nonce, and when it was written.
#[derive(Debug)]
pub struct CatalogRow {
    pub nonce: Vec<u8>,
    pub ciphertext: Vec<u8>,
    pub updated_at: i64,
}

/// An item row: a sealed record under its id, its nonce, and when it was
/// made and last written.
#[derive(Debug)]
pub struct ItemRow {
    pub id: String,
    pub nonce: Vec<u8>,
    pub ciphertext: Vec<u8>,
    pub created_at: i64,
    pub updated_at: i64,
}

/// An open session: the path of the vault file and the key that was
/// derived for it. The key lives only as long as the session and is wiped
/// when the session is dropped.
pub struct Vault {
    pub path: String,
    pub key: SecretKey,
}

/// Copies a byte string.
pub fn copy_bytes(bytes: &[u8]) -> (r: Vec<u8>)
    ensures
        r@ == bytes@,
{
    let mut out: Vec<u8> = Vec::new();
    let n = bytes.len();
    let mut i: usize = 0;
    while i < n
        invariant
            n == bytes@.len(),
            i <= n,
            out@ == bytes@.subrange(0, i as int),
        decreases n - i,
    {
        out.push(bytes[i]);
        assert(bytes@.subrange(0, i + 1) =~= bytes@.subrange(0, i as int).push(bytes@[i as int]));
        i += 1;
    }
    assert(bytes@.subrange(0, n as int) =~= bytes@);
    out
}

/// Reads the key-derivation parameters of a header row: salt, memory,
/// passes, lanes. A salt shorter than eight bytes is refused with `Config`.
pub fn load_kdf_params(header: &Header) -> (r: Result<(Vec<u8>, i64, i64, i64), VaultError>)
    ensures
        header.kdf_salt@.len() < MIN_SALT_LEN ==> r == Err::<(Vec<u8>, i64, i64, i64), VaultError>(
            VaultError::Config,
        ),
        header.kdf_salt@.len() >= MIN_SALT_LEN ==> r is Ok && r->Ok_0.0@ == header.kdf_salt@
            && r->Ok_0.1 == header.kdf_mem_kib && r->Ok_0.2 == header.kdf_iters && r->Ok_0.3
            == header.kdf_parallelism,
{
    if header.kdf_salt.len() < MIN_SALT_LEN {
        return Err(VaultError::Config);
    }
    Ok(
        (
            copy_bytes(header.kdf_salt.as_slice()),
            header.kdf_mem_kib,
            header.kdf_iters,
            header.kdf_parallelism,
        ),
    )
}

/// The format version that a new vault gets.
pub const FORMAT_VERSION: i64 = 1;

/// The length of the salt that a new header gets, in bytes.
pub const SALT_LEN: usize = 16;

/// Whether a header holds given costs and a salt of sixteen bytes.
pub open spec fn has_costs(h: Header, costs: KdfParams) -> bool {
    &&& h.kdf_salt@.len() == SALT_LEN
    &&& h.kdf_mem_kib == costs.mem_kib
    &&& h.kdf_iters == costs.iters
    &&& h.kdf_parallelism == costs.parallelism
}

/// Whether a header holds the fixed costs of a new vault and a salt of
/// sixteen bytes.
pub open spec fn has_fixed_costs(h: Header) -> bool {
    has_costs(h, KdfParams::spec_fixed())
}

/// What the header of a new vault looks like.
pub open spec fn is_fresh_header(h: Header) -> bool {
    h.format_version == FORMAT_VERSION && has_fixed_costs(h)
}

/// The header row for a format version, a salt and costs.
pub fn header_with(format_version: i64, salt: &[u8], costs: &KdfParams) -> (h: Header)
    ensures
        h.format_version == format_version,
        h.kdf_salt@ == salt@,
        h.kdf_mem_kib == costs.mem_kib,
        h.kdf_iters == costs.iters,
        h.kdf_parallelism == costs.parallelism,
        header_costs(h) == Some(*costs),
{
    Header {
        format_version,
        kdf_salt: copy_bytes(salt),
        kdf_mem_kib: costs.mem_kib as i64,
        kdf_iters: costs.iters as i64,
        kdf_parallelism: costs.parallelism as i64,
    }
}

/// What making sure of the header returns for a vault with `count` header
/// rows: nothing to insert where a row exists, and otherwise a fresh
/// header, or `Crypto` where the random source fails.
pub open spec fn header_ensured(count: i64, r: Result<Option<Header>, VaultError>) -> bool {
    if count != 0 {
        r is Ok && r->Ok_0 is None
    } else {
        match r {
            Ok(Some(h)) => is_fresh_header(h),
            Ok(None) => false,
            Err(e) => e == VaultError::Crypto,
        }
    }
}

/// The header row of a new vault, if the vault has none: the fixed costs
/// and a salt from the random source. `count` is the number of header rows
/// that the vault holds.
///
/// Where a row exists nothing is made, so that the costs and the salt of a
/// vault are set once and never changed by opening it. It fails with
/// `Crypto` where the random source fails.
pub fn ensure_header(count: i64) -> (r: Result<Option<Header>, VaultError>)
    ensures
        header_ensured(count, r),
{
    if count != 0 {
        return Ok(None);
    }
    match random_array::<16>() {
        Ok(salt) => Ok(Some(header_with(FORMAT_VERSION, salt.as_slice(), &KdfParams::fixed()))),
        Err(_) => Err(VaultError::Crypto),
    }
}

/// What opening a vault returns for a header, a password and a number of
/// catalog rows: the error of the key derivation; or a session with the
/// derived key and, for a vault without a catalog row, the row to insert,
/// which seals the empty catalog.
pub open spec fn opened_as(
    db_path: Seq<char>,
    password: Seq<char>,
    header: Header,
    catalog_rows: i64,
    r: Result<(Vault, Option<CatalogRow>), VaultError>,
) -> bool {
    match derive_key_from_header_outcome(header, password) {
        Err(e) => r is Err && r->Err_0 == e,
        Ok(key) => match r {
            Ok((v, row)) => {
                &&& v.path@ == db_path
                &&& v.key@ == key
                &&& catalog_rows != 0 ==> row is None
                &&& catalog_rows == 0 ==> row is Some && row->Some_0.nonce@.len() == 12
                    && is_sealing_of(
                    key,
                    empty_catalog_text(),
                    row->Some_0.nonce@,
                    row->Some_0.ciphertext@,
                )
            },
            Err(e) => e == VaultError::Crypto && catalog_rows == 0,
        },
    }
}

impl Vault {
    /// Opens a session on a vault whose header row is given: derives the
    /// key from the password and the header, and makes the catalog row if
    /// the vault has none.
    ///
    /// The password is not checked: a wrong one gives a wrong key, which
    /// the first decryption rejects.
    pub fn open(db_path: &str, password: &str, header: &Header, catalog_rows: i64) -> (r: Result<
        (Vault, Option<CatalogRow>),
        VaultError,
    >)
        ensures
            opened_as(db_path@, password@, *header, catalog_rows, r),
    {
        let key = match derive_key_from_header(header, password) {
            Ok(k) => SecretKey::new(k),
            Err(e) => { return Err(e); },
        };
        let row = match ensure_empty_catalog(catalog_rows, key.expose()) {
            Ok(row) => row,
            Err(e) => { return Err(e); },
        };
        Ok((Vault { path: db_path.to_owned(), key }, row))
    }
}

/// The rows of a vault that opening looks at: the header row and the
/// catalog row, where they exist.
pub struct InitRows {
    pub header: Option<Header>,
    pub catalog: Option<CatalogRow>,
}

/// How many rows there are of a row that may exist.
pub open spec fn row_count<T>(row: Option<T>) -> i64 {
    if row is Some {
        1
    } else {
        0
    }
}

/// The rows after the rows that `ensure_header` and `Vault::open` returned
/// have been inserted.
pub open spec fn after_init(
    rows: InitRows,
    new_header: Option<Header>,
    new_catalog: Option<CatalogRow>,
) -> InitRows {
    InitRows {
        header: if new_header is Some {
            new_header
        } else {
            rows.header
        },
        catalog: if new_catalog is Some {
            new_catalog
        } else {
            rows.catalog
        },
    }
}

/// Opening a vault is idempotent. Whatever a vault held before it was
/// first opened, once that opening has succeeded and its rows are
/// inserted, opening the vault again with the same password succeeds,
/// inserts neither a header row nor a catalog row, so that the salt and
/// the costs stay and the catalog row stays alone, and derives the same
/// key.
pub proof fn lemma_open_again_changes_nothing(
    rows: InitRows,
    db_path: Seq<char>,
    password: Seq<char>,
    header1: Result<Option<Header>, VaultError>,
    open1: Result<(Vault, Option<CatalogRow>), VaultError>,
    header2: Result<Option<Header>, VaultError>,
    open2: Result<(Vault, Option<CatalogRow>), VaultError>,
)
    requires
        header_ensured(row_count(rows.header), header1),
        header1 is Ok,
        opened_as(
            db_path,
            password,
            after_init(rows, header1->Ok_0, None).header->Some_0,
            row_count(rows.catalog),
            open1,
        ),
        open1 is Ok,
        header_ensured(row_count(after_init(rows, header1->Ok_0, open1->Ok_0.1).header), header2),
        opened_as(
            db_path,
            password,
            after_init(rows, header1->Ok_0, open1->Ok_0.1).header->Some_0,
            row_count(after_init(rows, header1->Ok_0, open1->Ok_0.1).catalog),
            open2,
        ),
    ensures
        header2 is Ok,
        header2->Ok_0 is None,
        open2 is Ok,
        open2->Ok_0.1 is None,
        after_init(
            after_init(rows, header1->Ok_0, open1->Ok_0.1),
            header2->Ok_0,
            open2->Ok_0.1,
        ) == after_init(rows, header1->Ok_0, open1->Ok_0.1),
        open2->Ok_0.0.key@ == open1->Ok_0.0.key@,
{
}

/// What a rotation of the master password writes: the header with the new
/// salt, every item row and the catalog row under the new key.
#[derive(Debug)]
pub struct Rotation {
    pub header: Header,
    pub items: Vec<ItemRow>,
    pub catalog: CatalogRow,
}

/// Whether a new nonce and ciphertext hold, under the new key, the
/// plaintext that the old nonce and ciphertext hold under the old key.
pub open spec fn resealed(
    old_key: Seq<u8>,
    new_key: Seq<u8>,
    old_nonce: Seq<u8>,
    old_ciphertext: Seq<u8>,
    new_nonce: Seq<u8>,
    new_ciphertext: Seq<u8>,
) -> bool {
    match open_outcome(old_key, old_nonce, old_ciphertext) {
        Ok(plaintext) => new_nonce.len() == 12 && is_sealing_of(
            new_key,
            plaintext,
            new_nonce,
            new_ciphertext,
        ),
        Err(_) => false,
    }
}

/// Whether an item row is the rotation of another: the same id and time
/// of making, the time stamp of the rotation, and the same plaintext under
/// the new key.
pub open spec fn item_rotated(
    old_key: Seq<u8>,
    new_key: Seq<u8>,
    old: ItemRow,
    new: ItemRow,
    now: i64,
) -> bool {
    &&& new.id == old.id
    &&& new.created_at == old.created_at
    &&& new.updated_at == now
    &&& resealed(old_key, new_key, old.nonce@, old.ciphertext@, new.nonce@, new.ciphertext@)
}

/// The error of the first item row, from a position on, that does not
/// open under a key.
pub open spec fn first_item_failure(key: Seq<u8>, items: Seq<ItemRow>, from: int) -> Option<
    VaultError,
>
    decreases items.len() - from,
{
    if from < 0 || from >= items.len() {
        None
    } else {
        match open_outcome(key, items[from].nonce@, items[from].ciphertext@) {
            Err(e) => Some(e),
            Ok(_) => first_item_failure(key, items, from + 1),
        }
    }
}

/// The error of the first row, the item rows before the catalog row, that
/// does not open under a key: `Decode` for a nonce of the wrong length,
/// `Authentication` for a ciphertext that the cipher rejects.
pub open spec fn first_failure(key: Seq<u8>, items: Seq<ItemRow>, catalog: CatalogRow) -> Option<
    VaultError,
> {
    match first_item_failure(key, items, 0) {
        Some(e) => Some(e),
        None => match open_outcome(key, catalog.nonce@, catalog.ciphertext@) {
            Err(e) => Some(e),
            Ok(_) => None,
        },
    }
}

/// Whether a rotation is complete: the new header has a salt of sixteen
/// bytes and the new costs, and every item row and the catalog row hold
/// under the key of the new password what they held under the key of the
/// old one.
pub open spec fn rotation_done(
    header: Header,
    old_pw: Seq<char>,
    new_pw: Seq<char>,
    items: Seq<ItemRow>,
    catalog: CatalogRow,
    costs: KdfParams,
    rot: Rotation,
) -> bool {
    let old_key = derive_key_from_header_outcome(header, old_pw);
    let new_key = derive_key_outcome(new_pw, rot.header.kdf_salt@, costs);
    &&& old_key is Ok
    &&& new_key is Ok
    &&& new_key == derive_key_from_header_outcome(rot.header, new_pw)
    &&& rot.header.format_version == header.format_version
    &&& has_costs(rot.header, costs)
    &&& rot.items@.len() == items.len()
    &&& forall|i: int|
        0 <= i < items.len() ==> item_rotated(
            old_key->Ok_0,
            new_key->Ok_0,
            items[i],
            #[trigger] rot.items@[i],
            rot.catalog.updated_at,
        )
    &&& resealed(
        old_key->Ok_0,
        new_key->Ok_0,
        catalog.nonce@,
        catalog.ciphertext@,
        rot.catalog.nonce@,
        rot.catalog.ciphertext@,
    )
}

/// Opens a stored blob under the old key and seals its plaintext under the
/// new key with a fresh nonce.
pub fn reseal(old_key: &[u8; 32], new_key: &[u8; 32], nonce: &[u8], ciphertext: &[u8]) -> (r:
    Result<(Vec<u8>, Vec<u8>), VaultError>)
    ensures
        match r {
            Ok((new_nonce, new_ciphertext)) => resealed(
                old_key@,
                new_key@,
                nonce@,
                ciphertext@,
                new_nonce@,
                new_ciphertext@,
            ),
            Err(e) => open_outcome(old_key@, nonce@, ciphertext@) == Err::<Seq<u8>, VaultError>(e)
                || (open_outcome(old_key@, nonce@, ciphertext@) is Ok && e == VaultError::Crypto),
        },
{
    let plaintext = match open_stored(old_key, nonce, ciphertext) {
        Ok(p) => p,
        Err(e) => { return Err(e); },
    };
    match encrypt_blob(new_key, plaintext.as_slice()) {
        Ok((new_ciphertext, new_nonce)) => Ok((copy_bytes(new_nonce.as_slice()), new_ciphertext)),
        Err(e) => Err(e),
    }
}

/// Whether a rotation may fail with an error: `Crypto`, which the random
/// source or the derivation of the new key may give at any time; `Config`
/// for new costs that Argon2 does not accept; the error of the derivation
/// of the old key; or the error of the first row that does not open under
/// the old key.
pub open spec fn rotation_fails_with(
    header: Header,
    old_pw: Seq<char>,
    items: Seq<ItemRow>,
    catalog: CatalogRow,
    costs: KdfParams,
    e: VaultError,
) -> bool {
    let old_key = derive_key_from_header_outcome(header, old_pw);
    ||| e == VaultError::Crypto
    ||| old_key == Err::<Seq<u8>, VaultError>(e)
    ||| old_key is Ok && !costs.valid() && e == VaultError::Config
    ||| old_key is Ok && first_failure(old_key->Ok_0, items, catalog) == Some(e)
}

/// Whether a rotation must fail: the old key cannot be derived, the new
/// costs are not valid, or a row does not open under the old key.
pub open spec fn rotation_blocked(
    header: Header,
    old_pw: Seq<char>,
    items: Seq<ItemRow>,
    catalog: CatalogRow,
    costs: KdfParams,
) -> bool {
    let old_key = derive_key_from_header_outcome(header, old_pw);
    ||| old_key is Err
    ||| !costs.valid()
    ||| first_failure(old_key->Ok_0, items, catalog) is Some
}

/// Rotates the master password to a key under given costs: derives the
/// old key from the old password and the header, a new key from the new
/// password and a fresh salt under the costs, and seals every item row and
/// the catalog row anew.
///
/// The rotation is all or nothing. Where the old password is wrong or a
/// row is corrupt, a row does not open under the old key, the call fails,
/// and nothing is returned to write: the vault stays on the old key.
pub fn rotate_master_password(
    header: &Header,
    old_pw: &str,
    new_pw: &str,
    items: &Vec<ItemRow>,
    catalog: &CatalogRow,
    costs: &KdfParams,
) -> (r: Result<Rotation, VaultError>)
    ensures
        match r {
            Ok(rot) => rotation_done(*header, old_pw@, new_pw@, items@, *catalog, *costs, rot),
            Err(e) => rotation_fails_with(*header, old_pw@, items@, *catalog, *costs, e),
        },
        rotation_blocked(*header, old_pw@, items@, *catalog, *costs) ==> r is Err,
        derive_key_from_header_outcome(*header, old_pw@) is Err ==> r is Err && r->Err_0
            == derive_key_from_header_outcome(*header, old_pw@)->Err_0,
{
    let old_key = match derive_key_from_header(header, old_pw) {
        Ok(k) => SecretKey::new(k),
        Err(e) => { return Err(e); },
    };
    let salt: [u8; 16] = match random_array::<16>() {
        Ok(s) => s,
        Err(_) => { return Err(VaultError::Crypto); },
    };
    let new_key = match derive_key(new_pw, salt.as_slice(), costs) {
        Ok(k) => SecretKey::new(k),
        Err(e) => { return Err(e); },
    };
    let new_header = header_with(header.format_version, salt.as_slice(), costs);
    let now = now_unix();
    let mut rotated: Vec<ItemRow> = Vec::new();
    let mut i: usize = 0;
    while i < items.len()
        invariant
            i <= items@.len(),
            rotated@.len() == i,
            costs.valid(),
            derive_key_from_header_outcome(*header, old_pw@) == Ok::<Seq<u8>, VaultError>(
                old_key@,
            ),
            first_item_failure(old_key@, items@, 0) == first_item_failure(
                old_key@,
                items@,
                i as int,
            ),
            forall|k: int|
                0 <= k < i ==> item_rotated(
                    old_key@,
                    new_key@,
                    items@[k],
                    #[trigger] rotated@[k],
                    now,
                ),
        decreases items@.len() - i,
    {
        let row = &items[i];
        match reseal(
            old_key.expose(),
            new_key.expose(),
            row.nonce.as_slice(),
            row.ciphertext.as_slice(),
        ) {
            Ok((nonce, ciphertext)) => {
                rotated.push(
                    ItemRow {
                        id: row.id.clone(),
                        nonce,
                        ciphertext,
                        created_at: row.created_at,
                        updated_at: now,
                    },
                );
            },
            Err(e) => { return Err(e); },
        }
        i += 1;
    }
    match reseal(
        old_key.expose(),
        new_key.expose(),
        catalog.nonce.as_slice(),
        catalog.ciphertext.as_slice(),
    ) {
        Ok((nonce, ciphertext)) => Ok(
            Rotation {
                header: new_header,
                items: rotated,
                catalog: CatalogRow { nonce, ciphertext, updated_at: now },
            },
        ),
        Err(e) => Err(e),
    }
}

/// Rotates the master password: moves the vault from the key of the old
/// password to the key of the new password under a fresh salt and the
/// fixed costs of a new vault.
///
/// The rotation is all or nothing. It fails with the error of the key
/// derivation, with the error of the first row that does not open under
/// the old key, or with `Crypto` where the random source fails; and then
/// nothing is returned to write, so that the vault stays on the old key.
pub fn set_master_password(
    header: &Header,
    old_pw: &str,
    new_pw: &str,
    items: &Vec<ItemRow>,
    catalog: &CatalogRow,
) -> (r: Result<Rotation, VaultError>)
    ensures
        match r {
            Ok(rot) => rotation_done(
                *header,
                old_pw@,
                new_pw@,
                items@,
                *catalog,
                KdfParams::spec_fixed(),
                rot,
            ) && has_fixed_costs(rot.header),
            Err(e) => rotation_fails_with(
                *header,
                old_pw@,
                items@,
                *catalog,
                KdfParams::spec_fixed(),
                e,
            ),
        },
        rotation_blocked(*header, old_pw@, items@, *catalog, KdfParams::spec_fixed()) ==> r is Err,
        derive_key_from_header_outcome(*header, old_pw@) is Err ==> r is Err && r->Err_0
            == derive_key_from_header_outcome(*header, old_pw@)->Err_0,
{
    let costs = KdfParams::fixed();
    rotate_master_password(header, old_pw, new_pw, items, catalog, &costs)
}

/// After a rotation every row opens under the new key to what it held
/// under the old key.
pub proof fn lemma_rotated_rows_open(
    header: Header,
    old_pw: Seq<char>,
    new_pw: Seq<char>,
    items: Seq<ItemRow>,
    catalog: CatalogRow,
    costs: KdfParams,
    rot: Rotation,
    i: int,
)
    requires
        rotation_done(header, old_pw, new_pw, items, catalog, costs, rot),
        0 <= i < items.len(),
    ensures
        ({
            let old_key = derive_key_from_header_outcome(header, old_pw)->Ok_0;
            let new_key = derive_key_from_header_outcome(rot.header, new_pw)->Ok_0;
            &&& derive_key_from_header_outcome(rot.header, new_pw) is Ok
            &&& open_outcome(old_key, items[i].nonce@, items[i].ciphertext@) is Ok
            &&& open_outcome(new_key, rot.items@[i].nonce@, rot.items@[i].ciphertext@)
                == open_outcome(old_key, items[i].nonce@, items[i].ciphertext@)
            &&& open_outcome(new_key, rot.catalog.nonce@, rot.catalog.ciphertext@) == open_outcome(
                old_key,
                catalog.nonce@,
                catalog.ciphertext@,
            )
            &&& first_failure(old_key, items, catalog) is None
        }),
{
    let old_key = derive_key_from_header_outcome(header, old_pw)->Ok_0;
    assert(item_rotated(
        old_key,
        derive_key_from_header_outcome(rot.header, new_pw)->Ok_0,
        items[i],
        rot.items@[i],
        rot.catalog.updated_at,
    ));
    lemma_no_item_failure(old_key, derive_key_from_header_outcome(rot.header, new_pw)->Ok_0, items, rot, 0);
}

proof fn lemma_no_item_failure(
    old_key: Seq<u8>,
    new_key: Seq<u8>,
    items: Seq<ItemRow>,
    rot: Rotation,
    from: int,
)
    requires
        0 <= from <= items.len(),
        rot.items@.len() == items.len(),
        forall|i: int|
            0 <= i < items.len() ==> item_rotated(
                old_key,
                new_key,
                items[i],
                #[trigger] rot.items@[i],
                rot.catalog.updated_at,
            ),
    ensures
        first_item_failure(old_key, items, from) is None,
    decreases items.len() - from,
{
    if from < items.len() {
        assert(item_rotated(old_key, new_key, items[from], rot.items@[from], rot.catalog.updated_at));
        lemma_no_item_failure(old_key, new_key, items, rot, from + 1);
    }
}

/// Whether two texts name the same path: what the equality of
/// `std::path::Path` gives for them, on the platform that the library is
/// built for. It compares the parts of the two paths and reads nothing but
/// the two texts.
pub uninterp spec fn paths_equal(a: Seq<char>, b: Seq<char>) -> bool;

/// `PartialEq` of `std::path::Path`, on the paths that `Path::new` makes
/// of two texts: the result is a function of the two texts alone, and
/// equal texts name the same path.
#[verifier::external_body]
fn same_path(a: &str, b: &str) -> (r: bool)
    ensures
        r == paths_equal(a@, b@),
        a@ == b@ ==> r,
{
    std::path::Path::new(a) == std::path::Path::new(b)
}

/// Whether a backup may be written: not onto the vault itself, and onto
/// an existing file only when overwriting was asked for. A refused backup
/// fails with `Io`.
pub fn backup_allowed(same_file: bool, dest_exists: bool, overwrite: bool) -> (r: Result<
    (),
    VaultError,
>)
    ensures
        r == if same_file || (dest_exists && !overwrite) {
            Err::<(), VaultError>(VaultError::Io)
        } else {
            Ok::<(), VaultError>(())
        },
{
    if same_file {
        Err(VaultError::Io)
    } else if !overwrite && dest_exists {
        Err(VaultError::Io)
    } else {
        Ok(())
    }
}

/// What the decision on a backup returns: `Io` for a destination that
/// names the vault's own path or that exists and is not to be overwritten,
/// and otherwise leave to copy.
pub open spec fn backup_outcome(
    path: Seq<char>,
    to: Seq<char>,
    overwrite: bool,
    dest_exists: bool,
) -> Result<(), VaultError> {
    if paths_equal(to, path) || (dest_exists && !overwrite) {
        Err(VaultError::Io)
    } else {
        Ok(())
    }
}

/// Decides whether the vault may be copied to a path, given whether a file
/// exists there. The copy itself is the caller's.
pub fn backup_to_path(v: &Vault, to: &str, overwrite: bool, dest_exists: bool) -> (r: Result<
    (),
    VaultError,
>)
    ensures
        r == backup_outcome(v.path@, to@, overwrite, dest_exists),
        to@ == v.path@ ==> r is Err,
{
    backup_allowed(same_path(to, v.path.as_str()), dest_exists, overwrite)
}

} // verus!
