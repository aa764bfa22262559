use sesame::catalog::{load_catalog, save_catalog};
use sesame::crypto::{derive_key_from_header, encrypt_blob, open_stored, KdfParams};
use sesame::db::{
    backup_allowed, backup_to_path, copy_bytes, ensure_header, header_with, load_kdf_params, reseal,
    rotate_master_password, set_master_password, CatalogRow, Header, ItemRow, Vault,
};
use sesame::error::VaultError;
use sesame::secret::SecretKey;

fn header(salt: &[u8]) -> Header {
    Header { format_version: 1, kdf_salt: salt.to_vec(), kdf_mem_kib: 64, kdf_iters: 1, kdf_parallelism: 1 }
}

fn light() -> KdfParams {
    KdfParams { mem_kib: 32, iters: 2, parallelism: 1 }
}

fn item_row(key: &[u8; 32], id: &str, plaintext: &[u8]) -> ItemRow {
    let (ciphertext, nonce) = encrypt_blob(key, plaintext).unwrap();
    ItemRow { id: id.to_string(), nonce: nonce.to_vec(), ciphertext, created_at: 5, updated_at: 6 }
}

fn catalog_row(key: &[u8; 32], plaintext: &[u8]) -> CatalogRow {
    let (ciphertext, nonce) = encrypt_blob(key, plaintext).unwrap();
    CatalogRow { nonce: nonce.to_vec(), ciphertext, updated_at: 7 }
}

#[test]
fn copy_of_bytes_is_equal() {
    assert_eq!(copy_bytes(b"abc"), b"abc".to_vec());
    assert_eq!(copy_bytes(b""), Vec::<u8>::new());
}

#[test]
fn new_vault_gets_a_header_with_fixed_costs() {
    let h = ensure_header(0).unwrap().unwrap();
    assert_eq!(h.format_version, 1);
    assert_eq!(h.kdf_salt.len(), 16);
    assert_eq!(h.kdf_mem_kib, 256 * 1024);
    assert_eq!(h.kdf_iters, 3);
    assert_eq!(h.kdf_parallelism, 1);
    let again = ensure_header(0).unwrap().unwrap();
    assert_ne!(h.kdf_salt, again.kdf_salt);
}

#[test]
fn header_holds_version_salt_and_costs() {
    let h = header_with(3, b"0123456789abcdef", &KdfParams { mem_kib: 64, iters: 2, parallelism: 5 });
    assert_eq!(h.format_version, 3);
    assert_eq!(h.kdf_salt, b"0123456789abcdef".to_vec());
    assert_eq!(h.kdf_mem_kib, 64);
    assert_eq!(h.kdf_iters, 2);
    assert_eq!(h.kdf_parallelism, 5);
}

#[test]
fn existing_header_is_left_alone() {
    assert!(ensure_header(1).unwrap().is_none());
    assert!(ensure_header(7).unwrap().is_none());
}

#[test]
fn kdf_params_of_a_header() {
    let h = Header { format_version: 1, kdf_salt: b"12345678".to_vec(), kdf_mem_kib: 9, kdf_iters: 8, kdf_parallelism: 7 };
    assert_eq!(load_kdf_params(&h), Ok((b"12345678".to_vec(), 9, 8, 7)));
}

#[test]
fn header_with_a_short_salt_is_refused() {
    assert_eq!(load_kdf_params(&header(b"1234567")), Err(VaultError::Config));
    assert_eq!(load_kdf_params(&header(b"")), Err(VaultError::Config));
}

#[test]
fn open_derives_the_key_and_makes_the_catalog_row() {
    let h = header(b"0123456789abcdef");
    let (v, row) = Vault::open("my.db", "pw", &h, 0).unwrap();
    assert_eq!(v.path, "my.db");
    assert_eq!(v.key.expose(), &derive_key_from_header(&h, "pw").unwrap());
    let row = row.unwrap();
    assert_eq!(load_catalog(&v, &row), Ok(Some(b"[]".to_vec())));
}

#[test]
fn opening_twice_changes_nothing() {
    let h = header(b"0123456789abcdef");
    let (first, row) = Vault::open("my.db", "pw", &h, 0).unwrap();
    assert!(row.is_some());
    assert!(ensure_header(1).unwrap().is_none());
    let (second, none) = Vault::open("my.db", "pw", &h, 1).unwrap();
    assert!(none.is_none());
    assert_eq!(first.key.expose(), second.key.expose());
    assert_eq!(load_catalog(&second, &row.unwrap()), Ok(Some(b"[]".to_vec())));
}

#[test]
fn wrong_password_opens_with_a_wrong_key() {
    let h = header(b"0123456789abcdef");
    let (right, row) = Vault::open("my.db", "pw", &h, 0).unwrap();
    let (wrong, _) = Vault::open("my.db", "pv", &h, 1).unwrap();
    assert_ne!(right.key.expose(), wrong.key.expose());
    assert_eq!(load_catalog(&wrong, &row.unwrap()), Err(VaultError::Authentication));
}

#[test]
fn open_fails_on_a_bad_header() {
    assert_eq!(Vault::open("my.db", "pw", &header(b"short"), 0).err(), Some(VaultError::Config));
    let mut h = header(b"0123456789abcdef");
    h.kdf_iters = 0;
    assert_eq!(Vault::open("my.db", "pw", &h, 0).err(), Some(VaultError::Config));
}

#[test]
fn reseal_moves_a_blob_to_the_new_key() {
    let old = [1u8; 32];
    let new = [2u8; 32];
    let (ciphertext, nonce) = encrypt_blob(&old, b"secret").unwrap();
    let (new_nonce, new_ciphertext) = reseal(&old, &new, &nonce, &ciphertext).unwrap();
    assert_eq!(new_nonce.len(), 12);
    assert_ne!(new_nonce, nonce.to_vec());
    assert_eq!(open_stored(&new, &new_nonce, &new_ciphertext), Ok(b"secret".to_vec()));
    assert_eq!(open_stored(&old, &new_nonce, &new_ciphertext), Err(VaultError::Authentication));
}

#[test]
fn reseal_fails_under_the_wrong_old_key() {
    let (ciphertext, nonce) = encrypt_blob(&[1u8; 32], b"secret").unwrap();
    assert_eq!(reseal(&[3u8; 32], &[2u8; 32], &nonce, &ciphertext), Err(VaultError::Authentication));
    assert_eq!(reseal(&[1u8; 32], &[2u8; 32], &nonce[..5], &ciphertext), Err(VaultError::Decode));
}

#[test]
fn rotation_moves_every_row_to_the_new_key() {
    let h = header(b"0123456789abcdef");
    let old_key = derive_key_from_header(&h, "old").unwrap();
    let items = vec![item_row(&old_key, "aa", b"first"), item_row(&old_key, "bb", b"second")];
    let catalog = catalog_row(&old_key, b"[]");
    let rot = rotate_master_password(&h, "old", "new", &items, &catalog, &light()).unwrap();

    assert_eq!(rot.header.format_version, 1);
    assert_eq!(rot.header.kdf_salt.len(), 16);
    assert_ne!(rot.header.kdf_salt, h.kdf_salt);
    assert_eq!(rot.header.kdf_mem_kib, 32);
    assert_eq!(rot.header.kdf_iters, 2);
    assert_eq!(rot.header.kdf_parallelism, 1);

    let new_key = derive_key_from_header(&rot.header, "new").unwrap();
    assert_ne!(new_key, old_key);
    assert_eq!(rot.items.len(), 2);
    for (before, after, plaintext) in [(&items[0], &rot.items[0], &b"first"[..]), (&items[1], &rot.items[1], &b"second"[..])] {
        assert_eq!(after.id, before.id);
        assert_eq!(after.created_at, before.created_at);
        assert_eq!(after.updated_at, rot.catalog.updated_at);
        assert_ne!(after.nonce, before.nonce);
        assert_eq!(open_stored(&new_key, &after.nonce, &after.ciphertext), Ok(plaintext.to_vec()));
        assert_eq!(open_stored(&old_key, &after.nonce, &after.ciphertext), Err(VaultError::Authentication));
        assert_eq!(open_stored(&old_key, &before.nonce, &before.ciphertext), Ok(plaintext.to_vec()));
    }
    assert_eq!(open_stored(&new_key, &rot.catalog.nonce, &rot.catalog.ciphertext), Ok(b"[]".to_vec()));
    assert_eq!(
        open_stored(&old_key, &rot.catalog.nonce, &rot.catalog.ciphertext),
        Err(VaultError::Authentication)
    );
}

#[test]
fn rotation_with_a_wrong_old_password_writes_nothing() {
    let h = header(b"0123456789abcdef");
    let old_key = derive_key_from_header(&h, "old").unwrap();
    let items = vec![item_row(&old_key, "aa", b"first")];
    let catalog = catalog_row(&old_key, b"[]");
    assert_eq!(
        rotate_master_password(&h, "wrong", "new", &items, &catalog, &light()).err(),
        Some(VaultError::Authentication)
    );
    assert_eq!(open_stored(&old_key, &items[0].nonce, &items[0].ciphertext), Ok(b"first".to_vec()));
    assert_eq!(open_stored(&old_key, &catalog.nonce, &catalog.ciphertext), Ok(b"[]".to_vec()));
    assert_eq!(
        rotate_master_password(&h, "wrong", "new", &Vec::new(), &catalog, &light()).err(),
        Some(VaultError::Authentication)
    );
}

#[test]
fn rotation_stops_at_a_corrupt_row() {
    let h = header(b"0123456789abcdef");
    let old_key = derive_key_from_header(&h, "old").unwrap();
    let mut bad = item_row(&old_key, "bb", b"second");
    bad.nonce.pop();
    let items = vec![item_row(&old_key, "aa", b"first"), bad];
    let catalog = catalog_row(&old_key, b"[]");
    assert_eq!(
        rotate_master_password(&h, "old", "new", &items, &catalog, &light()).err(),
        Some(VaultError::Decode)
    );
}

#[test]
fn rotation_to_bad_costs_is_refused() {
    let h = header(b"0123456789abcdef");
    let old_key = derive_key_from_header(&h, "old").unwrap();
    let catalog = catalog_row(&old_key, b"[]");
    let bad = KdfParams { mem_kib: 4, iters: 1, parallelism: 1 };
    assert_eq!(
        rotate_master_password(&h, "old", "new", &Vec::new(), &catalog, &bad).err(),
        Some(VaultError::Config)
    );
}

#[test]
fn rotation_with_the_same_password_still_changes_the_key() {
    let h = header(b"0123456789abcdef");
    let old_key = derive_key_from_header(&h, "same").unwrap();
    let catalog = catalog_row(&old_key, b"[]");
    let rot = rotate_master_password(&h, "same", "same", &Vec::new(), &catalog, &light()).unwrap();
    assert!(rot.items.is_empty());
    let new_key = derive_key_from_header(&rot.header, "same").unwrap();
    assert_ne!(new_key, old_key);
    assert_eq!(open_stored(&new_key, &rot.catalog.nonce, &rot.catalog.ciphertext), Ok(b"[]".to_vec()));
}

#[test]
fn rotation_fails_on_a_bad_header() {
    let catalog = catalog_row(&[0u8; 32], b"[]");
    assert_eq!(
        set_master_password(&header(b"short"), "old", "new", &Vec::new(), &catalog).err(),
        Some(VaultError::Config)
    );
}

#[test]
fn backup_rules() {
    assert_eq!(backup_allowed(false, false, false), Ok(()));
    assert_eq!(backup_allowed(false, false, true), Ok(()));
    assert_eq!(backup_allowed(false, true, true), Ok(()));
    assert_eq!(backup_allowed(false, true, false), Err(VaultError::Io));
    assert_eq!(backup_allowed(true, false, false), Err(VaultError::Io));
    assert_eq!(backup_allowed(true, true, true), Err(VaultError::Io));
}

#[test]
fn backup_onto_the_vault_itself_is_refused() {
    let v = Vault { path: "dir/vault.db".to_string(), key: SecretKey::new([0u8; 32]) };
    assert_eq!(backup_to_path(&v, "dir/vault.db", true, true), Err(VaultError::Io));
    assert_eq!(backup_to_path(&v, "dir//vault.db", true, true), Err(VaultError::Io));
    assert_eq!(backup_to_path(&v, "dir/copy.db", false, false), Ok(()));
    assert_eq!(backup_to_path(&v, "dir/copy.db", false, true), Err(VaultError::Io));
    assert_eq!(backup_to_path(&v, "dir/copy.db", true, true), Ok(()));
    assert_eq!(backup_to_path(&v, "dir/./vault.db", true, false), Err(VaultError::Io));
    assert_eq!(backup_to_path(&v, "dir/vault.db/", false, false), Err(VaultError::Io));
    assert_eq!(backup_to_path(&v, "other/vault.db", false, false), Ok(()));
    assert_eq!(backup_to_path(&v, "dir/Vault.db", true, true), Ok(()));
}

#[test]
fn saved_catalog_row_is_stamped_now() {
    let v = Vault { path: "v".to_string(), key: SecretKey::new([0u8; 32]) };
    let row = save_catalog(&v, b"[]").unwrap();
    assert!(row.updated_at > 1_600_000_000);
}
