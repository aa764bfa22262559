use sesame::catalog::CatalogEntry;
use sesame::db::{ItemRow, Vault};
use sesame::error::VaultError;
use sesame::items::{
    add_item_interactive, delete_item, edit_item, load_item, seal_item, show_item,
    updated_or_gone, ItemPlain,
};
use sesame::secret::SecretKey;

fn vault(key: [u8; 32]) -> Vault {
    Vault { path: "vault.db".to_string(), key: SecretKey::new(key) }
}

fn item(notes: &str) -> ItemPlain {
    ItemPlain {
        title: "Mail".to_string(),
        username: "me@example.org".to_string(),
        password: "hunter2".to_string(),
        notes: notes.to_string(),
    }
}

#[test]
fn added_record_loads_again() {
    let v = vault([1u8; 32]);
    let encoded = br#"{"title":"Mail","username":"me","password":"pw","notes":""}"#;
    let row = add_item_interactive(&v, encoded).unwrap();
    assert_eq!(row.id.len(), 32);
    assert!(row.id.chars().all(|c| c.is_ascii_digit() || ('a'..='f').contains(&c)));
    assert_eq!(row.nonce.len(), 12);
    assert_eq!(row.ciphertext.len(), encoded.len() + 16);
    assert_eq!(row.created_at, row.updated_at);
    assert!(row.created_at > 1_600_000_000);
    assert_eq!(load_item(&v, Some(row)), Ok(encoded.to_vec()));
}

#[test]
fn added_records_get_different_ids() {
    let v = vault([1u8; 32]);
    let a = add_item_interactive(&v, b"{}").unwrap();
    let b = add_item_interactive(&v, b"{}").unwrap();
    assert_ne!(a.id, b.id);
    assert_ne!(a.nonce, b.nonce);
}

#[test]
fn missing_record_is_not_found() {
    assert_eq!(load_item(&vault([1u8; 32]), None), Err(VaultError::NotFound));
}

#[test]
fn record_under_another_key_fails_authentication() {
    let row = add_item_interactive(&vault([1u8; 32]), b"{}").unwrap();
    assert_eq!(load_item(&vault([2u8; 32]), Some(row)), Err(VaultError::Authentication));
}

#[test]
fn corrupt_record_fails() {
    let v = vault([1u8; 32]);
    let row = add_item_interactive(&v, b"{}").unwrap();
    let mut flipped = row.ciphertext.clone();
    flipped[0] ^= 1;
    let bad = ItemRow { id: row.id.clone(), nonce: row.nonce.clone(), ciphertext: flipped, created_at: 1, updated_at: 1 };
    assert_eq!(load_item(&v, Some(bad)), Err(VaultError::Authentication));
    let short = ItemRow { id: row.id, nonce: vec![0u8; 3], ciphertext: row.ciphertext, created_at: 1, updated_at: 1 };
    assert_eq!(load_item(&v, Some(short)), Err(VaultError::Decode));
}

#[test]
fn sealed_record_opens_under_the_session_key() {
    let v = vault([9u8; 32]);
    let sealed = seal_item(&v, b"new contents").unwrap();
    assert_eq!(sealed.nonce.len(), 12);
    assert!(sealed.stamp > 1_600_000_000);
    let row = ItemRow { id: "x".to_string(), nonce: sealed.nonce, ciphertext: sealed.ciphertext, created_at: 0, updated_at: sealed.stamp };
    assert_eq!(load_item(&v, Some(row)), Ok(b"new contents".to_vec()));
}

#[test]
fn record_is_shown_with_its_notes() {
    assert_eq!(
        show_item(&item("remember this")),
        vec!["Title:    Mail", "Username: me@example.org", "Password: hunter2", "Notes:    remember this"]
    );
}

#[test]
fn blank_notes_are_not_shown() {
    let lines = vec!["Title:    Mail", "Username: me@example.org", "Password: hunter2"];
    assert_eq!(show_item(&item("")), lines);
    assert_eq!(show_item(&item("  \n\t ")), lines);
}

#[test]
fn edit_sets_the_fields_that_are_given() {
    let edited = edit_item(item("n"), "Post".to_string(), "you".to_string(), Some("s3cret".to_string()), "m".to_string());
    assert_eq!(edited.title, "Post");
    assert_eq!(edited.username, "you");
    assert_eq!(edited.password, "s3cret");
    assert_eq!(edited.notes, "m");
}

#[test]
fn edit_without_a_password_keeps_the_password() {
    let edited = edit_item(item("n"), "Post".to_string(), "you".to_string(), None, "".to_string());
    assert_eq!(edited.title, "Post");
    assert_eq!(edited.password, "hunter2");
    assert_eq!(edited.notes, "");
}

#[test]
fn update_of_no_row_is_not_found() {
    assert_eq!(updated_or_gone(0), Err(VaultError::NotFound));
    assert_eq!(updated_or_gone(1), Ok(()));
    assert_eq!(updated_or_gone(2), Ok(()));
}

fn entry(id: &str, title: &str) -> CatalogEntry {
    CatalogEntry { id: id.to_string(), title: title.to_string(), updated_at: 1 }
}

fn ids(entries: &[CatalogEntry]) -> Vec<&str> {
    entries.iter().map(|e| e.id.as_str()).collect()
}

#[test]
fn deletion_takes_the_record_out_of_the_catalog() {
    let d = delete_item(vec![entry("aa", "a"), entry("bb", "b"), entry("cc", "c")], "bb", 1);
    assert!(d.found);
    assert!(d.was_listed);
    assert_eq!(ids(&d.entries), vec!["aa", "cc"]);
}

#[test]
fn deletion_of_no_row_is_reported_not_failed() {
    let d = delete_item(vec![entry("aa", "a"), entry("cc", "c")], "bb", 0);
    assert!(!d.found);
    assert!(!d.was_listed);
    assert_eq!(ids(&d.entries), vec!["aa", "cc"]);
}

#[test]
fn deletion_of_no_row_still_clears_the_catalog() {
    let d = delete_item(vec![entry("aa", "a"), entry("bb", "b"), entry("bb", "again")], "bb", 0);
    assert!(!d.found);
    assert!(d.was_listed);
    assert_eq!(ids(&d.entries), vec!["aa"]);
    assert!(d.entries.iter().all(|e| e.id != "bb"));
}

#[test]
fn deletion_of_an_unlisted_record_leaves_the_catalog() {
    let d = delete_item(vec![entry("aa", "a")], "bb", 1);
    assert!(d.found);
    assert!(!d.was_listed);
    assert_eq!(ids(&d.entries), vec!["aa"]);
    let empty = delete_item(Vec::new(), "bb", 2);
    assert!(empty.found);
    assert!(!empty.was_listed);
    assert!(empty.entries.is_empty());
}
