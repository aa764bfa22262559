//! Sesame: the engine of a local-first encrypted secret vault.
//!
//! Every stored blob is sealed with ChaCha20-Poly1305 under a key that
//! Argon2id derives from the master password. The vault keeps one encrypted
//! catalog of record metadata and one encrypted blob per record. This crate
//! holds the rules of that engine as functions on plain values; reading and
//! writing the vault file, prompting and the clipboard belong to the caller.

pub mod catalog;
pub mod crypto;
pub mod db;
pub mod error;
pub mod generator;
pub mod items;
pub mod order;
pub mod search;
pub mod secret;
pub mod selector;
pub mod text;
pub mod util;

pub use error::{SelectorError, VaultError};
pub use secret::{SecretKey, SecretString};
