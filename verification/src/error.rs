//! The failures that vault operations report.

use vstd::prelude::*;

verus! {

/// Why a selector did not resolve to one record.
#[derive(Debug, Clone, Copy, PartialEq, Eq, Structural)]
pub enum SelectorError {
    /// An id prefix of fewer than four characters.
    TooShort,
    /// No catalog entry has an id that starts with the prefix.
    NoMatch,
    /// Two or more catalog entries have an id that starts with the prefix.
    Ambiguous,
    /// A numeric selector that is zero or beyond the last entry.
    IndexOutOfRange,
}

/// Why a vault operation failed.
#[derive(Debug, Clone, Copy, PartialEq, Eq, Structural)]
pub enum VaultError {
    /// Key-derivation parameters that Argon2 does not accept.
    Config,
    /// The random source or a cipher failed.
    Crypto,
    /// The authentication tag did not match: a wrong key or altered data.
    Authentication,
    /// A stored payload that is not in the expected shape.
    Decode,
    /// The record or catalog entry does not exist.
    NotFound,
    /// The selector did not name exactly one record.
    Selector(SelectorError),
    /// A request that breaks the rules for its arguments.
    Validation,
    /// The file system or the store refused an operation.
    Io,
}

} // verus!
