//! Scoped secrets: values whose memory is overwritten with zeros when they
//! go out of scope, on every path, by `zeroize::Zeroizing`.

use vstd::prelude::*;

verus! {

/// The 32 bytes that a [`SecretKey`] guards.
pub uninterp spec fn guarded_key(k: SecretKey) -> Seq<u8>;

/// The text that a [`SecretString`] guards.
pub uninterp spec fn guarded_text(s: SecretString) -> Seq<char>;

/// A 32-byte key inside `zeroize::Zeroizing`, which wipes it on drop.
///
/// Verus does not look inside: what the key holds is `guarded_key`.
#[verifier::external_body]
pub struct SecretKey {
    inner: zeroize::Zeroizing<[u8; 32]>,
}

/// A string inside `zeroize::Zeroizing`, which wipes it on drop.
///
/// Verus does not look inside: what the string holds is `guarded_text`.
#[verifier::external_body]
pub struct SecretString {
    inner: zeroize::Zeroizing<String>,
}

/// `zeroize::Zeroizing::new` on a key: the guard holds exactly the bytes it
/// was given.
#[verifier::external_body]
fn guard_key(key: [u8; 32]) -> (guard: SecretKey)
    ensures
        guarded_key(guard) == key@,
{
    SecretKey { inner: zeroize::Zeroizing::new(key) }
}

/// The `Deref` of `zeroize::Zeroizing`: a borrow of the guarded bytes.
#[verifier::external_body]
fn borrow_key(guard: &SecretKey) -> (key: &[u8; 32])
    ensures
        key@ == guarded_key(*guard),
{
    &*guard.inner
}

/// `zeroize::Zeroizing::new` on a string: the guard holds exactly the text
/// it was given.
#[verifier::external_body]
fn guard_text(text: String) -> (guard: SecretString)
    ensures
        guarded_text(guard) == text@,
{
    SecretString { inner: zeroize::Zeroizing::new(text) }
}

/// The `Deref` of `zeroize::Zeroizing`: a borrow of the guarded text.
#[verifier::external_body]
fn borrow_text(guard: &SecretString) -> (text: &str)
    ensures
        text@ == guarded_text(*guard),
{
    guard.inner.as_str()
}

impl View for SecretKey {
    type V = Seq<u8>;

    open spec fn view(&self) -> Seq<u8> {
        guarded_key(*self)
    }
}

impl View for SecretString {
    type V = Seq<char>;

    open spec fn view(&self) -> Seq<char> {
        guarded_text(*self)
    }
}

impl SecretKey {
    /// Puts a key under guard.
    pub fn new(key: [u8; 32]) -> (guard: SecretKey)
        ensures
            guard@ == key@,
            guard@.len() == 32,
    {
        guard_key(key)
    }

    /// Lends the guarded key.
    pub fn expose(&self) -> (key: &[u8; 32])
        ensures
            key@ == self@,
    {
        borrow_key(self)
    }
}

impl SecretString {
    /// Puts a text under guard.
    pub fn new(text: String) -> (guard: SecretString)
        ensures
            guard@ == text@,
    {
        guard_text(text)
    }

    /// Lends the guarded text.
    pub fn expose(&self) -> (text: &str)
        ensures
            text@ == self@,
    {
        borrow_text(self)
    }
}

} // verus!
