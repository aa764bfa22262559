//! The crypto core: Argon2id key derivation and ChaCha20-Poly1305 sealing
//! of opaque blobs, each blob under a fresh random nonce.

use vstd::prelude::*;
use chacha20poly1305::aead::{Aead, KeyInit};
use crate::db::{load_kdf_params, Header};
use crate::error::VaultError;
use crate::text::utf8;

verus! {

/// The error of the `argon2` crate.
#[verifier::external_type_specification]
#[verifier::external_body]
pub struct ExArgon2Error(argon2::Error);

/// The error of the `aead` crate, which `chacha20poly1305` returns.
#[verifier::external_type_specification]
#[verifier::external_body]
pub struct ExAeadError(chacha20poly1305::aead::Error);

/// The error of the `getrandom` crate.
#[verifier::external_type_specification]
#[verifier::external_body]
pub struct ExRandomError(getrandom::Error);

/// The 32 bytes that Argon2id, version 1.3, without secret or associated
/// data, derives from a password and a salt under the given costs.
pub uninterp spec fn argon2id(
    password: Seq<u8>,
    salt: Seq<u8>,
    mem_kib: u32,
    iters: u32,
    parallelism: u32,
) -> Seq<u8>;

/// The ciphertext, tag included, that ChaCha20-Poly1305 gives for a
/// plaintext under a key and a nonce, with no associated data.
pub uninterp spec fn sealed(key: Seq<u8>, nonce: Seq<u8>, plaintext: Seq<u8>) -> Seq<u8>;

/// The plaintext that ChaCha20-Poly1305 recovers from a ciphertext under a
/// key and a nonce, with no associated data, or `None` where it rejects the
/// ciphertext.
pub uninterp spec fn opened(key: Seq<u8>, nonce: Seq<u8>, ciphertext: Seq<u8>) -> Option<Seq<u8>>;

/// Length of a nonce, in bytes.
pub const NONCE_LEN: usize = 12;

/// Length of the authentication tag that sealing appends, in bytes.
pub const TAG_LEN: usize = 16;

/// The shortest salt that Argon2 accepts, in bytes.
pub const MIN_SALT_LEN: usize = 8;

/// The longest password and the longest salt that Argon2 accepts, in bytes.
pub const MAX_KDF_INPUT_LEN: usize = 0xFFFF_FFFF;

/// The most lanes that Argon2 accepts.
pub const MAX_PARALLELISM: u32 = 0xFF_FFFF;

/// The cost parameters of Argon2id.
#[derive(Debug, Clone, Copy, PartialEq, Eq, Structural)]
pub struct KdfParams {
    /// Memory, in KiB.
    pub mem_kib: u32,
    /// Number of passes.
    pub iters: u32,
    /// Number of lanes.
    pub parallelism: u32,
}

/// The costs that Argon2 accepts: at least one pass, between one and
/// `MAX_PARALLELISM` lanes, and at least eight KiB of memory for each lane.
pub open spec fn kdf_costs_valid(mem_kib: u32, iters: u32, parallelism: u32) -> bool {
    &&& 1 <= iters
    &&& 1 <= parallelism <= MAX_PARALLELISM
    &&& 8 * parallelism <= mem_kib
}

/// The password and salt lengths that Argon2 accepts.
pub open spec fn kdf_inputs_valid(password: Seq<u8>, salt: Seq<u8>) -> bool {
    &&& password.len() <= MAX_KDF_INPUT_LEN
    &&& MIN_SALT_LEN <= salt.len() <= MAX_KDF_INPUT_LEN
}

/// The plaintexts short enough for one ChaCha20 key stream: fewer than
/// `u32::MAX` blocks of 64 bytes.
pub open spec fn sealable(plaintext: Seq<u8>) -> bool {
    plaintext.len() / 64 < 0xFFFF_FFFF
}

/// `ciphertext` under `nonce` is a sealing of `plaintext` under `key`: it
/// is what the cipher gives, sixteen bytes longer than the plaintext, and
/// it opens to the plaintext again.
pub open spec fn is_sealing_of(
    key: Seq<u8>,
    plaintext: Seq<u8>,
    nonce: Seq<u8>,
    ciphertext: Seq<u8>,
) -> bool {
    &&& ciphertext == sealed(key, nonce, plaintext)
    &&& ciphertext.len() == plaintext.len() + TAG_LEN
    &&& opened(key, nonce, ciphertext) == Some(plaintext)
}

/// What decryption returns: the plaintext, or `Authentication` where the
/// cipher rejects the ciphertext.
pub open spec fn decrypt_outcome(key: Seq<u8>, nonce: Seq<u8>, ciphertext: Seq<u8>) -> Result<
    Seq<u8>,
    VaultError,
> {
    match opened(key, nonce, ciphertext) {
        Some(plaintext) => Ok(plaintext),
        None => Err(VaultError::Authentication),
    }
}

/// What key derivation returns: `Config` for costs that Argon2 does not
/// accept, `Crypto` for a password or salt whose length it does not
/// accept, and otherwise the derived key.
pub open spec fn derive_key_outcome(password: Seq<char>, salt: Seq<u8>, params: KdfParams) -> Result<
    Seq<u8>,
    VaultError,
> {
    if !params.valid() {
        Err(VaultError::Config)
    } else if !kdf_inputs_valid(utf8(password), salt) {
        Err(VaultError::Crypto)
    } else {
        Ok(argon2id(utf8(password), salt, params.mem_kib, params.iters, params.parallelism))
    }
}

/// The bytes of a key result.
pub open spec fn key_result_view(r: Result<[u8; 32], VaultError>) -> Result<Seq<u8>, VaultError> {
    match r {
        Ok(key) => Ok(key@),
        Err(e) => Err(e),
    }
}

/// The bytes of a plaintext result.
pub open spec fn bytes_result_view(r: Result<Vec<u8>, VaultError>) -> Result<Seq<u8>, VaultError> {
    match r {
        Ok(bytes) => Ok(bytes@),
        Err(e) => Err(e),
    }
}

/// `argon2::Argon2::hash_password_into` with a 32-byte output, on a context
/// that `argon2::Params::new` and `argon2::Argon2::new_with_secret` make for
/// Argon2id, version 1.3, with an empty secret.
///
/// With costs that `Params::new` accepts, the call fails exactly when the
/// password or the salt has a length that Argon2 refuses, and otherwise the
/// output is a function of password, salt and costs alone. The call
/// allocates `mem_kib` KiB.
#[verifier::external_body]
fn argon2id_hash(password: &[u8], salt: &[u8], mem_kib: u32, iters: u32, parallelism: u32) -> (r:
    Result<[u8; 32], argon2::Error>)
    requires
        kdf_costs_valid(mem_kib, iters, parallelism),
    ensures
        r is Ok <==> kdf_inputs_valid(password@, salt@),
        r is Ok ==> r->Ok_0@ == argon2id(password@, salt@, mem_kib, iters, parallelism),
{
    let params = argon2::Params::new(mem_kib, iters, parallelism, Some(32))?;
    let context = argon2::Argon2::new_with_secret(
        &[],
        argon2::Algorithm::Argon2id,
        argon2::Version::V0x13,
        params,
    )?;
    let mut out = [0u8; 32];
    context.hash_password_into(password, salt, &mut out)?;
    Ok(out)
}

/// `Aead::encrypt` of `chacha20poly1305::ChaCha20Poly1305`, with no
/// associated data.
///
/// It fails exactly on a plaintext of `u32::MAX` blocks or more. The
/// ciphertext is a function of key, nonce and plaintext alone, holds the
/// plaintext's length and a 16-byte tag, and `Aead::decrypt` under the same
/// key and nonce recovers the plaintext from it.
#[verifier::external_body]
fn chacha_seal(key: &[u8; 32], nonce: &[u8; 12], plaintext: &[u8]) -> (r: Result<
    Vec<u8>,
    chacha20poly1305::aead::Error,
>)
    ensures
        r is Ok <==> sealable(plaintext@),
        r is Ok ==> r->Ok_0@ == sealed(key@, nonce@, plaintext@),
        r is Ok ==> r->Ok_0@.len() == plaintext@.len() + TAG_LEN,
        r is Ok ==> opened(key@, nonce@, r->Ok_0@) == Some(plaintext@),
{
    let cipher = chacha20poly1305::ChaCha20Poly1305::new(key.into());
    cipher.encrypt(chacha20poly1305::Nonce::from_slice(nonce), plaintext)
}

/// `Aead::decrypt` of `chacha20poly1305::ChaCha20Poly1305`, with no
/// associated data.
///
/// Whether it accepts, and the plaintext it then returns, are functions of
/// key, nonce and ciphertext alone. It rejects a ciphertext shorter than
/// the tag, and a plaintext is the ciphertext's length less the tag.
#[verifier::external_body]
fn chacha_open(key: &[u8; 32], nonce: &[u8; 12], ciphertext: &[u8]) -> (r: Result<
    Vec<u8>,
    chacha20poly1305::aead::Error,
>)
    ensures
        r is Ok <==> opened(key@, nonce@, ciphertext@) is Some,
        r is Ok ==> opened(key@, nonce@, ciphertext@) == Some(r->Ok_0@),
        r is Ok ==> r->Ok_0@.len() + TAG_LEN == ciphertext@.len(),
{
    let cipher = chacha20poly1305::ChaCha20Poly1305::new(key.into());
    cipher.decrypt(chacha20poly1305::Nonce::from_slice(nonce), ciphertext)
}

/// `getrandom::getrandom` on a fresh array: on success the array holds
/// bytes from the system's random source, of which nothing is known.
#[verifier::external_body]
pub(crate) fn random_array<const N: usize>() -> (r: Result<[u8; N], getrandom::Error>) {
    let mut bytes = [0u8; N];
    getrandom::getrandom(&mut bytes)?;
    Ok(bytes)
}

impl KdfParams {
    /// Whether Argon2 accepts these costs.
    pub open spec fn valid(self) -> bool {
        kdf_costs_valid(self.mem_kib, self.iters, self.parallelism)
    }

    /// The costs of a new vault: 256 MiB, three passes, one lane.
    pub open spec fn spec_fixed() -> KdfParams {
        KdfParams { mem_kib: 262144, iters: 3, parallelism: 1 }
    }

    /// The costs of a new vault: 256 MiB, three passes, one lane.
    pub fn fixed() -> (p: KdfParams)
        ensures
            p == Self::spec_fixed(),
            p.valid(),
    {
        KdfParams { mem_kib: 262144, iters: 3, parallelism: 1 }
    }

    /// Checks the costs and makes the parameters, or fails with `Config`.
    pub fn new(mem_kib: u32, iters: u32, parallelism: u32) -> (r: Result<KdfParams, VaultError>)
        ensures
            kdf_costs_valid(mem_kib, iters, parallelism) ==> r == Ok::<KdfParams, VaultError>(
                KdfParams { mem_kib, iters, parallelism },
            ),
            !kdf_costs_valid(mem_kib, iters, parallelism) ==> r == Err::<KdfParams, VaultError>(
                VaultError::Config,
            ),
    {
        let p = KdfParams { mem_kib, iters, parallelism };
        if p.is_valid() {
            Ok(p)
        } else {
            Err(VaultError::Config)
        }
    }

    /// Whether Argon2 accepts these costs.
    pub fn is_valid(&self) -> (r: bool)
        ensures
            r == self.valid(),
    {
        self.iters >= 1 && self.parallelism >= 1 && self.parallelism <= MAX_PARALLELISM
            && self.mem_kib >= 8 * self.parallelism
    }
}

/// Derives the 32-byte key of a password under a salt and costs.
///
/// The same password, salt and costs give the same key.
pub fn derive_key(password: &str, salt: &[u8], params: &KdfParams) -> (r: Result<
    [u8; 32],
    VaultError,
>)
    ensures
        key_result_view(r) == derive_key_outcome(password@, salt@, *params),
{
    if !params.is_valid() {
        return Err(VaultError::Config);
    }
    match argon2id_hash(
        password.as_bytes(),
        salt,
        params.mem_kib,
        params.iters,
        params.parallelism,
    ) {
        Ok(key) => Ok(key),
        Err(_) => Err(VaultError::Crypto),
    }
}

/// Whether a stored cost is a number of 32 bits without sign.
pub open spec fn cost_in_range(stored: i64) -> bool {
    0 <= stored <= u32::MAX
}

/// The costs that a header row stands for, if each of its three numbers is
/// a number of 32 bits without sign.
pub open spec fn header_costs(header: Header) -> Option<KdfParams> {
    if cost_in_range(header.kdf_mem_kib) && cost_in_range(header.kdf_iters) && cost_in_range(
        header.kdf_parallelism,
    ) {
        Some(
            KdfParams {
                mem_kib: header.kdf_mem_kib as u32,
                iters: header.kdf_iters as u32,
                parallelism: header.kdf_parallelism as u32,
            },
        )
    } else {
        None
    }
}

/// What deriving a key from a header returns: `Config` for a salt shorter
/// than eight bytes or a stored cost that is negative or beyond 32 bits,
/// and otherwise what `derive_key` returns for the header's salt and
/// costs.
pub open spec fn derive_key_from_header_outcome(header: Header, password: Seq<char>) -> Result<
    Seq<u8>,
    VaultError,
> {
    if header.kdf_salt@.len() < MIN_SALT_LEN {
        Err(VaultError::Config)
    } else {
        match header_costs(header) {
            None => Err(VaultError::Config),
            Some(costs) => derive_key_outcome(password, header.kdf_salt@, costs),
        }
    }
}

/// The cost that a stored number stands for, or `Config` for a number that
/// is negative or beyond 32 bits.
pub fn stored_cost(stored: i64) -> (r: Result<u32, VaultError>)
    ensures
        cost_in_range(stored) ==> r == Ok::<u32, VaultError>(stored as u32),
        !cost_in_range(stored) ==> r == Err::<u32, VaultError>(VaultError::Config),
{
    if stored < 0 || stored > 0xFFFF_FFFF {
        Err(VaultError::Config)
    } else {
        Ok(stored as u32)
    }
}

/// Derives the key of a password from the salt and costs of a header row.
pub fn derive_key_from_header(header: &Header, password: &str) -> (r: Result<[u8; 32], VaultError>)
    ensures
        key_result_view(r) == derive_key_from_header_outcome(*header, password@),
{
    let (salt, mem_kib, iters, parallelism) = match load_kdf_params(header) {
        Ok(row) => row,
        Err(e) => { return Err(e); },
    };
    let mem_kib = match stored_cost(mem_kib) {
        Ok(cost) => cost,
        Err(e) => { return Err(e); },
    };
    let iters = match stored_cost(iters) {
        Ok(cost) => cost,
        Err(e) => { return Err(e); },
    };
    let parallelism = match stored_cost(parallelism) {
        Ok(cost) => cost,
        Err(e) => { return Err(e); },
    };
    let params = match KdfParams::new(mem_kib, iters, parallelism) {
        Ok(p) => p,
        Err(e) => { return Err(e); },
    };
    derive_key(password, salt.as_slice(), &params)
}

/// Seals a plaintext under a key and a given nonce.
///
/// A nonce must never serve twice under one key: callers take it fresh
/// from the random source, as `encrypt_blob` does.
pub fn seal_with_nonce(key: &[u8; 32], nonce: &[u8; 12], plaintext: &[u8]) -> (r: Result<
    Vec<u8>,
    VaultError,
>)
    ensures
        sealable(plaintext@) ==> r is Ok && is_sealing_of(key@, plaintext@, nonce@, r->Ok_0@),
        !sealable(plaintext@) ==> r == Err::<Vec<u8>, VaultError>(VaultError::Crypto),
{
    match chacha_seal(key, nonce, plaintext) {
        Ok(ciphertext) => Ok(ciphertext),
        Err(_) => Err(VaultError::Crypto),
    }
}

/// Seals a plaintext under a key and a fresh random nonce, and returns the
/// ciphertext with the nonce.
///
/// It fails with `Crypto` where the random source fails or the plaintext
/// is too long to seal.
pub fn encrypt_blob(key: &[u8; 32], plaintext: &[u8]) -> (r: Result<(Vec<u8>, [u8; 12]), VaultError>)
    ensures
        match r {
            Ok((ciphertext, nonce)) => sealable(plaintext@) && is_sealing_of(
                key@,
                plaintext@,
                nonce@,
                ciphertext@,
            ),
            Err(e) => e == VaultError::Crypto,
        },
        !sealable(plaintext@) ==> r is Err,
{
    let nonce: [u8; 12] = match random_array::<12>() {
        Ok(n) => n,
        Err(_) => { return Err(VaultError::Crypto); },
    };
    match seal_with_nonce(key, &nonce, plaintext) {
        Ok(ciphertext) => Ok((ciphertext, nonce)),
        Err(e) => Err(e),
    }
}

/// Opens a ciphertext under a key and its nonce.
///
/// It fails with `Authentication` where the tag does not match: a wrong
/// key, a wrong nonce, or altered data.
pub fn decrypt_blob(key: &[u8; 32], nonce: &[u8; 12], ciphertext: &[u8]) -> (r: Result<
    Vec<u8>,
    VaultError,
>)
    ensures
        bytes_result_view(r) == decrypt_outcome(key@, nonce@, ciphertext@),
        r is Ok ==> r->Ok_0@.len() + TAG_LEN == ciphertext@.len(),
{
    match chacha_open(key, nonce, ciphertext) {
        Ok(plaintext) => Ok(plaintext),
        Err(_) => Err(VaultError::Authentication),
    }
}

/// The nonce that a stored byte string stands for: itself, if it is twelve
/// bytes long.
pub open spec fn stored_nonce(bytes: Seq<u8>) -> Option<Seq<u8>> {
    if bytes.len() == NONCE_LEN {
        Some(bytes)
    } else {
        None
    }
}

/// What opening a stored blob returns: `Decode` for a nonce that is not
/// twelve bytes long, `Authentication` where the cipher rejects the
/// ciphertext, and otherwise the plaintext.
pub open spec fn open_outcome(key: Seq<u8>, nonce: Seq<u8>, ciphertext: Seq<u8>) -> Result<
    Seq<u8>,
    VaultError,
> {
    if nonce.len() != NONCE_LEN {
        Err(VaultError::Decode)
    } else {
        decrypt_outcome(key, nonce, ciphertext)
    }
}

/// The nonce that a stored byte string stands for.
pub fn nonce_of(bytes: &[u8]) -> (r: Option<[u8; 12]>)
    ensures
        match r {
            Some(nonce) => stored_nonce(bytes@) == Some(nonce@),
            None => stored_nonce(bytes@) is None,
        },
{
    if bytes.len() != NONCE_LEN {
        return None;
    }
    let mut nonce = [0u8; 12];
    let mut i: usize = 0;
    while i < 12
        invariant
            i <= 12,
            bytes@.len() == 12,
            forall|k: int| 0 <= k < i ==> #[trigger] nonce@[k] == bytes@[k],
        decreases 12 - i,
    {
        nonce[i] = bytes[i];
        i += 1;
    }
    assert(nonce@ =~= bytes@);
    Some(nonce)
}

/// Opens a stored blob: checks the nonce's length, then decrypts.
pub fn open_stored(key: &[u8; 32], nonce: &[u8], ciphertext: &[u8]) -> (r: Result<
    Vec<u8>,
    VaultError,
>)
    ensures
        bytes_result_view(r) == open_outcome(key@, nonce@, ciphertext@),
{
    match nonce_of(nonce) {
        Some(n) => decrypt_blob(key, &n, ciphertext),
        None => Err(VaultError::Decode),
    }
}

/// Decryption inverts encryption: what `encrypt_blob` returns for a key and
/// a plaintext, `decrypt_blob` opens under that key to that plaintext.
pub proof fn lemma_decrypt_inverts_encrypt(
    key: Seq<u8>,
    plaintext: Seq<u8>,
    nonce: Seq<u8>,
    ciphertext: Seq<u8>,
)
    requires
        is_sealing_of(key, plaintext, nonce, ciphertext),
    ensures
        decrypt_outcome(key, nonce, ciphertext) == Ok::<Seq<u8>, VaultError>(plaintext),
{
}

/// Key derivation is a function: equal passwords, salts and costs have
/// equal outcomes.
pub proof fn lemma_derive_key_deterministic(
    password1: Seq<char>,
    salt1: Seq<u8>,
    params1: KdfParams,
    password2: Seq<char>,
    salt2: Seq<u8>,
    params2: KdfParams,
)
    requires
        password1 == password2,
        salt1 == salt2,
        params1 == params2,
    ensures
        derive_key_outcome(password1, salt1, params1) == derive_key_outcome(
            password2,
            salt2,
            params2,
        ),
{
}

} // verus!
