use chacha20poly1305::aead::{Aead, KeyInit};
use sesame::crypto::{
    decrypt_blob, derive_key, derive_key_from_header, encrypt_blob, seal_with_nonce, stored_cost,
    KdfParams,
};
use sesame::db::Header;
use sesame::error::VaultError;

fn small() -> KdfParams {
    KdfParams { mem_kib: 64, iters: 1, parallelism: 1 }
}

fn header(salt: Vec<u8>, mem: i64, iters: i64, lanes: i64) -> Header {
    Header {
        format_version: 1,
        kdf_salt: salt,
        kdf_mem_kib: mem,
        kdf_iters: iters,
        kdf_parallelism: lanes,
    }
}

#[test]
fn encrypt_then_decrypt_gives_plaintext() {
    let key = [7u8; 32];
    for plaintext in [&b""[..], &b"x"[..], &b"top secret, handle with care"[..], &[0u8; 1000][..]] {
        let (ciphertext, nonce) = encrypt_blob(&key, plaintext).unwrap();
        assert_eq!(ciphertext.len(), plaintext.len() + 16);
        assert_eq!(decrypt_blob(&key, &nonce, &ciphertext).unwrap(), plaintext.to_vec());
    }
}

#[test]
fn encrypt_hides_the_plaintext() {
    let key = [9u8; 32];
    let plaintext = b"the same sixteen bytes are not in the output";
    let (ciphertext, _) = encrypt_blob(&key, plaintext).unwrap();
    assert_ne!(&ciphertext[..plaintext.len()], &plaintext[..]);
}

#[test]
fn each_encryption_takes_a_new_nonce() {
    let key = [1u8; 32];
    let (c1, n1) = encrypt_blob(&key, b"same").unwrap();
    let (c2, n2) = encrypt_blob(&key, b"same").unwrap();
    assert_ne!(n1, n2);
    assert_ne!(c1, c2);
}

#[test]
fn flipped_ciphertext_bit_fails_authentication() {
    let key = [3u8; 32];
    let (ciphertext, nonce) = encrypt_blob(&key, b"payload").unwrap();
    for byte in 0..ciphertext.len() {
        for bit in 0..8 {
            let mut bad = ciphertext.clone();
            bad[byte] ^= 1 << bit;
            assert_eq!(decrypt_blob(&key, &nonce, &bad), Err(VaultError::Authentication));
        }
    }
}

#[test]
fn flipped_nonce_bit_fails_authentication() {
    let key = [3u8; 32];
    let (ciphertext, nonce) = encrypt_blob(&key, b"payload").unwrap();
    for byte in 0..12 {
        for bit in 0..8 {
            let mut bad = nonce;
            bad[byte] ^= 1 << bit;
            assert_eq!(decrypt_blob(&key, &bad, &ciphertext), Err(VaultError::Authentication));
        }
    }
}

#[test]
fn wrong_key_fails_authentication() {
    let (ciphertext, nonce) = encrypt_blob(&[1u8; 32], b"payload").unwrap();
    assert_eq!(decrypt_blob(&[2u8; 32], &nonce, &ciphertext), Err(VaultError::Authentication));
}

#[test]
fn ciphertext_shorter_than_the_tag_fails_authentication() {
    assert_eq!(decrypt_blob(&[1u8; 32], &[0u8; 12], &[0u8; 15]), Err(VaultError::Authentication));
    assert_eq!(decrypt_blob(&[1u8; 32], &[0u8; 12], &[]), Err(VaultError::Authentication));
}

#[test]
fn sealing_agrees_with_the_cipher() {
    let key = [5u8; 32];
    let nonce = [6u8; 12];
    let ours = seal_with_nonce(&key, &nonce, b"hello").unwrap();
    let cipher = chacha20poly1305::ChaCha20Poly1305::new((&key).into());
    let theirs = cipher.encrypt(chacha20poly1305::Nonce::from_slice(&nonce), &b"hello"[..]).unwrap();
    assert_eq!(ours, theirs);
    assert_eq!(cipher.decrypt(chacha20poly1305::Nonce::from_slice(&nonce), &ours[..]).unwrap(), b"hello");
    assert_eq!(decrypt_blob(&key, &nonce, &theirs).unwrap(), b"hello".to_vec());
}

#[test]
fn sealing_is_a_function_of_key_nonce_and_plaintext() {
    let a = seal_with_nonce(&[5u8; 32], &[6u8; 12], b"hello").unwrap();
    let b = seal_with_nonce(&[5u8; 32], &[6u8; 12], b"hello").unwrap();
    let c = seal_with_nonce(&[5u8; 32], &[7u8; 12], b"hello").unwrap();
    assert_eq!(a, b);
    assert_ne!(a, c);
}

#[test]
fn derive_key_is_deterministic() {
    let a = derive_key("correct horse", b"0123456789abcdef", &small()).unwrap();
    let b = derive_key("correct horse", b"0123456789abcdef", &small()).unwrap();
    assert_eq!(a, b);
}

#[test]
fn derive_key_depends_on_every_input() {
    let base = derive_key("correct horse", b"0123456789abcdef", &small()).unwrap();
    assert_ne!(base, derive_key("correct horsf", b"0123456789abcdef", &small()).unwrap());
    assert_ne!(base, derive_key("correct horse", b"0123456789abcdeg", &small()).unwrap());
    let more_mem = KdfParams { mem_kib: 65, iters: 1, parallelism: 1 };
    let more_iters = KdfParams { mem_kib: 64, iters: 2, parallelism: 1 };
    let more_lanes = KdfParams { mem_kib: 64, iters: 1, parallelism: 2 };
    assert_ne!(base, derive_key("correct horse", b"0123456789abcdef", &more_mem).unwrap());
    assert_ne!(base, derive_key("correct horse", b"0123456789abcdef", &more_iters).unwrap());
    assert_ne!(base, derive_key("correct horse", b"0123456789abcdef", &more_lanes).unwrap());
}

#[test]
fn derive_key_agrees_with_argon2id() {
    let ours = derive_key("pässword", b"saltsalt", &small()).unwrap();
    let params = argon2::Params::new(64, 1, 1, Some(32)).unwrap();
    let context = argon2::Argon2::new(argon2::Algorithm::Argon2id, argon2::Version::V0x13, params);
    let mut theirs = [0u8; 32];
    context.hash_password_into("pässword".as_bytes(), b"saltsalt", &mut theirs).unwrap();
    assert_eq!(ours, theirs);
    assert_ne!(ours, [0u8; 32]);
}

#[test]
fn derive_key_refuses_bad_costs_as_config() {
    for (mem, iters, lanes) in [(7, 1, 1), (8, 0, 1), (8, 1, 0), (15, 1, 2), (u32::MAX, 1, 0x100_0000), (0, 0, 0)] {
        let p = KdfParams { mem_kib: mem, iters, parallelism: lanes };
        assert_eq!(derive_key("pw", b"0123456789abcdef", &p), Err(VaultError::Config));
        assert_eq!(KdfParams::new(mem, iters, lanes), Err(VaultError::Config));
        assert!(!p.is_valid());
    }
    assert!(derive_key("pw", b"0123456789abcdef", &KdfParams { mem_kib: u32::MAX, iters: 1, parallelism: 0x2000_0000 }).is_err());
}

#[test]
fn kdf_params_accepts_good_costs() {
    assert_eq!(KdfParams::new(8, 1, 1), Ok(KdfParams { mem_kib: 8, iters: 1, parallelism: 1 }));
    assert_eq!(KdfParams::new(16, 1, 2), Ok(KdfParams { mem_kib: 16, iters: 1, parallelism: 2 }));
    assert_eq!(KdfParams::fixed(), KdfParams { mem_kib: 256 * 1024, iters: 3, parallelism: 1 });
    assert!(KdfParams::fixed().is_valid());
}

#[test]
fn derive_key_refuses_a_short_salt_as_crypto() {
    assert_eq!(derive_key("pw", b"1234567", &small()), Err(VaultError::Crypto));
    assert!(derive_key("pw", b"12345678", &small()).is_ok());
    assert!(derive_key("", b"12345678", &small()).is_ok());
}

#[test]
fn derive_key_from_header_uses_salt_and_costs() {
    let h = header(b"0123456789abcdef".to_vec(), 64, 1, 1);
    assert_eq!(
        derive_key_from_header(&h, "pw").unwrap(),
        derive_key("pw", b"0123456789abcdef", &small()).unwrap()
    );
}

#[test]
fn derive_key_from_header_refuses_a_short_salt_as_config() {
    let h = header(b"1234567".to_vec(), 64, 1, 1);
    assert_eq!(derive_key_from_header(&h, "pw"), Err(VaultError::Config));
}

#[test]
fn derive_key_from_header_refuses_bad_costs_as_config() {
    assert_eq!(derive_key_from_header(&header(b"0123456789abcdef".to_vec(), 0, 1, 1), "pw"), Err(VaultError::Config));
    assert_eq!(derive_key_from_header(&header(b"0123456789abcdef".to_vec(), 64, 0, 1), "pw"), Err(VaultError::Config));
    assert_eq!(derive_key_from_header(&header(b"0123456789abcdef".to_vec(), 64, 1, -1), "pw"), Err(VaultError::Config));
}

#[test]
fn derive_key_from_header_refuses_costs_beyond_32_bits() {
    let salt = b"0123456789abcdef".to_vec();
    let passes = header(salt.clone(), 64, (1i64 << 32) + 3, 1);
    assert_eq!(derive_key_from_header(&passes, "pw"), Err(VaultError::Config));
    let memory = header(salt.clone(), (1i64 << 32) + 64, 1, 1);
    assert_eq!(derive_key_from_header(&memory, "pw"), Err(VaultError::Config));
    let lanes = header(salt.clone(), 64, 1, (1i64 << 40) + 1);
    assert_eq!(derive_key_from_header(&lanes, "pw"), Err(VaultError::Config));
    let largest = header(salt, i64::MAX, i64::MAX, i64::MAX);
    assert_eq!(derive_key_from_header(&largest, "pw"), Err(VaultError::Config));
}

#[test]
fn derive_key_from_header_refuses_negative_costs() {
    let salt = b"0123456789abcdef".to_vec();
    assert_eq!(derive_key_from_header(&header(salt.clone(), -64, 1, 1), "pw"), Err(VaultError::Config));
    assert_eq!(derive_key_from_header(&header(salt.clone(), 64, -1, 1), "pw"), Err(VaultError::Config));
    assert_eq!(
        derive_key_from_header(&header(salt.clone(), (-1i64 << 32) + 64, (-1i64 << 32) + 1, (-1i64 << 32) + 1), "pw"),
        Err(VaultError::Config)
    );
    assert_eq!(derive_key_from_header(&header(salt, i64::MIN, 1, 1), "pw"), Err(VaultError::Config));
}

#[test]
fn stored_cost_must_fit_32_bits() {
    assert_eq!(stored_cost(0), Ok(0));
    assert_eq!(stored_cost(262144), Ok(262144));
    assert_eq!(stored_cost(4294967295), Ok(u32::MAX));
    assert_eq!(stored_cost(4294967296), Err(VaultError::Config));
    assert_eq!(stored_cost(4294967299), Err(VaultError::Config));
    assert_eq!(stored_cost(-1), Err(VaultError::Config));
    assert_eq!(stored_cost(i64::MIN), Err(VaultError::Config));
}
