use passman::crypto::{CryptoManager, Salt, SecureKey};
use passman::PassManError;

#[test]
fn test_key_derivation() {
    let mut crypto = CryptoManager::new();
    let password = "test_password_123";
    let salt = Salt::generate();

    let key1 = crypto.derive_key(password, &salt).unwrap();
    let key2 = crypto.derive_key(password, &salt).unwrap();

    // Same password and salt should produce same key
    assert_eq!(key1.as_bytes(), key2.as_bytes());
}

#[test]
fn test_encryption_decryption() {
    let mut crypto = CryptoManager::new();
    let password = "test_password_123";
    let (key, _salt) = crypto.generate_key_and_salt(password).unwrap();

    let plaintext = b"Hello, World!";
    let encrypted = crypto.encrypt_with_key(plaintext, &key).unwrap();
    let decrypted = crypto.decrypt_with_key(&encrypted, &key).unwrap();

    assert_eq!(plaintext, &decrypted[..]);
}

#[test]
fn test_password_hashing() {
    let crypto = CryptoManager::new();
    let password = "test_password_123";

    let hash = crypto.hash_password(password).unwrap();
    assert!(crypto.verify_password(password, &hash));
    assert!(!crypto.verify_password("wrong_password", &hash));
}

#[test]
fn different_salts_give_different_keys() {
    let mut crypto = CryptoManager::new();
    let key1 = crypto.derive_key("pw", &Salt::from_bytes([1u8; 16])).unwrap();
    let key2 = crypto.derive_key("pw", &Salt::from_bytes([2u8; 16])).unwrap();
    assert_ne!(key1.as_bytes(), key2.as_bytes());
}

#[test]
fn round_trip_with_fixed_key() {
    let crypto = CryptoManager::new();
    let key = SecureKey::new([7u8; 32]);
    let plaintext: Vec<u8> = (0u16..200u16).map(|x| (x % 251) as u8).collect();
    let ct = crypto.encrypt_with_key(&plaintext, &key).unwrap();
    assert_eq!(ct.len(), plaintext.len() + 12 + 16);
    let back = crypto.decrypt_with_key(&ct, &key).unwrap();
    assert_eq!(back, plaintext);
}

#[test]
fn flipping_any_byte_fails_decryption() {
    // Flipping any single byte of a ciphertext makes decryption fail with a
    // crypto error; altered plaintext is never returned.
    let crypto = CryptoManager::new();
    let key = SecureKey::new([9u8; 32]);
    let plaintext = b"attack at dawn";
    let ct = crypto.encrypt_with_key(plaintext, &key).unwrap();
    for i in 0..ct.len() {
        let mut tampered = ct.clone();
        tampered[i] ^= 0x01;
        let r = crypto.decrypt_with_key(&tampered, &key);
        assert_eq!(r, Err(PassManError::CryptoError));
    }
}

#[test]
fn wrong_key_fails_decryption() {
    let crypto = CryptoManager::new();
    let key = SecureKey::new([9u8; 32]);
    let other = SecureKey::new([10u8; 32]);
    let ct = crypto.encrypt_with_key(b"secret", &key).unwrap();
    assert_eq!(crypto.decrypt_with_key(&ct, &other), Err(PassManError::CryptoError));
}

#[test]
fn too_short_input_is_a_crypto_error() {
    let crypto = CryptoManager::new();
    let key = SecureKey::new([3u8; 32]);
    let r = crypto.decrypt_with_key(&[1u8, 2, 3], &key);
    assert_eq!(r, Err(PassManError::CryptoError));
}

#[test]
fn encrypt_without_key_fails() {
    let crypto = CryptoManager::new();
    assert_eq!(crypto.encrypt(b"data"), Err(PassManError::CryptoError));
    assert_eq!(crypto.decrypt(b"0123456789abcdef"), Err(PassManError::CryptoError));
}

#[test]
fn clear_key_wipes_and_drops() {
    let mut crypto = CryptoManager::new();
    let _ = crypto.derive_key("pw", &Salt::from_bytes([5u8; 16])).unwrap();
    assert!(crypto.has_key());
    crypto.clear_key();
    assert!(!crypto.has_key());
    // The salt stays: it is not secret and belongs to the vault.
    assert!(crypto.get_salt().is_some());
}

#[test]
fn wipe_zeroes_key_bytes() {
    let mut key = SecureKey::new([0xAAu8; 32]);
    key.wipe();
    assert_eq!(key.as_bytes(), &[0u8; 32]);
}

#[test]
fn secure_string_accessors() {
    let s = passman::crypto::SecureString::new("hunter2".to_string());
    assert_eq!(s.as_str(), "hunter2");
    assert_eq!(s.as_bytes(), b"hunter2");
    assert_eq!(s.len(), 7);
    assert!(!s.is_empty());
    assert!(passman::crypto::SecureString::new(String::new()).is_empty());
}
