//! Tests of the encryption service: key transport, round trips, wrong keys,
//! and nonce freshness.

use kusatsu::crypto::{Encryption, EncryptionKey};
use kusatsu::error::EncryptionError;

#[test]
fn test_key_generation_and_conversion() {
    let key = EncryptionKey::generate();
    let base64_key = key.to_base64();
    let restored_key = EncryptionKey::from_base64(&base64_key).unwrap();

    assert_eq!(key.as_bytes(), restored_key.as_bytes());
}

#[test]
fn test_encryption_decryption() {
    let key = EncryptionKey::generate();
    let original_data = b"Hello, World! This is a test message.";

    let encrypted = Encryption::encrypt(original_data, &key).unwrap();

    let decrypted_data = Encryption::decrypt(&encrypted, &key).unwrap();

    assert_eq!(original_data, &decrypted_data[..]);
}

#[test]
fn test_string_encryption_decryption() {
    let key = EncryptionKey::generate();
    let original_text = "Hello, World! This is a test message.";

    let encrypted = Encryption::encrypt_string(original_text, &key).unwrap();

    let decrypted_text = Encryption::decrypt_string(&encrypted, &key).unwrap();

    assert_eq!(original_text, decrypted_text);
}

#[test]
fn test_wrong_key_fails() {
    let key1 = EncryptionKey::generate();
    let key2 = EncryptionKey::generate();
    let data = b"Secret data";

    let encrypted = Encryption::encrypt(data, &key1).unwrap();

    assert!(Encryption::decrypt(&encrypted, &key2).is_err());
}

#[test]
fn test_nonce_uniqueness() {
    let key = EncryptionKey::generate();
    let data = b"Same data";

    let encrypted1 = Encryption::encrypt(data, &key).unwrap();
    let encrypted2 = Encryption::encrypt(data, &key).unwrap();

    assert_ne!(encrypted1.nonce, encrypted2.nonce);
    assert_eq!(Encryption::decrypt(&encrypted1, &key).unwrap(), data);
    assert_eq!(Encryption::decrypt(&encrypted2, &key).unwrap(), data);
}

#[test]
fn test_encrypt_empty_input_round_trip() {
    let key = EncryptionKey::generate();
    let empty: [u8; 0] = [];

    let encrypted = Encryption::encrypt(&empty, &key).unwrap();
    assert_eq!(encrypted.ciphertext.len(), 16);
    assert_eq!(encrypted.nonce.len(), 12);

    let decrypted = Encryption::decrypt(&encrypted, &key).unwrap();
    assert!(decrypted.is_empty());
}

#[test]
fn test_nonce_and_ciphertext_differ_between_calls() {
    let key = EncryptionKey::generate();
    let data = b"identical plaintext";

    let a = Encryption::encrypt(data, &key).unwrap();
    let b = Encryption::encrypt(data, &key).unwrap();
    assert_ne!(a.nonce, b.nonce);
    assert_ne!(a.ciphertext, b.ciphertext);
}

#[test]
fn test_key_encoding_is_not_identity() {
    // A known all-zero key must encode to 43 'A' characters in URL-safe
    // unpadded base64; this fails if the encoder handed its input back.
    let key = EncryptionKey { key: vec![0u8; 32] };
    let encoded = key.to_base64();
    assert_eq!(encoded, "A".repeat(43));
    let restored = EncryptionKey::from_base64(&encoded).unwrap();
    assert_eq!(restored.as_bytes(), &[0u8; 32][..]);
}

#[test]
fn test_malformed_key_encodings() {
    assert_eq!(
        EncryptionKey::from_base64("not!!!base64").unwrap_err(),
        EncryptionError::Base64Error
    );
    // Valid base64 of fewer than 32 bytes.
    assert_eq!(
        EncryptionKey::from_base64("AAAA").unwrap_err(),
        EncryptionError::InvalidKeyFormat
    );
}

#[test]
fn test_decrypt_rejects_bad_nonce_length() {
    let key = EncryptionKey::generate();
    let encrypted = Encryption::encrypt(b"abc", &key).unwrap();
    let tampered = kusatsu::crypto::EncryptedData {
        ciphertext: encrypted.ciphertext,
        nonce: vec![0u8; 5],
    };
    assert_eq!(
        Encryption::decrypt(&tampered, &key).unwrap_err(),
        EncryptionError::InvalidNonceLength
    );
}

#[test]
fn test_tampered_ciphertext_fails() {
    let key = EncryptionKey::generate();
    let mut encrypted = Encryption::encrypt(b"integrity matters", &key).unwrap();
    encrypted.ciphertext[0] ^= 0xff;
    assert_eq!(
        Encryption::decrypt(&encrypted, &key).unwrap_err(),
        EncryptionError::DecryptionFailed
    );
}

#[test]
fn test_generate_key_string_is_valid_transport_form() {
    let s = Encryption::generate_key_string();
    assert_eq!(s.len(), 43);
    assert!(EncryptionKey::from_url_encoded(&s).is_ok());
}
