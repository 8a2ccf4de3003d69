use mesh_core::crypto::{decrypt_with_key, encrypt_with_key, generate_x25519_keypair, CryptoError, SessionKeys};

#[test]
fn test_x25519_key_exchange() {
    let (secret_a, public_a) = generate_x25519_keypair();
    let (secret_b, public_b) = generate_x25519_keypair();
    let session_a = SessionKeys::from_exchange(&secret_a, &public_b);
    let session_b = SessionKeys::from_exchange(&secret_b, &public_a);
    assert_eq!(session_a.shared_key, session_b.shared_key);
}

#[test]
fn test_encrypt_decrypt() {
    let (secret_a, public_a) = generate_x25519_keypair();
    let (secret_b, public_b) = generate_x25519_keypair();
    let session_a = SessionKeys::from_exchange(&secret_a, &public_b);
    let session_b = SessionKeys::from_exchange(&secret_b, &public_a);
    let plaintext = b"Hello, secure mesh!";
    let encrypted = session_a.encrypt(plaintext).unwrap();
    let decrypted = session_b.decrypt(&encrypted).unwrap();
    assert_eq!(plaintext.as_slice(), decrypted.as_slice());
}

#[test]
fn test_encrypt_decrypt_empty() {
    let (secret_a, public_a) = generate_x25519_keypair();
    let (secret_b, public_b) = generate_x25519_keypair();
    let session_a = SessionKeys::from_exchange(&secret_a, &public_b);
    let session_b = SessionKeys::from_exchange(&secret_b, &public_a);
    let encrypted = session_a.encrypt(b"").unwrap();
    let decrypted = session_b.decrypt(&encrypted).unwrap();
    assert!(decrypted.is_empty());
}

#[test]
fn test_wrong_key_fails() {
    let (secret_a, _) = generate_x25519_keypair();
    let (_, public_b) = generate_x25519_keypair();
    let (secret_c, _) = generate_x25519_keypair();
    let session_a = SessionKeys::from_exchange(&secret_a, &public_b);
    let session_c = SessionKeys::from_exchange(&secret_c, &public_b);
    let encrypted = session_a.encrypt(b"secret data").unwrap();
    assert!(session_c.decrypt(&encrypted).is_err());
}

#[test]
fn test_tampered_ciphertext_fails() {
    let (secret_a, public_a) = generate_x25519_keypair();
    let (secret_b, public_b) = generate_x25519_keypair();
    let session_a = SessionKeys::from_exchange(&secret_a, &public_b);
    let session_b = SessionKeys::from_exchange(&secret_b, &public_a);
    let mut encrypted = session_a.encrypt(b"integrity check").unwrap();
    if encrypted.len() > 13 {
        encrypted[13] ^= 0xFF;
    }
    assert!(session_b.decrypt(&encrypted).is_err());
}

#[test]
fn test_broadcast_key_encrypt_decrypt() {
    let key = [42u8; 32];
    let plaintext = b"broadcast message to all nodes";
    let encrypted = encrypt_with_key(&key, plaintext).unwrap();
    let decrypted = decrypt_with_key(&key, &encrypted).unwrap();
    assert_eq!(plaintext.as_slice(), decrypted.as_slice());
}

#[test]
fn test_broadcast_wrong_key_fails() {
    let key1 = [42u8; 32];
    let key2 = [99u8; 32];
    let encrypted = encrypt_with_key(&key1, b"secret").unwrap();
    assert!(decrypt_with_key(&key2, &encrypted).is_err());
}

#[test]
fn envelope_is_nonce_then_sealed_text() {
    let key = [7u8; 32];
    let sealed = encrypt_with_key(&key, b"abc").unwrap();
    assert_eq!(sealed.len(), 12 + 3 + 16);
    assert_ne!(&sealed[12..15], b"abc");
    let again = encrypt_with_key(&key, b"abc").unwrap();
    assert_ne!(sealed[..12], again[..12]);
}

#[test]
fn short_or_tampered_envelopes_are_refused() {
    let key = [7u8; 32];
    assert_eq!(decrypt_with_key(&key, &[0u8; 11]), Err(CryptoError::InvalidCiphertext));
    assert_eq!(decrypt_with_key(&key, &[0u8; 12]), Err(CryptoError::AuthFailure));
    let mut sealed = encrypt_with_key(&key, b"abc").unwrap();
    sealed[0] ^= 1;
    assert_eq!(decrypt_with_key(&key, &sealed), Err(CryptoError::AuthFailure));
}

#[test]
fn session_key_is_digest_of_agreement_not_raw() {
    let (secret_a, public_a) = generate_x25519_keypair();
    let (secret_b, public_b) = generate_x25519_keypair();
    assert_ne!(public_a, public_b);
    let s = SessionKeys::from_exchange(&secret_a, &public_b);
    assert_eq!(s.our_public, public_a);
    assert_ne!(s.shared_key, public_b);
    let _ = secret_b;
}
