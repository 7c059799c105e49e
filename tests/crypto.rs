use hoover::crypto::CryptoContext;

#[test]
fn encrypt_decrypt_round_trip() {
    let key = [42u8; 32];
    let ctx = CryptoContext::new(&key);

    let plaintext = b"hello, encrypted world!";
    let (ciphertext, nonce) = ctx.encrypt(plaintext).unwrap_or_else(|e| panic!("{}", e.message()));
    let decrypted = ctx.decrypt(&nonce, &ciphertext).unwrap_or_else(|e| panic!("{}", e.message()));

    assert_eq!(decrypted, plaintext);
}

#[test]
fn wrong_key_fails_decryption() {
    let ctx1 = CryptoContext::new(&[1u8; 32]);
    let ctx2 = CryptoContext::new(&[2u8; 32]);

    let plaintext = b"secret data";
    let (ciphertext, nonce) = ctx1.encrypt(plaintext).unwrap_or_else(|e| panic!("{}", e.message()));
    let result = ctx2.decrypt(&nonce, &ciphertext);

    assert!(result.is_err());
}

#[test]
fn key_file_wrong_size_rejected() {
    assert!(CryptoContext::from_key_data(&[0u8; 16]).is_err());
    assert!(CryptoContext::from_key_data(&[0u8; 33]).is_err());
    let ctx = CryptoContext::from_key_data(&[5u8; 32]).unwrap_or_else(|e| panic!("{}", e.message()));
    assert_eq!(ctx.key_bytes(), &[5u8; 32]);
}

#[test]
fn key_update() {
    let mut ctx = CryptoContext::new(&[1u8; 32]);

    let plaintext = b"data";
    let (ciphertext, nonce) = ctx.encrypt(plaintext).unwrap_or_else(|e| panic!("{}", e.message()));

    ctx.update_key(&[2u8; 32]);

    assert!(ctx.decrypt(&nonce, &ciphertext).is_err());

    let (ciphertext2, nonce2) = ctx.encrypt(plaintext).unwrap_or_else(|e| panic!("{}", e.message()));
    let decrypted = ctx.decrypt(&nonce2, &ciphertext2).unwrap_or_else(|e| panic!("{}", e.message()));
    assert_eq!(decrypted, plaintext);
}

#[test]
fn ciphertext_carries_tag_and_differs() {
    let ctx = CryptoContext::new(&[3u8; 32]);
    let nonce = [0u8; 12];
    let c = ctx.encrypt_with_nonce(b"abcd", &nonce).unwrap_or_else(|e| panic!("{}", e.message()));
    assert_eq!(c.len(), 4 + 16);
    assert_ne!(&c[..4], b"abcd");
    let p = ctx.decrypt(&nonce, &c).unwrap_or_else(|e| panic!("{}", e.message()));
    assert_eq!(p, b"abcd");
}

#[test]
fn fresh_nonces_differ() {
    let a = CryptoContext::generate_nonce();
    let b = CryptoContext::generate_nonce();
    assert_ne!(a, b);
}
