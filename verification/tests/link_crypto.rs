use aipg::link_crypto::{LinkCrypto, LinkCryptoError, LinkEncryptMode, NONCE_LEN};

#[test]
fn roundtrip_roundtrip_and_deterministic_key() {
    let crypto = LinkCrypto::new();
    let key = LinkCrypto::derive_key("sk-aipg-abc123");
    let plain = br#"{"model":"deepseek-chat","messages":[{"role":"user","content":"hi"}]}"#;
    let raw = crypto.encrypt(&key, plain);
    assert!(raw.len() >= NONCE_LEN + 16);
    let out = crypto.decrypt(&key, &raw).expect("decrypt ok");
    assert_eq!(&out[..], plain);
    assert_eq!(LinkCrypto::derive_key("t"), LinkCrypto::derive_key("t"));
    assert_ne!(LinkCrypto::derive_key("t"), LinkCrypto::derive_key("t2"));
}

#[test]
fn nonce_unique_per_message() {
    let crypto = LinkCrypto::new();
    let key = LinkCrypto::derive_key("k");
    let a = crypto.encrypt(&key, b"payload");
    let b = crypto.encrypt(&key, b"payload");
    assert_ne!(a[..NONCE_LEN], b[..NONCE_LEN], "each encryption takes a fresh nonce");
    assert_eq!(crypto.decrypt(&key, &a).unwrap(), b"payload");
    assert_eq!(crypto.decrypt(&key, &b).unwrap(), b"payload");
}

#[test]
fn wrong_key_fails() {
    let crypto = LinkCrypto::new();
    let raw = crypto.encrypt(&LinkCrypto::derive_key("real"), b"secret");
    assert!(crypto.decrypt(&LinkCrypto::derive_key("wrong"), &raw).is_err());
}

#[test]
fn tampered_payload_fails() {
    let crypto = LinkCrypto::new();
    let key = LinkCrypto::derive_key("k");
    let mut raw = crypto.encrypt(&key, b"payload");
    let last = raw.len() - 1;
    raw[last] ^= 0x01;
    assert!(crypto.decrypt(&key, &raw).is_err());
}

#[test]
fn too_short_rejected() {
    let crypto = LinkCrypto::new();
    let key = LinkCrypto::derive_key("k");
    assert!(matches!(crypto.decrypt(&key, &[0u8; 10]), Err(LinkCryptoError::TooShort(_))));
}

#[test]
fn fast_level_still_roundtrips() {
    let crypto = LinkCrypto::fast();
    let key = LinkCrypto::derive_key("k");
    let raw = crypto.encrypt(&key, b"compressible payload ".repeat(32).as_slice());
    let out = crypto.decrypt(&key, &raw).unwrap();
    assert_eq!(out, b"compressible payload ".repeat(32));
}

#[test]
fn mode_parse() {
    assert_eq!(LinkEncryptMode::parse("off"), LinkEncryptMode::Off);
    assert_eq!(LinkEncryptMode::parse("aes-gcm"), LinkEncryptMode::AesGcm);
    assert_eq!(LinkEncryptMode::parse("AES_GCM"), LinkEncryptMode::AesGcm);
    assert_eq!(LinkEncryptMode::parse("enforce"), LinkEncryptMode::Enforce);
    assert_eq!(LinkEncryptMode::parse("Strict"), LinkEncryptMode::Enforce);
    assert_eq!(LinkEncryptMode::parse("tls"), LinkEncryptMode::Tls);
    assert_eq!(LinkEncryptMode::parse(""), LinkEncryptMode::Off);
    assert_eq!(LinkEncryptMode::parse("garbage"), LinkEncryptMode::Off);
    for m in [LinkEncryptMode::Off, LinkEncryptMode::AesGcm, LinkEncryptMode::Enforce, LinkEncryptMode::Tls] {
        assert_eq!(LinkEncryptMode::parse(m.as_str()), m);
    }
    assert!(!LinkEncryptMode::Off.encrypts());
    assert!(LinkEncryptMode::AesGcm.encrypts());
    assert!(LinkEncryptMode::Enforce.encrypts());
    assert!(LinkEncryptMode::Tls.encrypts());
}

#[test]
fn mode_parse_trims_and_knows_aliases() {
    assert_eq!(LinkEncryptMode::parse("  Quic \t"), LinkEncryptMode::Tls);
    assert_eq!(LinkEncryptMode::parse("\u{3000}MANDATORY\n"), LinkEncryptMode::Enforce);
    assert_eq!(LinkEncryptMode::parse("aes"), LinkEncryptMode::AesGcm);
    assert_eq!(LinkEncryptMode::parse("a es"), LinkEncryptMode::Off);
    assert_eq!(LinkEncryptMode::default(), LinkEncryptMode::Off);
}

#[test]
fn try_encrypt_roundtrips() {
    let crypto = LinkCrypto::default();
    let key = LinkCrypto::derive_key("tok");
    let raw = crypto.try_encrypt(&key, b"hello").expect("small payload seals");
    assert_eq!(crypto.decrypt(&key, &raw).unwrap(), b"hello");
    let empty = crypto.encrypt(&key, b"");
    assert_eq!(crypto.decrypt(&key, &empty).unwrap(), b"");
}

#[test]
fn derived_key_is_sha256_of_token() {
    let key = LinkCrypto::derive_key("abc");
    assert_eq!(key[0], 0xba);
    assert_eq!(key[1], 0x78);
    assert_eq!(key[31], 0xad);
}

#[test]
fn crypto_error_messages() {
    assert_eq!(LinkCryptoError::TooShort(10).message(), "payload too short (10 bytes < nonce+tag minimum)");
    assert_eq!(LinkCryptoError::Decrypt.message(), "AES-GCM decrypt failed (bad token / tampered payload)");
    assert_eq!(LinkCryptoError::Decompress("x".to_string()).message(), "gzip decompress failed: x");
}

#[test]
fn unauthenticated_garbage_is_refused() {
    let crypto = LinkCrypto::new();
    let key = LinkCrypto::derive_key("k");
    let raw = crypto.decrypt(&key, &[7u8; 40]);
    assert!(matches!(raw, Err(LinkCryptoError::Decrypt)));
}
