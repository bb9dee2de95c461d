use whatsapp_backup::crypto::{
    assemble_envelope, decrypt, derive_key, encrypt, encrypt_with, key_from_hash, open_envelope,
    parse_envelope, seal_envelope, ENVELOPE_OVERHEAD, NONCE_SIZE, SALT_SIZE, TAG_SIZE,
};
use whatsapp_backup::error::BackupError;

fn hex(bytes: &[u8]) -> String {
    whatsapp_backup::hex::to_hex(bytes)
}

#[test]
fn test_encrypt_decrypt_roundtrip() {
    let data = b"Hello, WhatsApp backup!";
    let passphrase = "test-passphrase-123";

    let encrypted = encrypt(data, passphrase).unwrap();
    let decrypted = decrypt(&encrypted, passphrase).unwrap();

    assert_eq!(data.as_slice(), decrypted.as_slice());
}

#[test]
fn test_wrong_passphrase_fails() {
    let data = b"Secret data";
    let encrypted = encrypt(data, "correct-password").unwrap();
    let result = decrypt(&encrypted, "wrong-password");

    assert!(result.is_err());
}

#[test]
fn wrong_passphrase_is_reported_as_decryption_failed() {
    let encrypted = encrypt(b"Secret data", "correct-password").unwrap();
    assert_eq!(decrypt(&encrypted, "wrong-password"), Err(BackupError::DecryptionFailed));
}

#[test]
fn roundtrip_of_empty_plaintext() {
    let encrypted = encrypt(b"", "pass phrase").unwrap();
    assert_eq!(encrypted.len(), ENVELOPE_OVERHEAD);
    assert_eq!(decrypt(&encrypted, "pass phrase").unwrap(), Vec::<u8>::new());
}

#[test]
fn envelope_is_plaintext_length_plus_overhead() {
    assert_eq!(ENVELOPE_OVERHEAD, SALT_SIZE + NONCE_SIZE + TAG_SIZE);
    let data = vec![7u8; 1000];
    let encrypted = encrypt(&data, "k").unwrap();
    assert_eq!(encrypted.len(), 1000 + 44);
}

#[test]
fn envelope_starts_with_salt_and_nonce() {
    let salt = [0x11u8; 16];
    let nonce = [0x22u8; 12];
    let encrypted = encrypt_with(b"abc", "k", &salt, &nonce).unwrap();
    assert_eq!(&encrypted[..16], &salt);
    assert_eq!(&encrypted[16..28], &nonce);
    assert_eq!(encrypted.len(), 3 + 44);
    assert_eq!(decrypt(&encrypted, "k").unwrap(), b"abc".to_vec());
}

#[test]
fn same_salt_and_nonce_give_the_same_envelope() {
    let salt = [1u8; 16];
    let nonce = [2u8; 12];
    let a = encrypt_with(b"payload", "k", &salt, &nonce).unwrap();
    let b = encrypt_with(b"payload", "k", &salt, &nonce).unwrap();
    assert_eq!(a, b);
}

#[test]
fn every_call_draws_a_fresh_salt_and_nonce() {
    let a = encrypt(b"payload", "k").unwrap();
    let b = encrypt(b"payload", "k").unwrap();
    assert_ne!(&a[..16], &b[..16]);
    assert_ne!(&a[16..28], &b[16..28]);
    assert_ne!(a, b);
}

#[test]
fn short_envelopes_are_malformed() {
    assert_eq!(decrypt(&[], "k"), Err(BackupError::MalformedEnvelope));
    assert_eq!(decrypt(&[0u8; 1], "k"), Err(BackupError::MalformedEnvelope));
    assert_eq!(decrypt(&[0u8; 43], "k"), Err(BackupError::MalformedEnvelope));
    let key = [0u8; 32];
    assert_eq!(open_envelope(&[0u8; 43], &key), Err(BackupError::MalformedEnvelope));
}

#[test]
fn shortest_envelope_of_garbage_fails_to_decrypt() {
    assert_eq!(decrypt(&[0u8; 44], "k"), Err(BackupError::DecryptionFailed));
}

#[test]
fn derive_key_is_deterministic_and_depends_on_both_inputs() {
    let salt_a = [5u8; 16];
    let salt_b = [6u8; 16];
    let k1 = derive_key("passphrase", &salt_a).unwrap();
    let k2 = derive_key("passphrase", &salt_a).unwrap();
    let k3 = derive_key("passphrase", &salt_b).unwrap();
    let k4 = derive_key("other", &salt_a).unwrap();
    assert_eq!(k1, k2);
    assert_ne!(k1, k3);
    assert_ne!(k1, k4);
    assert_ne!(&k1[..16], &salt_a[..]);
}

#[test]
fn derive_key_is_argon2id_with_the_default_parameters() {
    let salt = [9u8; 16];
    let mut expected = [0u8; 32];
    argon2::Argon2::default()
        .hash_password_into(b"correct horse", &salt, &mut expected)
        .unwrap();
    assert_eq!(derive_key("correct horse", &salt).unwrap(), expected);
}

#[test]
fn derive_key_accepts_any_passphrase() {
    let salt = [0u8; 16];
    assert!(derive_key("", &salt).is_ok());
    assert!(derive_key("päss wörd \u{1F512}", &salt).is_ok());
}

#[test]
fn key_is_the_first_32_bytes_of_the_hash() {
    let hash: Vec<u8> = (0u8..40).collect();
    let key = key_from_hash(Some(hash.clone())).unwrap();
    assert_eq!(&key[..], &hash[..32]);
    let exact: Vec<u8> = (100u8..132).collect();
    assert_eq!(&key_from_hash(Some(exact.clone())).unwrap()[..], &exact[..]);
}

#[test]
fn short_or_missing_hash_gives_no_key() {
    assert_eq!(key_from_hash(None), Err(BackupError::KeyDerivationError));
    assert_eq!(key_from_hash(Some(vec![1u8; 31])), Err(BackupError::KeyDerivationError));
    assert_eq!(key_from_hash(Some(Vec::new())), Err(BackupError::KeyDerivationError));
}

#[test]
fn sealing_is_aes_256_gcm() {
    // AES-256-GCM with an all-zero key and nonce, from the GCM test vectors.
    let key = [0u8; 32];
    let salt = [0xabu8; 16];
    let nonce = [0u8; 12];
    let empty = seal_envelope(b"", &key, &salt, &nonce).unwrap();
    assert_eq!(hex(&empty[28..]), "530f8afbc74536b9a963b4f1c4cb738b");
    let block = seal_envelope(&[0u8; 16], &key, &salt, &nonce).unwrap();
    assert_eq!(
        hex(&block[28..]),
        "cea7403d4d606b6e074ec5d3baf39d18d0d1c8a799996bf0265b98b5d48ab919"
    );
    assert_eq!(&block[..16], &salt);
    assert_eq!(&block[16..28], &nonce);
    assert_eq!(open_envelope(&block, &key).unwrap(), vec![0u8; 16]);
}

#[test]
fn flipping_any_bit_of_ciphertext_or_tag_is_detected() {
    let key = derive_key("tamper", &[3u8; 16]).unwrap();
    let envelope = seal_envelope(b"attack at dawn", &key, &[3u8; 16], &[4u8; 12]).unwrap();
    assert_eq!(open_envelope(&envelope, &key).unwrap(), b"attack at dawn".to_vec());
    for byte in 28..envelope.len() {
        for bit in 0..8 {
            let mut changed = envelope.clone();
            changed[byte] ^= 1 << bit;
            assert_eq!(open_envelope(&changed, &key), Err(BackupError::DecryptionFailed));
        }
    }
}

#[test]
fn flipping_a_bit_is_detected_by_decrypt() {
    let envelope = encrypt(b"attack at dawn", "tamper").unwrap();
    let last = envelope.len() - 1;
    for (byte, bit) in [(28usize, 0u8), (35, 7), (last - 16, 3), (last - 15, 0), (last, 7)] {
        let mut changed = envelope.clone();
        changed[byte] ^= 1 << bit;
        assert_eq!(decrypt(&changed, "tamper"), Err(BackupError::DecryptionFailed));
    }
}

#[test]
fn changed_nonce_or_salt_is_detected() {
    let envelope = encrypt(b"attack at dawn", "tamper").unwrap();
    let mut changed = envelope.clone();
    changed[0] ^= 1;
    assert_eq!(decrypt(&changed, "tamper"), Err(BackupError::DecryptionFailed));
    let mut changed = envelope.clone();
    changed[16] ^= 1;
    assert_eq!(decrypt(&changed, "tamper"), Err(BackupError::DecryptionFailed));
}

#[test]
fn truncated_envelope_is_refused() {
    let envelope = encrypt(b"attack at dawn", "tamper").unwrap();
    let cut = &envelope[..envelope.len() - 1];
    assert_eq!(decrypt(cut, "tamper"), Err(BackupError::DecryptionFailed));
}

#[test]
fn envelope_is_salt_then_nonce_then_sealed_text() {
    let salt: [u8; 16] = core::array::from_fn(|i| i as u8);
    let nonce: [u8; 12] = core::array::from_fn(|i| 100 + i as u8);
    let sealed: Vec<u8> = (200u8..220).collect();
    let envelope = assemble_envelope(&salt, &nonce, &sealed);
    assert_eq!(envelope.len(), 16 + 12 + 20);
    assert_eq!(&envelope[..16], &salt);
    assert_eq!(&envelope[16..28], &nonce);
    assert_eq!(&envelope[28..], &sealed[..]);
    let (s, n, rest) = parse_envelope(&envelope).unwrap();
    assert_eq!(s, salt);
    assert_eq!(n, nonce);
    assert_eq!(rest, &sealed[..]);
}

#[test]
fn parsing_needs_room_for_salt_nonce_and_tag() {
    assert_eq!(parse_envelope(&[]), Err(BackupError::MalformedEnvelope));
    assert_eq!(parse_envelope(&[7u8; 43]), Err(BackupError::MalformedEnvelope));
    let (salt, nonce, sealed) = parse_envelope(&[7u8; 44]).unwrap();
    assert_eq!(salt, [7u8; 16]);
    assert_eq!(nonce, [7u8; 12]);
    assert_eq!(sealed, &[7u8; 16]);
}
