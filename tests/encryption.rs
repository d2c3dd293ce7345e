use sha2::{Digest, Sha256};
use sinkproof::encryption::{
    decrypt_bytes, decrypt_phrase, encrypt_phrase, encrypt_phrase_with_nonce, normalize_key,
    unlocks_phrase, CipherError, VERIFICATION_PHRASE,
};

#[test]
fn test_encrypt_decrypt_roundtrip() {
    let key = b"this_is_a_32_byte_key_for_aes!!";

    let encrypted = encrypt_phrase(key).expect("Encryption failed");
    assert!(!encrypted.is_empty());

    let decrypted = decrypt_phrase(key, &encrypted).expect("Decryption failed");
    assert_eq!(decrypted, VERIFICATION_PHRASE);
}

#[test]
fn test_wrong_key_fails() {
    let key1 = b"this_is_a_32_byte_key_for_aes!!";
    let key2 = b"different_32_byte_key_for_aes!!";

    let encrypted = encrypt_phrase(key1).expect("Encryption failed");

    let result = decrypt_phrase(key2, &encrypted);
    assert!(result.is_err());
}

#[test]
fn test_different_encryptions_produce_different_ciphertexts() {
    let key = b"this_is_a_32_byte_key_for_aes!!";

    let encrypted1 = encrypt_phrase(key).expect("Encryption failed");
    let encrypted2 = encrypt_phrase(key).expect("Encryption failed");

    assert_ne!(encrypted1, encrypted2);

    let decrypted1 = decrypt_phrase(key, &encrypted1).expect("Decryption failed");
    let decrypted2 = decrypt_phrase(key, &encrypted2).expect("Decryption failed");

    assert_eq!(decrypted1, VERIFICATION_PHRASE);
    assert_eq!(decrypted2, VERIFICATION_PHRASE);
}

#[test]
fn test_short_key_handling() {
    let short_key = b"short";

    let encrypted = encrypt_phrase(short_key).expect("Encryption failed");
    let decrypted = decrypt_phrase(short_key, &encrypted).expect("Decryption failed");

    assert_eq!(decrypted, VERIFICATION_PHRASE);
}

#[test]
fn short_key_is_replaced_by_its_digest() {
    let expected = Sha256::digest(b"short").to_vec();
    assert_eq!(normalize_key(b"short"), expected);
    let encrypted = encrypt_phrase(&expected).expect("Encryption failed");
    assert_eq!(decrypt_phrase(b"short", &encrypted).unwrap(), VERIFICATION_PHRASE);
}

#[test]
fn long_key_is_cut_to_thirty_two_bytes() {
    let long_key: Vec<u8> = (0u8..40).collect();
    assert_eq!(normalize_key(&long_key), long_key[..32].to_vec());
    let exact: Vec<u8> = (0u8..32).collect();
    assert_eq!(normalize_key(&exact), exact);
    let encrypted = encrypt_phrase(&long_key).expect("Encryption failed");
    assert!(unlocks_phrase(&exact, &encrypted));
}

#[test]
fn blob_layout_is_nonce_then_sealed_phrase() {
    let key = [7u8; 32];
    let nonce = [9u8; 12];
    let blob = encrypt_phrase_with_nonce(&key, &nonce).unwrap();
    assert_eq!(blob.len(), 12 + VERIFICATION_PHRASE.len() + 16);
    assert_eq!(&blob[..12], &nonce[..]);
    assert_ne!(&blob[12..12 + VERIFICATION_PHRASE.len()], VERIFICATION_PHRASE.as_bytes());
    let again = encrypt_phrase_with_nonce(&key, &nonce).unwrap();
    assert_eq!(blob, again);
    assert_eq!(decrypt_bytes(&key, &blob).unwrap(), VERIFICATION_PHRASE.as_bytes().to_vec());
}

#[test]
fn short_blob_is_too_short() {
    let key = [1u8; 32];
    assert_eq!(decrypt_phrase(&key, &[0u8; 11]), Err(CipherError::TooShort));
    assert_eq!(decrypt_bytes(&key, &[]), Err(CipherError::TooShort));
    assert!(!unlocks_phrase(&key, &[0u8; 5]));
}

#[test]
fn altered_blob_fails_authentication() {
    let key = [3u8; 32];
    let mut blob = encrypt_phrase(&key).unwrap();
    let last = blob.len() - 1;
    blob[last] ^= 1;
    assert_eq!(decrypt_phrase(&key, &blob), Err(CipherError::Authentication));
    assert!(!unlocks_phrase(&key, &blob));
    assert_eq!(decrypt_phrase(&key, &blob[..12]), Err(CipherError::Authentication));
}

#[test]
fn blob_without_room_for_a_tag_fails() {
    let key = [5u8; 32];
    assert_eq!(decrypt_phrase(&key, &[0u8; 27]), Err(CipherError::Authentication));
    assert_eq!(decrypt_phrase(&key, &[0u8; 12]), Err(CipherError::Authentication));
    assert_eq!(encrypt_phrase(&key).unwrap().len(), 53);
}
