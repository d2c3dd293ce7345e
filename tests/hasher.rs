use sha2::{Digest, Sha256};
use sinkproof::digest::le_bytes_u64;
use sinkproof::hasher::{derive_key, generate_salt, hash_password, thread_worker, ConfigError};

#[test]
fn test_salt_generation() {
    let salt1 = generate_salt();
    let salt2 = generate_salt();

    assert_eq!(salt1.len(), 32);
    assert_eq!(salt2.len(), 32);
    assert_ne!(salt1, salt2);
}

#[test]
fn test_thread_worker_deterministic() {
    let password = "test";
    let salt = vec![1, 2, 3, 4];
    let memory_size = 1024;

    let output1 = thread_worker(password, &salt, 0, memory_size);
    let output2 = thread_worker(password, &salt, 0, memory_size);

    assert_eq!(output1.len(), 512);
    assert_eq!(output1, output2);
}

#[test]
fn test_different_thread_index_produces_different_output() {
    let password = "test";
    let salt = vec![1, 2, 3, 4];
    let memory_size = 1024;

    let output1 = thread_worker(password, &salt, 0, memory_size);
    let output2 = thread_worker(password, &salt, 1, memory_size);

    assert_ne!(output1, output2);
}

#[test]
fn test_hash_password_success() {
    let result = hash_password("test_password", 2, 5);
    assert!(result.is_ok());

    let hash = result.unwrap();
    assert_eq!(hash.threads, 2);
    assert_eq!(hash.memory_mb, 5);
    assert_eq!(hash.salt.len(), 32);
    assert!(!hash.encrypted_phrase.is_empty());
}

#[test]
fn record_blob_is_nonce_phrase_and_tag() {
    let hash = hash_password("pw", 1, 1).unwrap();
    assert_eq!(hash.version, "v1");
    assert_eq!(hash.encrypted_phrase.len(), 53);
}

#[test]
fn test_hash_password_invalid_params() {
    assert!(hash_password("test", 0, 5).is_err());
    assert!(hash_password("test", 2, 0).is_err());
}

#[test]
fn zero_parameters_name_the_field() {
    assert_eq!(hash_password("pw", 0, 1).unwrap_err(), ConfigError::ZeroThreads);
    assert_eq!(hash_password("pw", 0, 0).unwrap_err(), ConfigError::ZeroThreads);
    assert_eq!(hash_password("pw", 3, 0).unwrap_err(), ConfigError::ZeroMemory);
    assert_eq!(hash_password("pw", 0, usize::MAX).unwrap_err(), ConfigError::ZeroThreads);
}

fn seed(password: &str, salt: &[u8], index: u64) -> Vec<u8> {
    let mut input = password.as_bytes().to_vec();
    input.extend_from_slice(salt);
    input.extend_from_slice(&index.to_le_bytes());
    Sha256::digest(&input).to_vec()
}

#[test]
fn small_budget_repeats_the_seed() {
    let salt = [1u8, 2, 3, 4];
    let h0 = seed("test", &salt, 5);
    let out = thread_worker("test", &salt, 5, 31);
    assert_eq!(out, h0.repeat(16));
}

#[test]
fn one_round_rotates_and_pads() {
    let salt = [9u8, 8, 7];
    let h0 = seed("pw", &salt, 0);
    let mut input = h0.clone();
    input.extend_from_slice(&0u64.to_le_bytes());
    let mut h1 = Sha256::digest(&input).to_vec();
    h1.rotate_left(1);
    let out = thread_worker("pw", &salt, 0, 32);
    assert_eq!(out, h1.repeat(16));
}

#[test]
fn digest_length_holds_for_large_tables() {
    let out = thread_worker("pw", &[0u8; 32], 2, 64 * 1024);
    assert_eq!(out.len(), 512);
    assert_ne!(out[..32], out[32..64]);
}

#[test]
fn key_is_digest_of_concatenated_outputs() {
    let empty: Vec<Vec<u8>> = Vec::new();
    assert_eq!(
        derive_key(&empty),
        Sha256::digest(b"").to_vec()
    );
    let parts = vec![b"ab".to_vec(), b"c".to_vec()];
    let key = derive_key(&parts);
    assert_eq!(key[..4], [0xba, 0x78, 0x16, 0xbf]);
    let swapped = vec![b"c".to_vec(), b"ab".to_vec()];
    assert_ne!(derive_key(&swapped), key);
}

#[test]
fn little_endian_index_bytes() {
    assert_eq!(le_bytes_u64(0x0102), vec![2, 1, 0, 0, 0, 0, 0, 0]);
    assert_eq!(le_bytes_u64(u64::MAX), vec![255; 8]);
}
