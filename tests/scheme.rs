use sinkproof::{hash_password, verify_password, SinkproofHash};

#[test]
fn test_hash_and_verify() {
    let password = "mi_contraseña_segura";
    let hash = hash_password(password, 2, 10).expect("Failed to hash password");

    assert!(verify_password(password, &hash.to_string()).expect("Failed to verify"));

    assert!(!verify_password("contraseña_incorrecta", &hash.to_string()).expect("Failed to verify"));
}

#[test]
fn test_different_salts() {
    let password = "test123";
    let hash1 = hash_password(password, 2, 10).expect("Failed to hash");
    let hash2 = hash_password(password, 2, 10).expect("Failed to hash");

    assert_ne!(hash1.to_string(), hash2.to_string());

    assert!(verify_password(password, &hash1.to_string()).expect("Failed to verify"));
    assert!(verify_password(password, &hash2.to_string()).expect("Failed to verify"));
}

#[test]
fn test_storage_format() {
    let password = "test_password";
    let hash = hash_password(password, 4, 50).expect("Failed to hash");
    let stored = hash.to_string();

    assert!(stored.starts_with("Sinkproof:v1:"));

    let parsed = SinkproofHash::from_string(&stored).expect("Failed to parse");
    assert_eq!(parsed.threads, 4);
    assert_eq!(parsed.memory_mb, 50);
}

#[test]
fn empty_password_round_trips() {
    let stored = hash_password("", 1, 1).unwrap().to_string();
    assert_eq!(verify_password("", &stored), Ok(true));
    assert_eq!(verify_password(" ", &stored), Ok(false));
}
