use sinkproof::hasher::hash_password;
use sinkproof::storage::FormatError;
use sinkproof::verification::{verify_password, verify_password_robust};

#[test]
fn test_verify_correct_password() {
    let password = "mi_contraseña_segura";
    let hash = hash_password(password, 2, 10).expect("Failed to hash");
    let stored = hash.to_string();

    let result = verify_password(password, &stored).expect("Verification failed");
    assert!(result);
}

#[test]
fn test_verify_incorrect_password() {
    let password = "mi_contraseña_segura";
    let hash = hash_password(password, 2, 10).expect("Failed to hash");
    let stored = hash.to_string();

    let result = verify_password("contraseña_incorrecta", &stored).expect("Verification failed");
    assert!(!result);
}

#[test]
fn test_verify_robust_correct_password() {
    let password = "test123";
    let hash = hash_password(password, 2, 5).expect("Failed to hash");
    let stored = hash.to_string();

    let result = verify_password_robust(password, &stored).expect("Verification failed");
    assert!(result);
}

#[test]
fn test_verify_robust_incorrect_password() {
    let password = "test123";
    let hash = hash_password(password, 2, 5).expect("Failed to hash");
    let stored = hash.to_string();

    let result = verify_password_robust("wrong_password", &stored).expect("Verification failed");
    assert!(!result);
}

#[test]
fn test_verify_invalid_format() {
    let result = verify_password("password", "invalid_format");
    assert!(result.is_err());
}

#[test]
fn concrete_scenario_two_threads_one_megabyte() {
    let stored = hash_password("correct-password", 2, 1).unwrap().to_string();
    assert!(stored.starts_with("Sinkproof:v1:2:1:"));
    assert_eq!(verify_password("correct-password", &stored), Ok(true));
    assert_eq!(verify_password("wrong-password", &stored), Ok(false));
}

#[test]
fn altered_record_is_rejected_not_an_error() {
    let stored = hash_password("pw", 1, 1).unwrap().to_string();
    let mut fields: Vec<String> = stored.split(':').map(|s| s.to_string()).collect();
    fields[2] = "2".to_string();
    let changed = fields.join(":");
    assert_eq!(verify_password("pw", &changed), Ok(false));
    let truncated = "Sinkproof:v1:1:1:AQID:AQID";
    assert_eq!(verify_password("pw", truncated), Ok(false));
}

#[test]
fn memory_that_overflows_is_a_format_error() {
    let text = format!("Sinkproof:v1:1:{}:AQID:AQID", usize::MAX);
    assert_eq!(verify_password("pw", &text), Err(FormatError::Memory));
    assert_eq!(verify_password("pw", "Sinkproof:v1:1:1:AQID"), Err(FormatError::FieldCount));
}
