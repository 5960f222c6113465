use password_vault::auth::{hash_master_password, verify_master_password};
use password_vault::errors::VaultError;

#[test]
fn hash_then_verify_succeeds() {
    let hash = hash_master_password("Secret123").unwrap();
    assert_eq!(hash.len(), 60);
    assert_eq!(verify_master_password("Secret123", &hash), Ok(true));
}

#[test]
fn verify_rejects_other_password() {
    let hash = hash_master_password("Secret123").unwrap();
    assert_eq!(verify_master_password("WrongPassword", &hash), Ok(false));
    assert_eq!(verify_master_password("", &hash), Ok(false));
}

#[test]
fn verify_errs_on_malformed_hash() {
    assert_eq!(
        verify_master_password("Secret123", "not a bcrypt hash"),
        Err(VaultError::CryptoFailure)
    );
    assert_eq!(verify_master_password("Secret123", ""), Err(VaultError::CryptoFailure));
}

#[test]
fn hashes_are_salted() {
    let h1 = hash_master_password("Secret123").unwrap();
    let h2 = hash_master_password("Secret123").unwrap();
    // fresh random salt each time, so the strings differ
    assert_ne!(h1, h2);
    assert_eq!(verify_master_password("Secret123", &h2), Ok(true));
}
