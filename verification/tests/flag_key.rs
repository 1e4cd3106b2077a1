use stitchd_core::id::{FlagKey, FlagKeyError};

#[test]
fn test_flag_key_validation() {
    assert_eq!(FlagKey::new("".to_string()).unwrap_err(), FlagKeyError::Empty);
    assert_eq!(
        FlagKey::new("a".repeat(256)).unwrap_err(),
        FlagKeyError::TooLong
    );
    assert!(FlagKey::new("valid-key".to_string()).is_ok());
}

#[test]
fn flag_key_at_limit_is_accepted_and_kept() {
    let k = FlagKey::new("a".repeat(255)).unwrap();
    assert_eq!(k.as_str(), "a".repeat(255));
}

#[test]
fn flag_key_length_counts_characters() {
    // 200 two-byte characters: 400 bytes, but only 200 characters.
    assert!(FlagKey::new("é".repeat(200)).is_ok());
    assert_eq!(FlagKey::new("é".repeat(255)).unwrap().as_str(), "é".repeat(255));
    assert_eq!(FlagKey::new("é".repeat(256)).unwrap_err(), FlagKeyError::TooLong);
}
