use stitchd_core::hashing::{calculate_allocation, reduce_hash_to_basis_points};

#[test]
fn calculate_allocation_returns_u32_in_bp_range() {
    // calculate_allocation must return u32 in [0, 9999]
    let bp: u32 = calculate_allocation("my-flag", "env-abc", &["user-1".to_string()]);
    assert!(bp < 10_000, "basis-point value must be < 10000, got {bp}");
}

#[test]
fn calculate_allocation_is_deterministic_as_u32() {
    let v1: u32 = calculate_allocation("flag", "env", &["ctx".to_string()]);
    let v2: u32 = calculate_allocation("flag", "env", &["ctx".to_string()]);
    assert_eq!(v1, v2);
}

#[test]
fn calculate_allocation_covers_bp_range() {
    // 1000 distinct inputs should produce varied u32 outputs across [0, 9999]
    let mut seen = std::collections::HashSet::new();
    for i in 0..1000u32 {
        let bp: u32 = calculate_allocation("flag", "env", &[i.to_string()]);
        seen.insert(bp);
    }
    assert!(
        seen.len() > 900,
        "expected varied distribution, got {} unique values",
        seen.len()
    );
}

#[test]
fn reduction_uses_the_percentile_modulus() {
    // A context at percentile 51.1% lands in bucket 5110.
    assert_eq!(reduce_hash_to_basis_points(51_100), 5110);
    assert_eq!(reduce_hash_to_basis_points(12_345_678), 4567);
    assert_eq!(reduce_hash_to_basis_points(99_999), 9999);
    assert_eq!(reduce_hash_to_basis_points(100_000), 0);
    assert_eq!(reduce_hash_to_basis_points(u128::MAX), ((u128::MAX % 100_000) / 10) as u32);
}

#[test]
fn allocation_hashes_the_concatenated_bytes() {
    // Murmur3 x64-128 digest of "Hello, world!" (seed 0), little-endian.
    let digest = u128::from_le_bytes([
        0xDF, 0x65, 0xD6, 0xD2, 0xD1, 0x2D, 0x51, 0xF1, 0x64, 0xC5, 0xF3, 0xA8, 0x50, 0x66, 0x32,
        0x2C,
    ]);
    let expected = ((digest % 100_000) / 10) as u32;
    assert_eq!(calculate_allocation("Hello,", " world!", &[]), expected);
    assert_eq!(calculate_allocation("Hello", ", ", &["world".to_string(), "!".to_string()]), expected);
    assert_eq!(calculate_allocation("", "", &["Hello, world!".to_string()]), expected);
}

#[test]
fn empty_input_hashes_to_bucket_zero() {
    // The digest of the empty input under seed 0 is 0.
    assert_eq!(calculate_allocation("", "", &[]), 0);
}
