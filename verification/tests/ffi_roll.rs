use solo5e::roll_internal;

#[test]
fn test_roll_internal() {
    // Test deterministic rolling
    let result1 = roll_internal(42, 3, 6);
    let result2 = roll_internal(42, 3, 6); // Same seed should give same result
    assert_eq!(result1, result2);
    assert!((3..=18).contains(&result1)); // 3d6 range
}

#[test]
fn test_roll_edge_cases() {
    assert_eq!(roll_internal(42, 0, 6), 0); // No rolls
    assert_eq!(roll_internal(42, 1, 1), 1); // Single-sided die
}
