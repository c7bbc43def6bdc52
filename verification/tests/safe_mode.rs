use acdc_parser::safe_mode::SafeMode;

#[test]
fn test_from_str() -> Result<(), String> {
    assert_eq!(SafeMode::from_str("unsafe")?, SafeMode::Unsafe);
    assert_eq!(SafeMode::from_str("UNSAFE")?, SafeMode::Unsafe);
    assert_eq!(SafeMode::from_str("safe")?, SafeMode::Safe);
    assert_eq!(SafeMode::from_str("server")?, SafeMode::Server);
    assert_eq!(SafeMode::from_str("secure")?, SafeMode::Secure);
    assert!(SafeMode::from_str("invalid").is_err());
    Ok(())
}

#[test]
fn test_ordering() {
    assert!(SafeMode::Unsafe < SafeMode::Safe);
    assert!(SafeMode::Safe < SafeMode::Server);
    assert!(SafeMode::Server < SafeMode::Secure);
}

#[test]
fn safe_mode_error_names_the_input_and_the_accepted_levels() {
    assert_eq!(
        SafeMode::from_str("Paranoid"),
        Err("invalid safe mode: 'Paranoid', expected: unsafe, safe, server, secure".to_string())
    );
}

#[test]
fn safe_mode_ranks_follow_the_declared_order() {
    assert_eq!(SafeMode::Unsafe.rank(), 0);
    assert_eq!(SafeMode::Safe.rank(), 1);
    assert_eq!(SafeMode::Server.rank(), 2);
    assert_eq!(SafeMode::Secure.rank(), 3);
    assert_eq!(SafeMode::default(), SafeMode::Unsafe);
    assert_eq!(SafeMode::from_str("SeRvEr"), Ok(SafeMode::Server));
}
