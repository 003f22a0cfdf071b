use poker_server::password_policy::{validate_password, PasswordError, MAX_PASSWORD_LEN, MIN_PASSWORD_LEN};

#[test]
fn test_valid_password() {
    assert!(validate_password("Password123").is_ok());
    assert!(validate_password("MySecureP@ss1").is_ok());
}

#[test]
fn test_password_too_short() {
    let result = validate_password("Pass1");
    assert!(matches!(result, Err(PasswordError::InvalidLength { .. })));
}

#[test]
fn test_password_too_long() {
    let long_password = "a".repeat(MAX_PASSWORD_LEN + 1);
    let result = validate_password(&long_password);
    assert!(matches!(result, Err(PasswordError::InvalidLength { .. })));
}

#[test]
fn test_missing_uppercase() {
    assert!(matches!(
        validate_password("password123"),
        Err(PasswordError::MissingUppercase)
    ));
}

#[test]
fn test_missing_lowercase() {
    assert!(matches!(
        validate_password("PASSWORD123"),
        Err(PasswordError::MissingLowercase)
    ));
}

#[test]
fn test_missing_digit() {
    assert!(matches!(
        validate_password("PasswordABC"),
        Err(PasswordError::MissingDigit)
    ));
}

#[test]
fn test_min_boundary_length() {
    let min_password = "a".repeat(MIN_PASSWORD_LEN - 1);
    assert!(validate_password(&min_password).is_err());

    let valid_min = "aB1".repeat(3);
    assert!(validate_password(&valid_min).is_ok());
}
