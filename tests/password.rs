use bossmang::password::{secure_compare, validate_password_strength, PasswordError};

#[test]
fn test_secure_compare() {
    assert!(secure_compare("same", "same"));
    assert!(!secure_compare("different", "strings"));
    assert!(!secure_compare("short", "longer"));
}

#[test]
fn test_password_strength_validation() {
    let weak_passwords = vec![
        "short",
        "nouppercase123!",
        "NOLOWERCASE123!",
        "NoSpecialChars123",
        "No!Numbers!Here!",
    ];

    for password in weak_passwords {
        let result = validate_password_strength(password);
        assert!(result.is_err(), "Password should be rejected: {}", password);
    }
}

#[test]
fn strong_password_is_accepted() {
    assert_eq!(validate_password_strength("Str0ng!Passw0rd"), Ok(()));
}

#[test]
fn password_errors_name_the_reason() {
    assert_eq!(validate_password_strength("Ab1!"), Err(PasswordError::TooShort));
    assert_eq!(validate_password_strength("NoSpecialChars123"), Err(PasswordError::NotVaried));
    // eleven bytes is still too short, twelve is enough
    assert_eq!(validate_password_strength("Abcdefgh1!x"), Err(PasswordError::TooShort));
    assert_eq!(validate_password_strength("Abcdefgh1!xy"), Ok(()));
}

#[test]
fn unicode_letters_count_by_their_case() {
    // 'É' is uppercase and 'é' lowercase outside ASCII
    assert_eq!(validate_password_strength("Éé1!éééééé"), Ok(()));
    assert_eq!(validate_password_strength("éé1!éééééééé"), Err(PasswordError::NotVaried));
}

#[test]
fn secure_compare_edge_cases() {
    assert!(secure_compare("", ""));
    assert!(!secure_compare("abc", "abd"));
    assert!(!secure_compare("abc", "ab"));
}
