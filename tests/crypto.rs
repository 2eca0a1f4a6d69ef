use bossmang::crypto::{decrypt_password, encrypt_password, encrypt_with, EncryptedData};
use bossmang::error::Error;

#[test]
fn sealed_password_opens_with_the_same_master_key() {
    let data = encrypt_password("hunter2", b"Master!Key123").unwrap();
    assert_eq!(data.nonce.len(), 12);
    assert_ne!(data.cipher_text, b"hunter2".to_vec());
    assert_eq!(decrypt_password(&data, b"Master!Key123").unwrap(), "hunter2");
}

#[test]
fn wrong_master_key_fails_to_open() {
    let data = encrypt_password("hunter2", b"Master!Key123").unwrap();
    assert!(matches!(decrypt_password(&data, b"Other!Key1234"), Err(Error::Crypto(_))));
}

#[test]
fn tampered_record_fails_to_open() {
    let mut data = encrypt_password("secret", b"Master!Key123").unwrap();
    data.cipher_text[0] ^= 1;
    assert!(matches!(decrypt_password(&data, b"Master!Key123"), Err(Error::Crypto(_))));
}

#[test]
fn malformed_records_are_refused() {
    let data = encrypt_password("secret", b"Master!Key123").unwrap();
    let short_nonce = EncryptedData { nonce: vec![0; 5], ..data.clone() };
    assert!(matches!(decrypt_password(&short_nonce, b"Master!Key123"), Err(Error::Crypto(_))));
    let bad_salt = EncryptedData { salt: "!".to_string(), ..data };
    assert!(matches!(
        decrypt_password(&bad_salt, b"Master!Key123"),
        Err(Error::PasswordHashError(_))
    ));
}

#[test]
fn fresh_salt_and_nonce_each_time() {
    let a = encrypt_password("same", b"Master!Key123").unwrap();
    let b = encrypt_password("same", b"Master!Key123").unwrap();
    assert_ne!(a.salt, b.salt);
    assert_ne!(a.nonce, b.nonce);
}

#[test]
fn sealing_with_given_salt_and_nonce_is_reproducible() {
    let salt = "c2FsdHNhbHRzYWx0c2FsdA".to_string();
    let a = encrypt_with("hunter2", b"Master!Key123", salt.clone(), vec![7; 12]).unwrap();
    let b = encrypt_with("hunter2", b"Master!Key123", salt.clone(), vec![7; 12]).unwrap();
    assert_eq!(a, b);
    assert_eq!(a.salt, salt);
    assert_eq!(a.nonce, vec![7; 12]);
    assert_eq!(a.cipher_text.len(), "hunter2".len() + 16);
    assert_eq!(decrypt_password(&a, b"Master!Key123").unwrap(), "hunter2");
    let c = encrypt_with("hunter2", b"Master!Key123", salt, vec![8; 12]).unwrap();
    assert_ne!(a.cipher_text, c.cipher_text);
}

#[test]
fn sealing_with_a_malformed_salt_fails() {
    assert!(matches!(
        encrypt_with("x", b"Master!Key123", "!".to_string(), vec![0; 12]),
        Err(Error::PasswordHashError(_))
    ));
}
