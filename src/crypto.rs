//! Sealing a password under a key derived from the master key, and opening it.
use crate::error::Error;
use argon2::password_hash::{PasswordHasher, Salt, SaltString};
use argon2::Argon2;
use chacha20poly1305::aead::{Aead, KeyInit};
use chacha20poly1305::{ChaCha20Poly1305, Nonce};
use rand::rngs::OsRng;
use rand::RngCore;
use vstd::prelude::*;
use vstd::string::StringSliceAdditionalSpecFns;
use vstd::utf8::{decode_utf8, valid_utf8};

verus! {

/// The length of a nonce, in bytes.
pub const NONCE_LEN: usize = 12;

/// A sealed password: the ciphertext with its tag, the salt that the key was
/// derived with, and the nonce it was sealed under.
#[derive(Debug, Clone, PartialEq, Eq)]
pub struct EncryptedData {
    pub cipher_text: Vec<u8>,
    pub salt: String,
    pub nonce: Vec<u8>,
}

/// The key that Argon2 with its default parameters derives from a master key
/// and a salt, or nothing where the salt is refused.
pub uninterp spec fn argon2_key(master_key: Seq<u8>, salt: Seq<char>) -> Option<Seq<u8>>;

/// What ChaCha20-Poly1305 seals `plaintext` into under `key` and `nonce`, or
/// nothing where it fails.
pub uninterp spec fn sealed(key: Seq<u8>, nonce: Seq<u8>, plaintext: Seq<u8>) -> Option<Seq<u8>>;

/// What ChaCha20-Poly1305 opens `cipher_text` into under `key` and `nonce`,
/// or nothing where it does not authenticate.
pub uninterp spec fn opened(key: Seq<u8>, nonce: Seq<u8>, cipher_text: Seq<u8>) -> Option<Seq<u8>>;

/// The salt string that B64 encoding makes of `bytes`, or nothing where it
/// would be too long for a salt.
pub uninterp spec fn b64_salt(bytes: Seq<u8>) -> Option<Seq<char>>;

/// Relies on `RngCore::try_fill_bytes` of the operating system's generator:
/// `len` fresh random bytes, or nothing where the generator fails.
#[verifier::external_body]
fn fresh_bytes(len: usize) -> (r: Option<Vec<u8>>)
    ensures
        r matches Some(v) ==> v@.len() == len,
{
    let mut bytes = vec![0u8; len];
    OsRng.try_fill_bytes(&mut bytes).ok()?;
    Some(bytes)
}

/// Relies on `SaltString::encode_b64` of password-hash: the bytes in B64,
/// refused only where the encoding outgrows its 64-character buffer.
#[verifier::external_body]
fn salt_from_bytes(bytes: &[u8]) -> (r: Option<String>)
    ensures
        r is Some <==> b64_salt(bytes@) is Some,
        bytes@.len() <= 48 ==> r is Some,
        r matches Some(s) ==> b64_salt(bytes@) == Some(s@),
{
    SaltString::encode_b64(bytes).ok().map(|s| s.as_str().to_string())
}

/// Relies on `Salt::from_b64` and `PasswordHasher::hash_password` of
/// `Argon2::default()`: the hash output is the derived key.
#[verifier::external_body]
fn derive_key(master_key: &[u8], salt: &str) -> (r: Result<Vec<u8>, argon2::password_hash::Error>)
    ensures
        r is Ok <==> argon2_key(master_key@, salt@) is Some,
        r matches Ok(k) ==> argon2_key(master_key@, salt@) == Some(k@),
{
    let salt = Salt::from_b64(salt)?;
    let hash = Argon2::default().hash_password(master_key, salt)?;
    let output = hash.hash.ok_or(argon2::password_hash::Error::Crypto)?;
    Ok(output.as_bytes().to_vec())
}

/// Relies on `KeyInit::new_from_slice` and `Aead::encrypt` of
/// ChaCha20-Poly1305, which takes 32-byte keys only.
#[verifier::external_body]
fn seal(key: &[u8], nonce: &[u8], plaintext: &[u8]) -> (r: Option<Vec<u8>>)
    requires
        nonce@.len() == NONCE_LEN,
    ensures
        r is Some <==> sealed(key@, nonce@, plaintext@) is Some,
        r matches Some(c) ==> sealed(key@, nonce@, plaintext@) == Some(c@),
        key@.len() != 32 ==> r is None,
{
    let cipher = ChaCha20Poly1305::new_from_slice(key).ok()?;
    cipher.encrypt(Nonce::from_slice(nonce), plaintext).ok()
}

/// Relies on `KeyInit::new_from_slice` and `Aead::decrypt` of
/// ChaCha20-Poly1305, which takes 32-byte keys only.
#[verifier::external_body]
fn open(key: &[u8], nonce: &[u8], cipher_text: &[u8]) -> (r: Option<Vec<u8>>)
    requires
        nonce@.len() == NONCE_LEN,
    ensures
        r is Some <==> opened(key@, nonce@, cipher_text@) is Some,
        r matches Some(p) ==> opened(key@, nonce@, cipher_text@) == Some(p@),
        key@.len() != 32 ==> r is None,
{
    let cipher = ChaCha20Poly1305::new_from_slice(key).ok()?;
    cipher.decrypt(Nonce::from_slice(nonce), cipher_text).ok()
}

/// Relies on `String::from_utf8`, which accepts exactly the valid UTF-8 byte
/// sequences.
#[verifier::external_body]
fn utf8_text(bytes: Vec<u8>) -> (r: Option<String>)
    ensures
        r is Some <==> valid_utf8(bytes@),
        r matches Some(s) ==> s@ == decode_utf8(bytes@),
{
    String::from_utf8(bytes).ok()
}

/// The length of the random bytes a fresh salt is made of.
pub const SALT_BYTES: usize = 16;

/// Seals `password` under the key derived from `master_key` and `salt`, with
/// `nonce`.
pub fn encrypt_with(password: &str, master_key: &[u8], salt: String, nonce: Vec<u8>) -> (r: Result<
    EncryptedData,
    Error,
>)
    requires
        nonce@.len() == NONCE_LEN,
    ensures
        argon2_key(master_key@, salt@) is None <==> r matches Err(Error::PasswordHashError(_)),
        argon2_key(master_key@, salt@) matches Some(k) ==> match sealed(
            k,
            nonce@,
            password.spec_bytes(),
        ) {
            Some(ct) => r is Ok && r->Ok_0.salt@ == salt@ && r->Ok_0.nonce@ == nonce@
                && r->Ok_0.cipher_text@ == ct,
            None => r matches Err(Error::Crypto(_)),
        },
{
    let key = match derive_key(master_key, salt.as_str()) {
        Ok(k) => k,
        Err(e) => return Err(Error::PasswordHashError(e)),
    };
    match seal(key.as_slice(), nonce.as_slice(), password.as_bytes()) {
        Some(cipher_text) => Ok(EncryptedData { cipher_text, salt, nonce }),
        None => Err(Error::Crypto("encryption failed".to_string())),
    }
}

/// Seals `password` under a key derived from `master_key` with a fresh
/// random salt, and a fresh random nonce.
pub fn encrypt_password(password: &str, master_key: &[u8]) -> (r: Result<EncryptedData, Error>)
    ensures
        r matches Ok(d) ==> {
            &&& d.nonce@.len() == NONCE_LEN
            &&& argon2_key(master_key@, d.salt@) matches Some(k) && sealed(
                k,
                d.nonce@,
                password.spec_bytes(),
            ) == Some(d.cipher_text@)
        },
        r matches Err(e) ==> e matches Error::PasswordHashError(_) || e matches Error::Crypto(_),
{
    let salt_bytes = match fresh_bytes(SALT_BYTES) {
        Some(b) => b,
        None => return Err(Error::Crypto("no random salt available".to_string())),
    };
    let salt = match salt_from_bytes(salt_bytes.as_slice()) {
        Some(s) => s,
        None => return Err(Error::Crypto("salt could not be encoded".to_string())),
    };
    let nonce = match fresh_bytes(NONCE_LEN) {
        Some(n) => n,
        None => return Err(Error::Crypto("no random nonce available".to_string())),
    };
    encrypt_with(password, master_key, salt, nonce)
}

/// Opens a sealed password with a key derived from `master_key` and the
/// record's salt.
pub fn decrypt_password(data: &EncryptedData, master_key: &[u8]) -> (r: Result<String, Error>)
    ensures
        data.nonce@.len() != NONCE_LEN ==> r matches Err(Error::Crypto(_)),
        data.nonce@.len() == NONCE_LEN ==> match argon2_key(master_key@, data.salt@) {
            None => r matches Err(Error::PasswordHashError(_)),
            Some(k) => match opened(k, data.nonce@, data.cipher_text@) {
                None => r matches Err(Error::Crypto(_)),
                Some(p) => if valid_utf8(p) {
                    r is Ok && r->Ok_0@ == decode_utf8(p)
                } else {
                    r matches Err(Error::Crypto(_))
                },
            },
        },
{
    if data.nonce.len() != NONCE_LEN {
        return Err(Error::Crypto("malformed nonce".to_string()));
    }
    let key = match derive_key(master_key, data.salt.as_str()) {
        Ok(k) => k,
        Err(e) => return Err(Error::PasswordHashError(e)),
    };
    let plain = match open(key.as_slice(), data.nonce.as_slice(), data.cipher_text.as_slice()) {
        Some(p) => p,
        None => return Err(Error::Crypto("decryption failed".to_string())),
    };
    match utf8_text(plain) {
        Some(s) => Ok(s),
        None => Err(Error::Crypto("password is not valid UTF-8".to_string())),
    }
}

} // verus!
