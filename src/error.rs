//! The errors of the library.
use crate::bits::DecodeError;
use crate::capacity::CapacityError;
use argon2::password_hash::Error as HashError;
use vstd::prelude::*;

verus! {

#[verifier::external_type_specification]
#[verifier::external_body]
pub struct ExImageError(image::ImageError);

#[verifier::external_type_specification]
#[verifier::external_body]
pub struct ExHashError(HashError);

/// What can go wrong while hiding or recovering a payload, or while sealing
/// and opening a stored secret.
#[derive(Debug)]
pub enum Error {
    /// The image could not be decoded or encoded.
    Image(image::ImageError),
    /// The payload does not fit into the image.
    Capacity(CapacityError),
    /// The bits read back do not make up the bytes asked for.
    Decode(DecodeError),
    /// Authenticated encryption or decryption failed, or the record is malformed.
    Crypto(String),
    /// The key could not be derived from the master key and the salt.
    PasswordHashError(HashError),
}

} // verus!
