//! Admin password rules and the `.env` file that holds the admin credentials.

use vstd::prelude::*;

use crate::crypto::{
    argon2_verification, argon2_verify, argon2id_hash, argon2id_prefix, parse_phc_algorithm,
    phc_algorithm,
};
use crate::text::{chars_of, chars_start_with, spec_is_whitespace, starts_with, string_from_chars, trim};

verus! {

/// Shortest admin password, in UTF-8 bytes.
pub const PASSWORD_MIN_BYTES: usize = 12;

/// Longest admin password, in UTF-8 bytes.
pub const PASSWORD_MAX_BYTES: usize = 1024;

#[derive(Debug, Clone, Copy, PartialEq, Eq, Structural)]
pub enum PasswordError {
    InvalidLength,
    Hashing,
    InvalidHash,
}

#[derive(Debug, Clone, Copy, PartialEq, Eq, Structural)]
pub enum SecretsError {
    /// The `.env` file could not be read.
    Io,
    Syntax,
    Key,
    Missing,
    InvalidPasswordHash,
}

/// The UTF-8 length of `s`, as `str::len` reports it.
pub open spec fn byte_len(s: &str) -> usize {
    s.len()
}

/// Whether a password of this UTF-8 length may be hashed.
pub open spec fn password_length_ok(s: &str) -> bool {
    PASSWORD_MIN_BYTES <= byte_len(s) <= PASSWORD_MAX_BYTES
}

/// Whether `encoded` is written by the Argon2id hasher with the required
/// parameters.
pub open spec fn spec_required_password_hash(encoded: Seq<char>) -> bool {
    starts_with(encoded, argon2id_prefix())
}

/// What a successful hash of `password` is: an Argon2id PHC string with the
/// required parameters that verifies `password`.
pub open spec fn hash_of_password(password: Seq<char>, hash: Seq<char>) -> bool {
    &&& spec_required_password_hash(hash)
    &&& phc_algorithm(hash) == Some("argon2id"@)
    &&& argon2_verification(password, hash) == Some(true)
}

pub fn validate_password(password: &str) -> (res: Result<(), PasswordError>)
    ensures
        password_length_ok(password) ==> res is Ok,
        !password_length_ok(password) ==> res == Err::<(), PasswordError>(PasswordError::InvalidLength),
{
    let length = password.len();
    if PASSWORD_MIN_BYTES <= length && length <= PASSWORD_MAX_BYTES {
        Ok(())
    } else {
        Err(PasswordError::InvalidLength)
    }
}

pub fn is_required_password_hash(encoded_hash: &str) -> (res: bool)
    ensures
        res == spec_required_password_hash(encoded_hash@),
{
    let encoded = chars_of(encoded_hash);
    let prefix = chars_of("$argon2id$v=19$m=65536,t=3,p=1$");
    chars_start_with(encoded.as_slice(), prefix.as_slice())
}

/// Hashes a password with Argon2id and a random salt.
pub fn hash_password(password: &str) -> (res: Result<String, PasswordError>)
    ensures
        !password_length_ok(password) ==> res == Err::<String, PasswordError>(
            PasswordError::InvalidLength,
        ),
        password_length_ok(password) ==> (res matches Ok(hash) && hash_of_password(password@, hash@)),
{
    validate_password(password)?;
    match argon2id_hash(password) {
        Some(hash) => Ok(hash),
        None => Err(PasswordError::Hashing),
    }
}

/// Hashes `password` for the command line, if the confirmation repeats it.
pub fn hash_password_for_cli(password: &str, confirmation: &str) -> (res: Result<
    Option<String>,
    PasswordError,
>)
    ensures
        password@ != confirmation@ ==> res == Ok::<Option<String>, PasswordError>(None),
        password@ == confirmation@ && !password_length_ok(password) ==> res == Err::<
            Option<String>,
            PasswordError,
        >(PasswordError::InvalidLength),
        password@ == confirmation@ && password_length_ok(password) ==> (res matches Ok(Some(hash))
            && hash_of_password(password@, hash@)),
{
    if !crate::text::str_eq(password, confirmation) {
        return Ok(None);
    }
    match hash_password(password) {
        Ok(hash) => Ok(Some(hash)),
        Err(error) => Err(error),
    }
}

/// Checks `password` against a PHC hash string.
pub fn verify_password(password: &str, encoded_hash: &str) -> (res: Result<bool, PasswordError>)
    ensures
        match argon2_verification(password@, encoded_hash@) {
            Some(matches) => res == Ok::<bool, PasswordError>(matches),
            None => res == Err::<bool, PasswordError>(PasswordError::InvalidHash),
        },
{
    match argon2_verify(password, encoded_hash) {
        Some(matches) => Ok(matches),
        None => Err(PasswordError::InvalidHash),
    }
}

} // verus!
