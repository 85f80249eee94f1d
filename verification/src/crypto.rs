//! Hashing, encoding and randomness, as the `sha2`, `base64`, `rand` and
//! `argon2` crates provide them. Every item here is trusted: its contract
//! restates what the crate's source shows, and nothing below is proved.

use vstd::prelude::*;

use argon2::password_hash::rand_core::OsRng;
use argon2::password_hash::SaltString;
use argon2::{PasswordHash, PasswordHasher, PasswordVerifier};
use base64::Engine;
use sha2::Digest;

verus! {

/// The SHA-256 digest of `data`.
pub uninterp spec fn sha256_digest(data: Seq<u8>) -> Seq<u8>;

/// The unpadded URL-safe base64 encoding of `data`.
pub uninterp spec fn base64_url_nopad_encoding(data: Seq<u8>) -> Seq<char>;

/// What verifying `password` against the PHC string `encoded` with Argon2
/// yields: `None` when the string is not a usable hash, else whether the
/// password matches.
pub uninterp spec fn argon2_verification(password: Seq<char>, encoded: Seq<char>) -> Option<bool>;

/// The algorithm identifier of the PHC string `encoded`, or `None` when it does
/// not parse as one.
pub uninterp spec fn phc_algorithm(encoded: Seq<char>) -> Option<Seq<char>>;

/// A character of the URL-safe base64 alphabet.
pub open spec fn url_safe_base64_char(c: char) -> bool {
    ('A' <= c && c <= 'Z') || ('a' <= c && c <= 'z') || ('0' <= c && c <= '9') || c == '-' || c
        == '_'
}

/// The prefix of every PHC string that the Argon2id hasher with m=65536, t=3,
/// p=1 and version 0x13 writes.
pub open spec fn argon2id_prefix() -> Seq<char> {
    "$argon2id$v=19$m=65536,t=3,p=1$"@
}

/// `Sha256::digest` from `sha2`: the result is the digest of `data`, named.
#[verifier::external_body]
pub fn sha256(data: &[u8]) -> (res: [u8; 32])
    ensures
        res@ == sha256_digest(data@),
{
    sha2::Sha256::digest(data).into()
}

/// `URL_SAFE_NO_PAD.encode` from `base64`. Besides naming the result, the
/// contract states what `encoded_len` and the `URL_SAFE` alphabet in the
/// crate's source show: the length is `ceil(4n/3)` and every character is in
/// `A-Za-z0-9-_`.
#[verifier::external_body]
pub fn base64_url_nopad(data: &[u8]) -> (res: String)
    ensures
        res@ == base64_url_nopad_encoding(data@),
        res@.len() == (4 * data@.len() + 2) / 3,
        forall|i: int| 0 <= i < res@.len() ==> url_safe_base64_char(#[trigger] res@[i]),
{
    base64::engine::general_purpose::URL_SAFE_NO_PAD.encode(data)
}

/// `rand::random::<[u8; 32]>()`. Nothing is stated of the bytes.
#[verifier::external_body]
pub fn random_bytes_32() -> (res: [u8; 32]) {
    rand::random::<[u8; 32]>()
}

/// `rand::random::<[u8; 16]>()`. Nothing is stated of the bytes.
#[verifier::external_body]
pub fn random_bytes_16() -> (res: [u8; 16]) {
    rand::random::<[u8; 16]>()
}

/// `rand::random::<u128>()`. Nothing is stated of the value.
#[verifier::external_body]
pub fn random_u128() -> (res: u128) {
    rand::random::<u128>()
}

/// `PasswordHash::new` from `password-hash`, keeping the algorithm identifier
/// of a string that parses.
#[verifier::external_body]
pub fn parse_phc_algorithm(encoded: &str) -> (res: Option<String>)
    ensures
        res is Some == phc_algorithm(encoded@) is Some,
        res is Some ==> res->0@ == phc_algorithm(encoded@)->0,
{
    PasswordHash::new(encoded).ok().map(|hash| hash.algorithm.as_str().to_owned())
}

/// `PasswordVerifier::verify_password` of `argon2` on the parsed `encoded`
/// string: `None` when it does not parse or verification fails for another
/// reason than the password, `Some(false)` for a wrong password. The result is
/// named; Argon2 recomputes the hash from the password and the string alone.
#[verifier::external_body]
pub fn argon2_verify(password: &str, encoded: &str) -> (res: Option<bool>)
    ensures
        res == argon2_verification(password@, encoded@),
{
    let hash = match PasswordHash::new(encoded) {
        Ok(hash) => hash,
        Err(_) => return None,
    };
    let params = argon2::Params::new(65_536, 3, 1, Some(32)).ok()?;
    let hasher = argon2::Argon2::new(argon2::Algorithm::Argon2id, argon2::Version::V0x13, params);
    match hasher.verify_password(password.as_bytes(), &hash) {
        Ok(()) => Some(true),
        Err(error) if error.to_string().contains("password") => Some(false),
        Err(_) => None,
    }
}

/// `PasswordHasher::hash_password` of Argon2id (m=65536, t=3, p=1, 32-byte
/// output, version 0x13) with a salt from `SaltString::generate(&mut OsRng)`.
/// The salt is random, so the string is not named. What the source shows of
/// every outcome is stated: `PasswordHash`'s `Display` writes the algorithm,
/// `v=19` and the parameters `m`, `t`, `p` first; the string parses back with
/// algorithm `argon2id`; and verifying the same password against it recomputes
/// the same output, so it succeeds. With these valid parameters, a 32-byte
/// output and a generated 16-byte salt, the only refusal left in the source
/// is a password of more than `0xFFFF_FFFF` bytes, so a shorter one is
/// always hashed.
#[verifier::external_body]
pub fn argon2id_hash(password: &str) -> (res: Option<String>)
    ensures
        password.len() <= 0xFFFF_FFFF ==> res is Some,
        res matches Some(h) ==> {
            &&& argon2id_prefix().len() <= h@.len()
            &&& h@.subrange(0, argon2id_prefix().len() as int) == argon2id_prefix()
            &&& phc_algorithm(h@) == Some("argon2id"@)
            &&& argon2_verification(password@, h@) == Some(true)
        },
{
    let params = argon2::Params::new(65_536, 3, 1, Some(32)).ok()?;
    let hasher = argon2::Argon2::new(argon2::Algorithm::Argon2id, argon2::Version::V0x13, params);
    let salt = SaltString::generate(&mut OsRng);
    hasher.hash_password(password.as_bytes(), &salt).ok().map(|hash| hash.to_string())
}

} // verus!
