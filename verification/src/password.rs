//! Password hashing and verification.
//!
//! A small strategy trait ([`PasswordAlgorithm`]) names the capability the services
//! depend on; the one implementation, [`Argon2PasswordAlgorithm`], is Argon2id with
//! the `argon2` crate's default parameters and a fresh 16-byte salt per hash.

use argon2::password_hash::Error as HashError;
use argon2::password_hash::rand_core::OsRng;
use argon2::password_hash::SaltString;
use argon2::{Argon2, PasswordHash, PasswordHasher, PasswordVerifier};
use vstd::prelude::*;
use vstd::string::StringSliceAdditionalSpecFns;

verus! {

/// Errors that can arise while hashing a password.
#[derive(Debug, Clone, Copy, PartialEq, Eq, Structural)]
pub enum PasswordHashError {
    /// The Argon2 configuration itself is invalid.
    InvalidConfig,
    /// Encoding the derived hash into its PHC string form failed.
    EncodingFailed,
    /// Decoding an input (salt or parameters) failed.
    DecodeFailed,
    /// Any other Argon2 failure.
    UnknownError,
}

impl PasswordHashError {
    /// What went wrong, in words.
    pub fn message(&self) -> (r: &'static str)
        ensures
            r@ == match *self {
                PasswordHashError::InvalidConfig => "invalid argon2 configuration"@,
                PasswordHashError::EncodingFailed => "failed to encode password hash"@,
                PasswordHashError::DecodeFailed => "failed to decode password hashing input"@,
                PasswordHashError::UnknownError => "unknown password hashing error"@,
            },
    {
        proof {
            reveal_strlit("invalid argon2 configuration");
            reveal_strlit("failed to encode password hash");
            reveal_strlit("failed to decode password hashing input");
            reveal_strlit("unknown password hashing error");
        }
        match self {
            PasswordHashError::InvalidConfig => "invalid argon2 configuration",
            PasswordHashError::EncodingFailed => "failed to encode password hash",
            PasswordHashError::DecodeFailed => "failed to decode password hashing input",
            PasswordHashError::UnknownError => "unknown password hashing error",
        }
    }
}

/// A password hashing strategy: derive a verifier-encoded hash from a plaintext
/// password, and check a candidate password against a stored hash.
pub trait PasswordAlgorithm {
    /// Hashes `password`, returning the PHC-string encoding to persist.
    fn hash_password(&self, password: &str) -> Result<String, PasswordHashError>;

    /// Whether `password` matches the stored `hash`; a malformed hash never matches.
    fn verify_password(&self, password: &str, hash: &str) -> bool;
}

/// Argon2id with the `argon2` crate's default parameters.
#[derive(Debug, Clone, Copy, Default)]
pub struct Argon2PasswordAlgorithm;

/// The PHC string that Argon2id with default parameters makes of `password` and the
/// B64-encoded salt `salt`, or none when hashing fails.
pub uninterp spec fn argon2id_phc(password: Seq<u8>, salt: Seq<char>) -> Option<Seq<char>>;

/// Whether Argon2id accepts `password` against the PHC string `hash`.
pub uninterp spec fn argon2id_matches(password: Seq<u8>, hash: Seq<char>) -> bool;

/// `SaltString::generate(&mut OsRng)`, as text: 16 bytes from the operating
/// system's generator, encoded as unpadded B64, which is 22 characters. Which bytes
/// come is left open; the generator panics only when the system cannot supply them.
#[verifier::external_body]
fn generate_salt() -> (r: String)
    ensures
        r@.len() == 22,
{
    SaltString::generate(&mut OsRng).as_str().to_string()
}

/// `SaltString::from_b64(salt)`, then `Argon2::default().hash_password`, rendered
/// with `to_string`: the PHC string, named by `argon2id_phc`. An error (a salt that
/// is not valid B64 of 4 to 64 characters, or an `argon2` failure) is classified
/// into a `PasswordHashError` by the same grouping of the `password_hash` error
/// variants throughout; which one comes is not stated.
#[verifier::external_body]
fn argon2id_hash(password: &[u8], salt: &str) -> (r: Result<String, PasswordHashError>)
    ensures
        match r {
            Ok(h) => argon2id_phc(password@, salt@) == Some(h@),
            Err(_) => argon2id_phc(password@, salt@) is None,
        },
{
    let hashed = match SaltString::from_b64(salt) {
        Ok(s) => match Argon2::default().hash_password(password, &s) {
            Ok(h) => Ok(h.to_string()),
            Err(e) => Err(e),
        },
        Err(e) => Err(e),
    };
    match hashed {
        Ok(h) => Ok(h),
        Err(HashError::Algorithm | HashError::Version | HashError::ParamNameInvalid) => Err(PasswordHashError::InvalidConfig),
        Err(HashError::B64Encoding(_) | HashError::PhcStringField | HashError::PhcStringTrailingData) => Err(PasswordHashError::EncodingFailed),
        Err(HashError::SaltInvalid(_) | HashError::ParamValueInvalid(_)) => Err(PasswordHashError::DecodeFailed),
        Err(_) => Err(PasswordHashError::UnknownError),
    }
}

/// `PasswordHash::new(hash)`, then `Argon2::default().verify_password`: true exactly
/// when both succeed. A PHC string that Argon2id made of `password` (with default
/// parameters, under any salt) verifies, as `PasswordVerifier` recomputes the hash
/// with the parameters and salt the string carries.
#[verifier::external_body]
fn argon2id_verify(password: &[u8], hash: &str) -> (r: bool)
    ensures
        r == argon2id_matches(password@, hash@),
        (exists|s: Seq<char>| argon2id_phc(password@, s) == Some(hash@)) ==> r,
{
    match PasswordHash::new(hash) {
        Ok(parsed) => Argon2::default().verify_password(password, &parsed).is_ok(),
        Err(_) => false,
    }
}

impl PasswordAlgorithm for Argon2PasswordAlgorithm {
    /// Hashes `password` under a fresh salt of 16 random bytes (22 B64 characters).
    fn hash_password(&self, password: &str) -> (r: Result<String, PasswordHashError>)
        ensures
            exists|s: Seq<char>|
                s.len() == 22 && match r {
                    Ok(h) => argon2id_phc(password.spec_bytes(), s) == Some(h@),
                    Err(_) => argon2id_phc(password.spec_bytes(), s) is None,
                },
    {
        let salt = generate_salt();
        argon2id_hash(password.as_bytes(), salt.as_str())
    }

    /// Checks `password` against `hash`: a hash that Argon2id made of this password
    /// always matches.
    fn verify_password(&self, password: &str, hash: &str) -> (r: bool)
        ensures
            r == argon2id_matches(password.spec_bytes(), hash@),
            (exists|s: Seq<char>| argon2id_phc(password.spec_bytes(), s) == Some(hash@)) ==> r,
    {
        argon2id_verify(password.as_bytes(), hash)
    }
}

} // verus!
