//! Password hashing: a salted, memory-hard hash for stored credentials, and
//! its verification.  Both lean on the argon2 crate.

use vstd::prelude::*;

use argon2::password_hash::rand_core::OsRng;
use argon2::password_hash::PasswordHash;
use argon2::password_hash::PasswordHasher;
use argon2::password_hash::PasswordVerifier;
use argon2::password_hash::SaltString;
use argon2::Argon2;

verus! {

/// Whether a password matches a stored hash string, as argon2's verifier
/// decides it.  A function of the two strings alone.
pub uninterp spec fn password_verifies(password: Seq<char>, hash: Seq<char>) -> bool;

/// Hash a password under a freshly drawn random salt.
///
/// Relies on argon2's `PasswordHasher::hash_password` with a salt from
/// `SaltString::generate`; the salt is random, so nothing relates two hashes
/// of the same password.  argon2 refuses a password of 2^32 bytes or more;
/// UTF-8 spends at most four bytes per character, so the character count is
/// held under a quarter of that byte bound.
#[verifier::external_body]
pub fn generate_hash(password: &str) -> (r: String)
    requires
        password@.len() * 4 < 0x1_0000_0000,
{
    let salt = SaltString::generate(&mut OsRng);
    let argon2 = Argon2::default();
    let password_hash = argon2
        .hash_password(password.as_bytes(), &salt)
        .expect("Failed to hash password")
        .to_string();
    password_hash
}

/// Check a password against a stored hash string; a hash that does not parse
/// in the PHC string format verifies nothing.
///
/// Relies on argon2's `PasswordVerifier::verify_password` and on
/// `PasswordHash::new`, both deterministic in their inputs.
#[verifier::external_body]
pub fn verify_password(password: &str, hashed_password: &str) -> (r: bool)
    ensures
        r == password_verifies(password@, hashed_password@),
{
    let argon2 = Argon2::default();
    match PasswordHash::new(hashed_password) {
        Ok(parsed_hash) => argon2.verify_password(password.as_bytes(), &parsed_hash).is_ok(),
        Err(_) => false,
    }
}

} // verus!
