//! Password hashing, password verification and key derivation, built on
//! the memory-hard Argon2 algorithm of the `argon2` crate.
//!
//! What the algorithm returns is named by the uninterpreted functions
//! `password_verifies` and `derived_key`: both calls are pure functions
//! of their arguments (the verification hash embeds its own salt), so
//! their results can be named without stating the algorithm.

use vstd::prelude::*;
use vstd::utf8::encode_utf8;
use argon2::Argon2;
use argon2::password_hash::{PasswordHash, PasswordHasher, PasswordVerifier, SaltString};
use aes_gcm::aead::OsRng;
use crate::crypto::Key;

verus! {

/// Whether Argon2 password verification accepts `password` against the
/// self-describing hash string `hash`. Deterministic in both; false for
/// any malformed hash string.
pub uninterp spec fn password_verifies(password: Seq<char>, hash: Seq<char>) -> bool;

/// The 256-bit key that Argon2 derives from a password and a salt string
/// with its default parameters. Deterministic in both arguments.
pub uninterp spec fn derived_key(password: Seq<char>, salt: Seq<char>) -> Seq<u8>;

/// Relies on argon2's `PasswordHasher::hash_password` with a freshly
/// generated random salt: the returned PHC hash string verifies against
/// the password it was made from. The password length bound keeps the
/// call from failing (Argon2 rejects passwords over 2^32 - 1 bytes).
#[verifier::external_body]
pub fn hash_password(password: &str) -> (r: String)
    requires
        encode_utf8(password@).len() <= 0xFFFF_FFFF,
    ensures
        password_verifies(password@, r@),
{
    let salt = SaltString::generate(&mut OsRng);
    let argon2 = Argon2::default();
    let password_hash = argon2.hash_password(password.as_bytes(), &salt).unwrap();
    password_hash.to_string()
}

/// Relies on argon2's `PasswordVerifier::verify_password` and
/// `PasswordHash::new`: deterministic in password and hash string, and
/// false — never an error outward — on a malformed hash or a mismatch.
#[verifier::external_body]
pub fn verify_password(password: &str, hash: &str) -> (r: bool)
    ensures
        r == password_verifies(password@, hash@),
{
    let parsed_hash = match PasswordHash::new(hash) {
        Ok(h) => h,
        Err(_) => return false,
    };
    Argon2::default().verify_password(password.as_bytes(), &parsed_hash).is_ok()
}

/// Relies on argon2's `hash_password_into` with default parameters, in
/// raw-output mode: deterministic in password and salt. The length bounds
/// exclude exactly the inputs the crate rejects (salt under 8 or over
/// 2^32 - 1 bytes, password over 2^32 - 1 bytes), so the call cannot
/// fail.
#[verifier::external_body]
pub fn derive_key_from_password(password: &str, salt_str: &str) -> (r: Key)
    requires
        encode_utf8(password@).len() <= 0xFFFF_FFFF,
        8 <= encode_utf8(salt_str@).len() <= 0xFFFF_FFFF,
    ensures
        r@ == derived_key(password@, salt_str@),
{
    let mut output_key = [0u8; 32];
    Argon2::default().hash_password_into(password.as_bytes(), salt_str.as_bytes(), &mut output_key)
        .expect("key derivation failed");
    output_key
}

/// Derivation determinism: any two keys derived from the same password
/// and the same salt are the same key.
pub proof fn lemma_derive_key_deterministic(
    password: Seq<char>,
    salt: Seq<char>,
    k1: Seq<u8>,
    k2: Seq<u8>,
)
    requires
        k1 == derived_key(password, salt),
        k2 == derived_key(password, salt),
    ensures
        k1 == k2,
{
}

} // verus!
