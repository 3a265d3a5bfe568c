//! A personal secret-snippet vault: password-based key derivation and
//! verification, a lock/unlock state machine holding at most one derived
//! key, authenticated encryption of secret values, and a recursive tree
//! engine that encrypts or decrypts secret snippets in place while leaving
//! the rest of the tree untouched.

use vstd::prelude::*;

pub mod hexcode;
pub mod crypto;
pub mod passwords;
pub mod vault;
pub mod tree;
pub mod gateway;
pub mod model;

verus! {

/// The error kinds of the vault subsystem.
///
/// `VaultLocked` is surfaced distinctly so that callers can prompt for an
/// unlock instead of showing a generic failure. `MalformedEncryptedValue`
/// covers a wrong part count or bad hex in a stored encrypted value;
/// `DecryptionFailed` covers an authentication-tag mismatch (wrong key,
/// corruption or tampering) and undecodable decrypted bytes.
#[derive(Clone, Copy, Debug, PartialEq, Eq, Structural)]
pub enum VaultError {
    VaultLocked,
    InconsistentSecurityState,
    MalformedEncryptedValue,
    DecryptionFailed,
    EncryptionFailed,
    EntryNotFound,
    EmptyValue,
}

impl VaultError {
    /// A human-readable description of the error.
    pub fn message(&self) -> (r: &'static str)
        ensures
            r@ == self.message_spec(),
    {
        match self {
            VaultError::VaultLocked => "Vault is Locked",
            VaultError::InconsistentSecurityState => "Security enabled but no password hash found. Please reset vault.",
            VaultError::MalformedEncryptedValue => "Invalid encrypted format",
            VaultError::DecryptionFailed => "Decryption failed",
            VaultError::EncryptionFailed => "Encryption failed",
            VaultError::EntryNotFound => "Snippet not found",
            VaultError::EmptyValue => "Empty value",
        }
    }

    pub open spec fn message_spec(&self) -> Seq<char> {
        match self {
            VaultError::VaultLocked => "Vault is Locked"@,
            VaultError::InconsistentSecurityState => "Security enabled but no password hash found. Please reset vault."@,
            VaultError::MalformedEncryptedValue => "Invalid encrypted format"@,
            VaultError::DecryptionFailed => "Decryption failed"@,
            VaultError::EncryptionFailed => "Encryption failed"@,
            VaultError::EntryNotFound => "Snippet not found"@,
            VaultError::EmptyValue => "Empty value"@,
        }
    }
}

} // verus!
