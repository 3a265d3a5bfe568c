//! The vault state machine: `Locked` or `Unlocked` with at most one
//! derived key in memory, plus the best-effort record of the most
//! recently accessed entry, and the security settings the unlock path
//! reads.

use vstd::prelude::*;
use vstd::utf8::encode_utf8;
use crate::VaultError;
use crate::crypto::Key;
use crate::hexcode::{hex_of, hex_encode, lemma_hex_of_ascii};
use crate::passwords::{password_verifies, derived_key, hash_password, verify_password,
    derive_key_from_password};

verus! {

/// Security configuration: whether a master password is required, the
/// password verification hash, and the stable key-derivation salt. The
/// two salt-bearing fields are independent: the verification hash embeds
/// its own salt, while `derivation_salt` feeds key derivation.
pub struct AppSettingsSecurity {
    pub lock_timeout: u32,
    pub clear_clipboard: bool,
    pub master_password_enabled: bool,
    pub password_hash: Option<String>,
    pub derivation_salt: Option<String>,
}

impl Default for AppSettingsSecurity {
    fn default() -> (r: Self)
        ensures
            r.lock_timeout == 0,
            !r.clear_clipboard,
            r.master_password_enabled,
            r.password_hash is None,
            r.derivation_salt is None,
    {
        AppSettingsSecurity {
            lock_timeout: 0,
            clear_clipboard: false,
            master_password_enabled: true,
            password_hash: None,
            derivation_salt: None,
        }
    }
}

/// Application settings; only `security` matters to the vault subsystem.
pub struct AppSettings {
    pub theme: String,
    pub security: AppSettingsSecurity,
    pub notifications_enabled: bool,
}

impl Default for AppSettings {
    fn default() -> (r: Self)
        ensures
            r.theme@ == "system"@,
            r.security.lock_timeout == 0,
            !r.security.clear_clipboard,
            r.security.master_password_enabled,
            r.security.password_hash is None,
            r.security.derivation_salt is None,
            r.notifications_enabled,
    {
        AppSettings {
            theme: String::from_str("system"),
            security: AppSettingsSecurity::default(),
            notifications_enabled: true,
        }
    }
}

/// The lock state: either no key is available, or exactly one derived
/// key is held in memory.
#[derive(Clone, Copy, Debug)]
pub enum VaultState {
    Locked,
    Unlocked(Key),
}

/// The owned, injectable vault state object: the lock state and the
/// identifier of the most recently accessed entry.
pub struct VaultManager {
    pub state: VaultState,
    pub last_used_id: Option<String>,
}

/// The salt used when settings carry no stored derivation salt. A fixed
/// fallback is a latent weakness — every vault without a stored salt
/// derives from the same salt — and is kept only for compatibility with
/// values already encrypted under it; `init_vault` always stores a fresh
/// random salt.
pub open spec fn default_salt_view() -> Seq<char> {
    "fixed-salt-for-demo"@
}

/// The salt string the unlock path derives with: the stored one, or the
/// fixed fallback when none was ever stored.
pub open spec fn effective_salt(security: AppSettingsSecurity) -> Seq<char> {
    match security.derivation_salt {
        Some(s) => s@,
        None => default_salt_view(),
    }
}

/// A salt string Argon2 accepts: between 8 and 2^32 - 1 bytes.
pub open spec fn salt_usable(salt: Seq<char>) -> bool {
    8 <= encode_utf8(salt).len() <= 0xFFFF_FFFF
}

/// The unlock preconditions that do not depend on the salt: a stored
/// hash must verify; a missing hash is acceptable only when the master
/// password feature is off.
pub open spec fn unlock_admissible(password: Seq<char>, security: AppSettingsSecurity) -> bool {
    match security.password_hash {
        Some(h) => password_verifies(password, h@),
        None => !security.master_password_enabled,
    }
}

impl VaultManager {
    /// A fresh vault: locked — the key is never persisted, so every
    /// process starts locked — with no last-accessed entry.
    pub fn new() -> (r: Self)
        ensures
            r.state is Locked,
            r.last_used_id is None,
    {
        VaultManager { state: VaultState::Locked, last_used_id: None }
    }

    /// Whether a key is currently available.
    pub fn is_vault_unlocked(&self) -> (r: bool)
        ensures
            r == (self.state is Unlocked),
    {
        match self.state {
            VaultState::Unlocked(_) => true,
            VaultState::Locked => false,
        }
    }

    /// Locks the vault, discarding the key. Always succeeds; the
    /// last-accessed record is kept.
    pub fn lock_vault(&mut self)
        ensures
            final(self).state is Locked,
            final(self).last_used_id == old(self).last_used_id,
    {
        self.state = VaultState::Locked;
    }

    /// First-time setup: hashes the password with a fresh random salt,
    /// generates a fresh random 16-byte derivation salt, derives the key
    /// and unlocks. Returns the verification hash and the hex-encoded
    /// derivation salt for the caller to persist.
    pub fn init_vault(&mut self, password: &str) -> (r: (String, String))
        requires
            encode_utf8(password@).len() <= 0xFFFF_FFFF,
        ensures
            password_verifies(password@, r.0@),
            exists|sb: Seq<u8>| sb.len() == 16 && r.1@ == #[trigger] hex_of(sb),
            final(self).state matches VaultState::Unlocked(k) && k@ == derived_key(
                password@,
                r.1@,
            ),
            final(self).last_used_id == old(self).last_used_id,
    {
        let hash = hash_password(password);
        let salt_bytes = crate::crypto::random_bytes(16);
        let salt_str = hex_encode(salt_bytes.as_slice());
        proof {
            lemma_hex_of_ascii(salt_bytes@);
        }
        let key = derive_key_from_password(password, salt_str.as_str());
        self.state = VaultState::Unlocked(key);
        (hash, salt_str)
    }

    /// Attempts to unlock with a password against stored security
    /// settings. A wrong password is the `Ok(false)` outcome, not an
    /// error; a missing hash while the master password is enabled, or an
    /// unusable stored salt, is the inconsistent-state error. On success
    /// the key derived from the password and the effective salt is held.
    pub fn unlock_vault(&mut self, password: &str, security: &AppSettingsSecurity) -> (r: Result<
        bool,
        VaultError,
    >)
        requires
            encode_utf8(password@).len() <= 0xFFFF_FFFF,
        ensures
            r == Ok::<bool, VaultError>(false) <==> (security.password_hash matches Some(h)
                && !password_verifies(password@, h@)),
            security.password_hash is None && security.master_password_enabled ==> r == Err::<
                bool,
                VaultError,
            >(VaultError::InconsistentSecurityState),
            unlock_admissible(password@, *security) && !salt_usable(effective_salt(*security))
                ==> r == Err::<bool, VaultError>(VaultError::InconsistentSecurityState),
            unlock_admissible(password@, *security) && salt_usable(effective_salt(*security))
                ==> r == Ok::<bool, VaultError>(true) && (final(self).state matches
                VaultState::Unlocked(k) && k@ == derived_key(
                password@,
                effective_salt(*security),
            )) && final(self).last_used_id == old(self).last_used_id,
            !(r == Ok::<bool, VaultError>(true)) ==> *final(self) == *old(self),
    {
        match &security.password_hash {
            Some(h) => {
                if !verify_password(password, h.as_str()) {
                    return Ok(false);
                }
            },
            None => {
                if security.master_password_enabled {
                    return Err(VaultError::InconsistentSecurityState);
                }
            },
        }
        let salt: &str = match &security.derivation_salt {
            Some(s) => s.as_str(),
            None => "fixed-salt-for-demo",
        };
        proof {
            assert(salt@ == effective_salt(*security));
        }
        let salt_bytes = salt.as_bytes();
        if salt_bytes.len() < 8 || salt_bytes.len() > 0xFFFF_FFFF {
            return Err(VaultError::InconsistentSecurityState);
        }
        let key = derive_key_from_password(password, salt);
        self.state = VaultState::Unlocked(key);
        Ok(true)
    }

    /// Applies a settings change to the in-memory state: once the master
    /// password is disabled, no key may be considered authoritative, so
    /// the vault is forced to `Locked`; otherwise nothing changes.
    pub fn apply_security_settings(&mut self, security: &AppSettingsSecurity)
        ensures
            !security.master_password_enabled ==> final(self).state is Locked,
            security.master_password_enabled ==> final(self).state == old(self).state,
            final(self).last_used_id == old(self).last_used_id,
    {
        if !security.master_password_enabled {
            self.state = VaultState::Locked;
        }
    }
}

} // verus!
