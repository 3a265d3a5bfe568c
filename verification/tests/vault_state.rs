use sklad::model::{Node, NodeType};
use sklad::passwords::verify_password;
use sklad::gateway::{reveal_value, decrypt_for_display, menu_label};
use sklad::tree::encrypt_nodes_recursive;
use sklad::vault::{VaultManager, VaultState, AppSettings, AppSettingsSecurity};
use sklad::VaultError;

fn snippet(id: &str, value: Option<&str>, encrypted: Option<&str>, secret: bool) -> Node {
    Node {
        id: id.to_string(),
        node_type: NodeType::Snippet,
        label: format!("label-{}", id),
        parent_id: None,
        created_at: 0,
        children: None,
        value: value.map(|v| v.to_string()),
        encrypted_value: encrypted.map(|v| v.to_string()),
        is_secret: Some(secret),
    }
}

fn settings_with(hash: Option<String>, salt: Option<String>, enabled: bool) -> AppSettingsSecurity {
    AppSettingsSecurity {
        lock_timeout: 0,
        clear_clipboard: false,
        master_password_enabled: enabled,
        password_hash: hash,
        derivation_salt: salt,
    }
}

#[test]
fn new_vault_starts_locked() {
    let vm = VaultManager::new();
    assert!(!vm.is_vault_unlocked());
    assert!(vm.last_used_id.is_none());
}

#[test]
fn init_vault_unlocks_and_returns_persistable_settings() {
    let mut vm = VaultManager::new();
    let (hash, salt) = vm.init_vault("master-pw");
    assert!(vm.is_vault_unlocked());
    assert!(verify_password("master-pw", &hash));
    assert!(!verify_password("other", &hash));
    // the derivation salt is 16 random bytes, hex-encoded.
    assert_eq!(salt.len(), 32);
    assert!(salt.chars().all(|c| c.is_ascii_hexdigit()));
}

#[test]
fn init_then_unlock_same_key() {
    let mut vm = VaultManager::new();
    let (hash, salt) = vm.init_vault("master-pw");
    let key_after_init = match vm.state {
        VaultState::Unlocked(k) => k,
        VaultState::Locked => panic!("vault should be unlocked"),
    };
    vm.lock_vault();
    assert!(!vm.is_vault_unlocked());
    let security = settings_with(Some(hash), Some(salt), true);
    assert_eq!(vm.unlock_vault("master-pw", &security), Ok(true));
    let key_after_unlock = match vm.state {
        VaultState::Unlocked(k) => k,
        VaultState::Locked => panic!("vault should be unlocked"),
    };
    assert_eq!(key_after_init, key_after_unlock);
}

#[test]
fn unlock_wrong_password_reports_false_and_stays_locked() {
    let mut vm = VaultManager::new();
    let (hash, salt) = vm.init_vault("master-pw");
    vm.lock_vault();
    let security = settings_with(Some(hash), Some(salt), true);
    assert_eq!(vm.unlock_vault("wrong", &security), Ok(false));
    assert!(!vm.is_vault_unlocked());
}

#[test]
fn unlock_without_hash_while_enabled_is_inconsistent() {
    let mut vm = VaultManager::new();
    let security = settings_with(None, None, true);
    assert_eq!(vm.unlock_vault("pw", &security), Err(VaultError::InconsistentSecurityState));
    assert!(!vm.is_vault_unlocked());
}

#[test]
fn unlock_without_hash_while_disabled_succeeds_with_fallback_salt() {
    let mut vm = VaultManager::new();
    let security = settings_with(None, None, false);
    assert_eq!(vm.unlock_vault("pw", &security), Ok(true));
    assert!(vm.is_vault_unlocked());
}

#[test]
fn unlock_with_unusable_salt_is_inconsistent() {
    let mut vm = VaultManager::new();
    let (hash, _) = vm.init_vault("pw");
    vm.lock_vault();
    // a stored salt under 8 bytes cannot feed key derivation.
    let security = settings_with(Some(hash), Some("tiny".to_string()), true);
    assert_eq!(vm.unlock_vault("pw", &security), Err(VaultError::InconsistentSecurityState));
    assert!(!vm.is_vault_unlocked());
}

#[test]
fn disabling_master_password_forces_lock() {
    let mut vm = VaultManager::new();
    vm.init_vault("pw");
    assert!(vm.is_vault_unlocked());
    let security = settings_with(None, None, false);
    vm.apply_security_settings(&security);
    assert!(!vm.is_vault_unlocked());
    // with the feature on, the state is untouched.
    let mut vm2 = VaultManager::new();
    vm2.init_vault("pw");
    vm2.apply_security_settings(&settings_with(None, None, true));
    assert!(vm2.is_vault_unlocked());
}

#[test]
fn scenario_reveal_while_locked() {
    let mut vm = VaultManager::new();
    let tree = vec![snippet("a", None, Some("aa:bb"), true)];
    let r = reveal_value(&mut vm, &tree, "a");
    assert_eq!(r, Err(VaultError::VaultLocked));
    // the vault and the last-accessed record are unchanged.
    assert!(!vm.is_vault_unlocked());
    assert!(vm.last_used_id.is_none());
}

#[test]
fn reveal_decrypts_for_unlocked_vault() {
    let mut vm = VaultManager::new();
    vm.init_vault("pw");
    let key = match vm.state {
        VaultState::Unlocked(k) => k,
        VaultState::Locked => panic!(),
    };
    let sealed = encrypt_nodes_recursive(&vec![snippet("a", Some("sk-123"), None, true)], &key)
        .unwrap();
    let r = reveal_value(&mut vm, &sealed, "a");
    assert_eq!(r, Ok("sk-123".to_string()));
    assert_eq!(vm.last_used_id.as_deref(), Some("a"));
}

#[test]
fn reveal_nonsecret_needs_no_key() {
    let mut vm = VaultManager::new();
    let tree = vec![snippet("a", Some("plain text"), None, false)];
    assert_eq!(reveal_value(&mut vm, &tree, "a"), Ok("plain text".to_string()));
    assert_eq!(vm.last_used_id.as_deref(), Some("a"));
}

#[test]
fn reveal_errors() {
    let mut vm = VaultManager::new();
    vm.init_vault("pw");
    let tree = vec![
        snippet("empty", Some(""), None, false),
        snippet("noval", None, None, false),
        snippet("nosep", None, Some("nothexnosep"), true),
        snippet("badhex", None, Some("zz:zz"), true),
        snippet("noenc", Some("still plain"), None, true),
    ];
    assert_eq!(reveal_value(&mut vm, &tree, "missing"), Err(VaultError::EntryNotFound));
    assert_eq!(reveal_value(&mut vm, &tree, "empty"), Err(VaultError::EmptyValue));
    assert_eq!(reveal_value(&mut vm, &tree, "noval"), Err(VaultError::EmptyValue));
    assert_eq!(reveal_value(&mut vm, &tree, "nosep"), Err(VaultError::MalformedEncryptedValue));
    assert_eq!(reveal_value(&mut vm, &tree, "badhex"), Err(VaultError::MalformedEncryptedValue));
    assert_eq!(reveal_value(&mut vm, &tree, "noenc"), Err(VaultError::MalformedEncryptedValue));
    // tampered ciphertext under the right key: authentication fails.
    let key = match vm.state {
        VaultState::Unlocked(k) => k,
        VaultState::Locked => panic!(),
    };
    let sealed = encrypt_nodes_recursive(&vec![snippet("a", Some("sk"), None, true)], &key)
        .unwrap();
    let ev = sealed[0].encrypted_value.clone().unwrap();
    let (nonce_hex, ct_hex) = ev.split_once(':').unwrap();
    let mut flipped: String = ct_hex.to_string();
    let first = if flipped.remove(0) == '0' { '1' } else { '0' };
    flipped.insert(0, first);
    let tampered = vec![snippet("a", None, Some(&format!("{}:{}", nonce_hex, flipped)), true)];
    assert_eq!(reveal_value(&mut vm, &tampered, "a"), Err(VaultError::DecryptionFailed));
    // no error updated the last-accessed record.
    assert!(vm.last_used_id.is_none());
}

#[test]
fn reveal_treats_whitespace_only_as_empty() {
    let mut vm = VaultManager::new();
    let tree = vec![
        snippet("blank", Some("  \t\n"), None, false),
        snippet("padded", Some("x  "), None, false),
    ];
    // a value that trims down to nothing never reaches the clipboard.
    assert_eq!(reveal_value(&mut vm, &tree, "blank"), Err(VaultError::EmptyValue));
    assert!(vm.last_used_id.is_none());
    // a value with real content is returned as stored, untrimmed.
    assert_eq!(reveal_value(&mut vm, &tree, "padded"), Ok("x  ".to_string()));
}

#[test]
fn decrypt_for_display_respects_lock_state() {
    let mut vm = VaultManager::new();
    vm.init_vault("pw");
    let key = match vm.state {
        VaultState::Unlocked(k) => k,
        VaultState::Locked => panic!(),
    };
    let sealed = encrypt_nodes_recursive(&vec![snippet("a", Some("sk-123"), None, true)], &key)
        .unwrap();
    let shown = decrypt_for_display(&vm, &sealed);
    assert_eq!(shown[0].value.as_deref(), Some("sk-123"));
    vm.lock_vault();
    let hidden = decrypt_for_display(&vm, &sealed);
    assert!(hidden[0].value.is_none());
}

#[test]
fn menu_label_marks_secret_snippets() {
    let secret = snippet("a", None, None, true);
    let open = snippet("b", Some("v"), None, false);
    assert_eq!(menu_label(&secret), "\u{1f512} label-a");
    assert_eq!(menu_label(&open), "label-b");
}

#[test]
fn settings_defaults() {
    let s = AppSettings::default();
    assert_eq!(s.theme, "system");
    assert!(s.notifications_enabled);
    assert!(s.security.master_password_enabled);
    assert_eq!(s.security.lock_timeout, 0);
    assert!(!s.security.clear_clipboard);
    assert!(s.security.password_hash.is_none());
    assert!(s.security.derivation_salt.is_none());
}
