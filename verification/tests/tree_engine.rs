use sklad::crypto::Key;
use sklad::model::{Node, NodeType};
use sklad::tree::{encrypt_nodes_recursive, decrypt_nodes_recursive, check_plain_secrets,
    find_node_by_id, remove_secrets_recursive, prepare_nodes_for_save};
use sklad::vault::VaultState;
use sklad::VaultError;

fn key_a() -> Key {
    [3u8; 32]
}

fn key_b() -> Key {
    [4u8; 32]
}

fn snippet(id: &str, value: Option<&str>, encrypted: Option<&str>, secret: bool) -> Node {
    Node {
        id: id.to_string(),
        node_type: NodeType::Snippet,
        label: format!("label-{}", id),
        parent_id: None,
        created_at: 0,
        children: None,
        value: value.map(|v| v.to_string()),
        encrypted_value: encrypted.map(|v| v.to_string()),
        is_secret: Some(secret),
    }
}

fn folder(id: &str, children: Vec<Node>) -> Node {
    Node {
        id: id.to_string(),
        node_type: NodeType::Folder,
        label: format!("label-{}", id),
        parent_id: None,
        created_at: 0,
        children: Some(children),
        value: None,
        encrypted_value: None,
        is_secret: Some(false),
    }
}

#[test]
fn scenario_encrypt_then_decrypt() {
    // tree [{id:"a", type:Snippet, secret:true, value:"sk-123"}], unlocked.
    let tree = vec![snippet("a", Some("sk-123"), None, true)];
    let key = key_a();
    let out = encrypt_nodes_recursive(&tree, &key).unwrap();
    assert_eq!(out.len(), 1);
    assert!(out[0].value.is_none());
    let ev = out[0].encrypted_value.as_ref().unwrap();
    let parts: Vec<&str> = ev.split(':').collect();
    assert_eq!(parts.len(), 2);
    assert_eq!(parts[0].len(), 24);
    assert!(parts[0].chars().all(|c| c.is_ascii_hexdigit()));
    assert!(parts[1].chars().all(|c| c.is_ascii_hexdigit()));

    let shown = decrypt_nodes_recursive(&out, &key);
    assert_eq!(shown[0].value.as_deref(), Some("sk-123"));
    // decrypted output is a projection: the encrypted value stays.
    assert_eq!(shown[0].encrypted_value.as_deref(), Some(ev.as_str()));

    // a different key reveals nothing.
    let hidden = decrypt_nodes_recursive(&out, &key_b());
    assert!(hidden[0].value.is_none());
}

#[test]
fn encrypt_skips_empty_and_nonsecret() {
    let tree = vec![
        snippet("empty", Some(""), None, true),
        snippet("open", Some("public text"), None, false),
    ];
    let out = encrypt_nodes_recursive(&tree, &key_a()).unwrap();
    // empty plaintext is deliberately left untouched, never encrypted.
    assert_eq!(out[0].value.as_deref(), Some(""));
    assert!(out[0].encrypted_value.is_none());
    // a non-secret snippet keeps its plaintext.
    assert_eq!(out[1].value.as_deref(), Some("public text"));
    assert!(out[1].encrypted_value.is_none());
}

#[test]
fn encrypt_recurses_into_folders() {
    let tree = vec![folder("f", vec![snippet("a", Some("deep secret"), None, true)])];
    let key = key_a();
    let out = encrypt_nodes_recursive(&tree, &key).unwrap();
    let child = &out[0].children.as_ref().unwrap()[0];
    assert!(child.value.is_none());
    assert!(child.encrypted_value.is_some());
    let shown = decrypt_nodes_recursive(&out, &key);
    assert_eq!(shown[0].children.as_ref().unwrap()[0].value.as_deref(), Some("deep secret"));
}

#[test]
fn encrypt_noop_on_tree_without_plaintext_secrets() {
    let key = key_a();
    let sealed = encrypt_nodes_recursive(&vec![snippet("a", Some("v"), None, true)], &key)
        .unwrap();
    let ev = sealed[0].encrypted_value.clone().unwrap();
    let tree = vec![
        snippet("a", None, Some(&ev), true),
        snippet("b", Some("plain"), None, false),
        folder("f", vec![]),
    ];
    let out = encrypt_nodes_recursive(&tree, &key).unwrap();
    assert_eq!(out.len(), 3);
    assert_eq!(out[0].value, tree[0].value);
    assert_eq!(out[0].encrypted_value, tree[0].encrypted_value);
    assert_eq!(out[1].value, tree[1].value);
    assert_eq!(out[1].encrypted_value, tree[1].encrypted_value);
    assert_eq!(out[2].id, tree[2].id);
    assert_eq!(out[2].children.as_ref().unwrap().len(), 0);
}

#[test]
fn decrypt_twice_same_result() {
    let key = key_a();
    let sealed = encrypt_nodes_recursive(
        &vec![snippet("a", Some("sk-123"), None, true), snippet("bad", None, Some("nothexnosep"), true)],
        &key,
    )
    .unwrap();
    let once = decrypt_nodes_recursive(&sealed, &key);
    let twice = decrypt_nodes_recursive(&once, &key);
    assert_eq!(once.len(), twice.len());
    for (a, b) in once.iter().zip(twice.iter()) {
        assert_eq!(a.id, b.id);
        assert_eq!(a.value, b.value);
        assert_eq!(a.encrypted_value, b.encrypted_value);
    }
}

#[test]
fn scenario_malformed_value_leaves_node_and_siblings() {
    let key = key_a();
    let sealed = encrypt_nodes_recursive(&vec![snippet("ok", Some("good"), None, true)], &key)
        .unwrap();
    let good_ev = sealed[0].encrypted_value.clone().unwrap();
    let tree = vec![
        snippet("bad", None, Some("nothexnosep"), true),
        snippet("ok", None, Some(&good_ev), true),
    ];
    let shown = decrypt_nodes_recursive(&tree, &key);
    // the malformed node's value stays absent ...
    assert!(shown[0].value.is_none());
    assert_eq!(shown[0].encrypted_value.as_deref(), Some("nothexnosep"));
    // ... without affecting its sibling.
    assert_eq!(shown[1].value.as_deref(), Some("good"));
}

#[test]
fn check_plain_secrets_spots_nested_plaintext() {
    assert!(!check_plain_secrets(&vec![]));
    assert!(!check_plain_secrets(&vec![snippet("open", Some("v"), None, false)]));
    assert!(check_plain_secrets(&vec![snippet("s", Some("v"), None, true)]));
    // an empty string still counts as plaintext present.
    assert!(check_plain_secrets(&vec![snippet("s", Some(""), None, true)]));
    assert!(!check_plain_secrets(&vec![snippet("s", None, Some("aa:bb"), true)]));
    assert!(check_plain_secrets(&vec![folder("f", vec![snippet("s", Some("v"), None, true)])]));
}

#[test]
fn lock_gates_save() {
    let tree = vec![snippet("a", Some("sk-123"), None, true)];
    let r = prepare_nodes_for_save(tree, &VaultState::Locked);
    assert_eq!(r.err(), Some(VaultError::VaultLocked));
}

#[test]
fn save_encrypts_when_unlocked() {
    let tree = vec![snippet("a", Some("sk-123"), None, true)];
    let key = key_a();
    let out = prepare_nodes_for_save(tree, &VaultState::Unlocked(key)).unwrap();
    assert!(out[0].value.is_none());
    assert!(out[0].encrypted_value.is_some());
}

#[test]
fn save_passes_clean_tree_through_even_locked() {
    let tree = vec![snippet("open", Some("v"), None, false)];
    let out = prepare_nodes_for_save(tree, &VaultState::Locked).unwrap();
    assert_eq!(out[0].value.as_deref(), Some("v"));
}

#[test]
fn find_node_by_id_searches_depth_first() {
    let tree = vec![
        folder("f", vec![snippet("x", Some("inner"), None, false)]),
        snippet("y", Some("outer"), None, false),
    ];
    let x = find_node_by_id(&tree, "x").unwrap();
    assert_eq!(x.value.as_deref(), Some("inner"));
    let y = find_node_by_id(&tree, "y").unwrap();
    assert_eq!(y.value.as_deref(), Some("outer"));
    let f = find_node_by_id(&tree, "f").unwrap();
    assert!(matches!(f.node_type, NodeType::Folder));
    assert!(find_node_by_id(&tree, "missing").is_none());
}

#[test]
fn remove_secrets_drops_secret_nodes_recursively() {
    let tree = vec![
        snippet("s", Some("v"), None, true),
        folder("f", vec![
            snippet("inner-secret", None, Some("aa:bb"), true),
            snippet("inner-open", Some("keep"), None, false),
        ]),
        snippet("open", Some("keep too"), None, false),
    ];
    let out = remove_secrets_recursive(&tree);
    assert_eq!(out.len(), 2);
    assert_eq!(out[0].id, "f");
    let kept = out[0].children.as_ref().unwrap();
    assert_eq!(kept.len(), 1);
    assert_eq!(kept[0].id, "inner-open");
    assert_eq!(out[1].id, "open");
}
