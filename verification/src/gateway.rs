//! The secret-access gateway: the single read path that reveals one
//! entry's plaintext value on demand, enforcing the lock state, and the
//! display projection that decrypts a loaded tree when the vault is
//! open.

use vstd::prelude::*;
use vstd::string::StringExecFns;
use crate::VaultError;
use crate::crypto::{split_colon, decrypt_spec, decrypt, split_encoded};
use crate::model::{Node, NodeView, nodes_view};
use crate::tree::{find_view, find_node_by_id, decrypt_views, decrypt_nodes_recursive,
    clone_nodes};
use crate::vault::{VaultState, VaultManager};

verus! {

/// A whitespace character, as the emptiness test understands it: the
/// ASCII blanks. A value made only of these trims down to nothing.
pub open spec fn is_space_char(c: char) -> bool {
    c == ' ' || c == '\t' || c == '\n' || c == '\r' || c == '\u{b}' || c == '\u{c}'
}

/// Empty after trimming trailing whitespace: every character is
/// whitespace (the empty value included). Such a value is never handed
/// to the clipboard.
pub open spec fn is_blank(s: Seq<char>) -> bool {
    forall|i: int| 0 <= i < s.len() ==> is_space_char(#[trigger] s[i])
}

fn is_blank_str(s: &str) -> (r: bool)
    ensures
        r == is_blank(s@),
{
    let n = s.unicode_len();
    let mut i: usize = 0;
    while i < n
        invariant
            0 <= i <= n,
            n == s@.len(),
            forall|k: int| 0 <= k < i ==> is_space_char(#[trigger] s@[k]),
        decreases n - i,
    {
        let c = s.get_char(i);
        if !(c == ' ' || c == '\t' || c == '\n' || c == '\r' || c == '\u{b}' || c == '\u{c}') {
            return false;
        }
        i = i + 1;
    }
    true
}

/// What `reveal` returns for a tree, an entry identifier and a lock
/// state: the entry's plaintext — decrypted when it is secret and the
/// vault is open — or the first applicable error.
pub open spec fn reveal_spec(vs: Seq<NodeView>, id: Seq<char>, state: VaultState) -> Result<
    Seq<char>,
    VaultError,
> {
    match find_view(vs, id) {
        None => Err(VaultError::EntryNotFound),
        Some(f) => if f.is_secret == Some(true) {
            match state {
                VaultState::Locked => Err(VaultError::VaultLocked),
                VaultState::Unlocked(k) => match f.encrypted_value {
                    None => Err(VaultError::MalformedEncryptedValue),
                    Some(ev) => match split_colon(ev) {
                        None => Err(VaultError::MalformedEncryptedValue),
                        Some(p) => match decrypt_spec(p.1, p.0, k@) {
                            Err(e) => Err(e),
                            Ok(plain) => if is_blank(plain) {
                                Err(VaultError::EmptyValue)
                            } else {
                                Ok(plain)
                            },
                        },
                    },
                },
            }
        } else {
            let val = match f.value {
                Some(p) => p,
                None => Seq::empty(),
            };
            if is_blank(val) {
                Err(VaultError::EmptyValue)
            } else {
                Ok(val)
            }
        },
    }
}

/// Reveals one entry's plaintext value: looks the entry up depth-first,
/// requires an unlocked vault for a secret entry, decodes and decrypts
/// its stored encrypted value, and rejects a result that is empty after
/// trimming trailing whitespace. On success the entry is recorded as
/// last accessed; on any error nothing changes.
pub fn reveal_value(vm: &mut VaultManager, nodes: &Vec<Node>, id: &str) -> (r: Result<
    String,
    VaultError,
>)
    ensures
        r matches Ok(s) ==> reveal_spec(nodes_view(nodes@), id@, old(vm).state) == Ok::<
            Seq<char>,
            VaultError,
        >(s@),
        r matches Err(e) ==> reveal_spec(nodes_view(nodes@), id@, old(vm).state) == Err::<
            Seq<char>,
            VaultError,
        >(e),
        r is Ok ==> final(vm).state == old(vm).state && (final(vm).last_used_id matches Some(u)
            && u@ == id@),
        r is Err ==> *final(vm) == *old(vm),
{
    let node = match find_node_by_id(nodes, id) {
        Some(n) => n,
        None => {
            return Err(VaultError::EntryNotFound);
        },
    };
    let is_sec = match node.is_secret {
        Some(b) => b,
        None => false,
    };
    let value_to_copy: String = if is_sec {
        match &vm.state {
            VaultState::Locked => {
                return Err(VaultError::VaultLocked);
            },
            VaultState::Unlocked(k) => {
                match &node.encrypted_value {
                    None => {
                        return Err(VaultError::MalformedEncryptedValue);
                    },
                    Some(ev) => {
                        match split_encoded(ev.as_str()) {
                            None => {
                                return Err(VaultError::MalformedEncryptedValue);
                            },
                            Some(pair) => {
                                let (nonce_hex, ct_hex) = pair;
                                match decrypt(ct_hex.as_str(), nonce_hex.as_str(), k) {
                                    Ok(p) => p,
                                    Err(e) => {
                                        return Err(e);
                                    },
                                }
                            },
                        }
                    },
                }
            },
        }
    } else {
        match &node.value {
            Some(v) => v.clone(),
            None => String::new(),
        }
    };
    if is_blank_str(value_to_copy.as_str()) {
        return Err(VaultError::EmptyValue);
    }
    vm.last_used_id = Some(String::from_str(id));
    Ok(value_to_copy)
}

/// The label a menu renders for an entry: secret snippets are marked
/// with a lock glyph; decrypted values never appear in a label.
pub fn menu_label(n: &Node) -> (r: String)
    ensures
        n.is_secret == Some(true) ==> r@ == "\u{1f512} "@ + n.label@,
        n.is_secret != Some(true) ==> r@ == n.label@,
{
    let is_sec = match n.is_secret {
        Some(b) => b,
        None => false,
    };
    if is_sec {
        let mut s = String::from_str("\u{1f512} ");
        s.append(n.label.as_str());
        s
    } else {
        n.label.clone()
    }
}

/// The display projection of a loaded tree: with the vault open, every
/// decryptable secret is shown decrypted; locked, the tree is returned
/// as it is.
pub fn decrypt_for_display(vm: &VaultManager, nodes: &Vec<Node>) -> (r: Vec<Node>)
    ensures
        vm.state matches VaultState::Unlocked(k) ==> nodes_view(r@) == decrypt_views(
            nodes_view(nodes@),
            k@,
        ),
        vm.state is Locked ==> nodes_view(r@) == nodes_view(nodes@),
{
    match &vm.state {
        VaultState::Unlocked(k) => decrypt_nodes_recursive(nodes, k),
        VaultState::Locked => clone_nodes(nodes),
    }
}

} // verus!
