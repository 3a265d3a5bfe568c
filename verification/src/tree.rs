//! The tree crypto engine: recursive walks that encrypt newly entered
//! plaintext secrets, decrypt stored ones for display, look entries up,
//! and strip secret entries on a vault reset — each verified against a
//! model over `NodeView`.

use vstd::prelude::*;
use vstd::utf8::encode_utf8;
use crate::VaultError;
use crate::crypto::{Key, valid_encryption, decode_value, encrypt, decrypt_encoded, encode_value,
    within_cipher_limit};
use crate::model::{Node, NodeType, NodeView, node_view, nodes_view, is_secret_snippet,
    view_has_plain_secret, views_have_plain_secret, lemma_nodes_view_len, lemma_nodes_view_index,
    lemma_nodes_view_push};
use crate::vault::VaultState;

verus! {

broadcast use vstd::std_specs::vec::group_vec_axioms;

/// Relies on `str`'s `PartialEq`: character-for-character equality.
#[verifier::external_body]
pub(crate) fn str_eq(a: &str, b: &str) -> (r: bool)
    ensures
        r == (a@ == b@),
{
    a == b
}

/// An encoded wire value that is an encryption of `plain` under `key`.
pub open spec fn valid_encoded_value(key: Seq<u8>, plain: Seq<char>, ev: Seq<char>) -> bool {
    exists|ct_hex: Seq<char>, nonce_hex: Seq<char>|
        ev == nonce_hex + seq![':'] + ct_hex && #[trigger] valid_encryption(
            key,
            plain,
            ct_hex,
            nonce_hex,
        )
}

/// A secret snippet in this subtree holds a non-empty plaintext value —
/// exactly the nodes `encrypt_nodes_recursive` transforms.
pub open spec fn view_has_nonempty_plain(v: NodeView) -> bool
    decreases v,
{
    ||| match v.value {
        Some(p) => is_secret_snippet(v) && p.len() > 0,
        None => false,
    }
    ||| match v.children {
        Some(cs) => views_have_nonempty_plain(cs),
        None => false,
    }
}

pub open spec fn views_have_nonempty_plain(vs: Seq<NodeView>) -> bool
    decreases vs,
{
    if vs.len() == 0 {
        false
    } else {
        view_has_nonempty_plain(vs[0]) || views_have_nonempty_plain(vs.skip(1))
    }
}

/// Every secret snippet's plaintext in this subtree is short enough for
/// the cipher — the condition under which encryption is owed success.
pub open spec fn view_within_cipher_limit(v: NodeView) -> bool
    decreases v,
{
    &&& match v.value {
        Some(p) => !is_secret_snippet(v) || within_cipher_limit(encode_utf8(p).len()),
        None => true,
    }
    &&& match v.children {
        Some(cs) => views_within_cipher_limit(cs),
        None => true,
    }
}

pub open spec fn views_within_cipher_limit(vs: Seq<NodeView>) -> bool
    decreases vs,
{
    if vs.len() == 0 {
        true
    } else {
        view_within_cipher_limit(vs[0]) && views_within_cipher_limit(vs.skip(1))
    }
}

/// If one element of a forest breaks the cipher limit, the forest does.
proof fn lemma_views_within_at(vs: Seq<NodeView>, i: int)
    requires
        0 <= i < vs.len(),
        !view_within_cipher_limit(vs[i]),
    ensures
        !views_within_cipher_limit(vs),
    decreases vs,
{
    if i > 0 {
        lemma_views_within_at(vs.skip(1), i - 1);
    }
}

/// What encryption does to one node: every field but the two value slots
/// is kept; a secret snippet with a non-empty plaintext value moves to an
/// encrypted value and loses the plaintext; everything else keeps both
/// slots; children are transformed element for element.
pub open spec fn encrypts_to(v: NodeView, w: NodeView, key: Seq<u8>) -> bool
    decreases v,
{
    &&& w.id == v.id
    &&& w.node_type == v.node_type
    &&& w.label == v.label
    &&& w.parent_id == v.parent_id
    &&& w.created_at == v.created_at
    &&& w.is_secret == v.is_secret
    &&& match (v.children, w.children) {
        (Some(cs), Some(ds)) => seq_encrypts_to(cs, ds, key),
        (None, None) => true,
        _ => false,
    }
    &&& encrypts_value_to(v, w, key)
}

/// The value slots of `encrypts_to`: what happens to `value` and
/// `encrypted_value` on one node.
pub open spec fn encrypts_value_to(v: NodeView, w: NodeView, key: Seq<u8>) -> bool {
    match v.value {
        Some(p) => if is_secret_snippet(v) && p.len() > 0 {
            w.value is None && match w.encrypted_value {
                Some(ev) => valid_encoded_value(key, p, ev),
                None => false,
            }
        } else {
            w.value == v.value && w.encrypted_value == v.encrypted_value
        },
        None => w.value == v.value && w.encrypted_value == v.encrypted_value,
    }
}

pub open spec fn seq_encrypts_to(vs: Seq<NodeView>, ws: Seq<NodeView>, key: Seq<u8>) -> bool
    decreases vs,
{
    if vs.len() == 0 {
        ws.len() == 0
    } else {
        &&& ws.len() == vs.len()
        &&& encrypts_to(vs[0], ws[0], key)
        &&& seq_encrypts_to(vs.skip(1), ws.skip(1), key)
    }
}

/// What bulk decryption makes of one node: a secret snippet holding an
/// encrypted value gets its plaintext slot filled where decryption
/// succeeds and is left untouched where it fails; the encrypted value
/// always stays in place; children are mapped.
pub open spec fn decrypt_view(v: NodeView, key: Seq<u8>) -> NodeView
    decreases v,
{
    NodeView {
        value: match v.encrypted_value {
            Some(ev) => if is_secret_snippet(v) {
                match decode_value(ev, key) {
                    Some(p) => Some(p),
                    None => v.value,
                }
            } else {
                v.value
            },
            None => v.value,
        },
        children: match v.children {
            Some(cs) => Some(decrypt_views(cs, key)),
            None => None,
        },
        ..v
    }
}

pub open spec fn decrypt_views(vs: Seq<NodeView>, key: Seq<u8>) -> Seq<NodeView>
    decreases vs,
{
    if vs.len() == 0 {
        Seq::empty()
    } else {
        seq![decrypt_view(vs[0], key)] + decrypt_views(vs.skip(1), key)
    }
}

/// Depth-first lookup inside one node: the node itself, then its
/// children.
pub open spec fn find_in_node(v: NodeView, id: Seq<char>) -> Option<NodeView>
    decreases v,
{
    if v.id == id {
        Some(v)
    } else {
        match v.children {
            Some(cs) => find_view(cs, id),
            None => None,
        }
    }
}

/// Depth-first lookup over a forest, earlier siblings first.
pub open spec fn find_view(vs: Seq<NodeView>, id: Seq<char>) -> Option<NodeView>
    decreases vs,
{
    if vs.len() == 0 {
        None
    } else {
        match find_in_node(vs[0], id) {
            Some(f) => Some(f),
            None => find_view(vs.skip(1), id),
        }
    }
}

/// One kept node after a vault reset: the node with its children
/// filtered.
pub open spec fn strip_secret_node(v: NodeView) -> NodeView
    decreases v,
{
    NodeView {
        children: match v.children {
            Some(cs) => Some(remove_secret_views(cs)),
            None => None,
        },
        ..v
    }
}

/// What a vault reset keeps: every secret-flagged node is dropped, and
/// the children of the remaining nodes are filtered the same way.
pub open spec fn remove_secret_views(vs: Seq<NodeView>) -> Seq<NodeView>
    decreases vs,
{
    if vs.len() == 0 {
        Seq::empty()
    } else {
        let rest = remove_secret_views(vs.skip(1));
        if vs[0].is_secret == Some(true) {
            rest
        } else {
            seq![strip_secret_node(vs[0])] + rest
        }
    }
}

fn clone_node(n: &Node) -> (r: Node)
    ensures
        node_view(r) == node_view(*n),
    decreases n,
{
    Node {
        id: n.id.clone(),
        node_type: n.node_type,
        label: n.label.clone(),
        parent_id: match &n.parent_id {
            Some(s) => Some(s.clone()),
            None => None,
        },
        created_at: n.created_at,
        children: match &n.children {
            Some(cs) => Some(clone_nodes(cs)),
            None => None,
        },
        value: match &n.value {
            Some(s) => Some(s.clone()),
            None => None,
        },
        encrypted_value: match &n.encrypted_value {
            Some(s) => Some(s.clone()),
            None => None,
        },
        is_secret: n.is_secret,
    }
}

pub(crate) fn clone_nodes(ns: &Vec<Node>) -> (r: Vec<Node>)
    ensures
        nodes_view(r@) == nodes_view(ns@),
    decreases ns,
{
    let mut out: Vec<Node> = Vec::new();
    let mut i: usize = 0;
    while i < ns.len()
        invariant
            0 <= i <= ns@.len(),
            nodes_view(out@) == nodes_view(ns@.take(i as int)),
        decreases ns@.len() - i,
    {
        let c = clone_node(&ns[i]);
        proof {
            lemma_nodes_view_push(ns@.take(i as int), ns@[i as int]);
            lemma_nodes_view_push(out@, c);
            assert(ns@.take(i as int).push(ns@[i as int]) =~= ns@.take(i + 1));
        }
        out.push(c);
        i = i + 1;
    }
    proof {
        assert(ns@.take(ns@.len() as int) =~= ns@);
    }
    out
}

impl Clone for Node {
    /// A deep copy with the same view.
    fn clone(&self) -> (r: Self)
        ensures
            node_view(r) == node_view(*self),
    {
        clone_node(self)
    }
}

/// Whether any secret snippet in the forest currently holds a plaintext
/// value — the trigger condition checked before a save.
pub fn check_plain_secrets(nodes: &Vec<Node>) -> (r: bool)
    ensures
        r == views_have_plain_secret(nodes_view(nodes@)),
    decreases nodes,
{
    let mut i: usize = 0;
    while i < nodes.len()
        invariant
            0 <= i <= nodes@.len(),
            !views_have_plain_secret(nodes_view(nodes@.take(i as int))),
        decreases nodes@.len() - i,
    {
        let n = &nodes[i];
        let is_sec = match n.is_secret {
            Some(b) => b,
            None => false,
        };
        let mut hit = false;
        if matches!(n.node_type, NodeType::Snippet) && is_sec && n.value.is_some() {
            hit = true;
        }
        if !hit {
            if let Some(cs) = &n.children {
                if check_plain_secrets(cs) {
                    hit = true;
                }
            }
        }
        if hit {
            proof {
                lemma_nodes_view_index(nodes@, i as int);
                assert(view_has_plain_secret(node_view(nodes@[i as int])));
                lemma_views_have_plain_at(nodes_view(nodes@), i as int);
            }
            return true;
        }
        proof {
            lemma_nodes_view_push(nodes@.take(i as int), nodes@[i as int]);
            assert(nodes@.take(i as int).push(nodes@[i as int]) =~= nodes@.take(i + 1));
            lemma_nodes_view_index(nodes@, i as int);
            lemma_views_no_plain_push(
                nodes_view(nodes@.take(i as int)),
                node_view(nodes@[i as int]),
            );
        }
        i = i + 1;
    }
    proof {
        assert(nodes@.take(nodes@.len() as int) =~= nodes@);
    }
    false
}

/// If one element of a forest holds a plaintext secret, the forest does.
proof fn lemma_views_have_plain_at(vs: Seq<NodeView>, i: int)
    requires
        0 <= i < vs.len(),
        view_has_plain_secret(vs[i]),
    ensures
        views_have_plain_secret(vs),
    decreases vs,
{
    if i > 0 {
        lemma_views_have_plain_at(vs.skip(1), i - 1);
    }
}

/// Appending a clean node to a clean forest keeps it clean.
proof fn lemma_views_no_plain_push(vs: Seq<NodeView>, v: NodeView)
    requires
        !views_have_plain_secret(vs),
        !view_has_plain_secret(v),
    ensures
        !views_have_plain_secret(vs.push(v)),
    decreases vs,
{
    if vs.len() == 0 {
        assert(vs.push(v)[0] == v);
        assert(vs.push(v).skip(1) =~= Seq::<NodeView>::empty());
        assert(!views_have_plain_secret(Seq::<NodeView>::empty()));
        assert(!views_have_plain_secret(vs.push(v)));
    } else {
        assert(vs.push(v)[0] == vs[0]);
        assert(vs.push(v).skip(1) =~= vs.skip(1).push(v));
        lemma_views_no_plain_push(vs.skip(1), v);
    }
}

/// Depth-first search for an entry by identifier; a deep copy of the
/// first match in pre-order, or `None`.
pub fn find_node_by_id(nodes: &Vec<Node>, id: &str) -> (r: Option<Node>)
    ensures
        r is Some <==> find_view(nodes_view(nodes@), id@) is Some,
        r matches Some(n) ==> find_view(nodes_view(nodes@), id@) == Some(node_view(n)),
    decreases nodes,
{
    let ghost vs = nodes_view(nodes@);
    proof {
        lemma_nodes_view_len(nodes@);
        assert(vs.skip(0) =~= vs);
    }
    let mut i: usize = 0;
    while i < nodes.len()
        invariant
            0 <= i <= nodes@.len(),
            vs == nodes_view(nodes@),
            vs.len() == nodes@.len(),
            find_view(vs, id@) == find_view(vs.skip(i as int), id@),
        decreases nodes@.len() - i,
    {
        let n = &nodes[i];
        proof {
            lemma_nodes_view_index(nodes@, i as int);
            assert(vs.skip(i as int)[0] == vs[i as int]);
        }
        if str_eq(n.id.as_str(), id) {
            let c = clone_node(n);
            proof {
                assert(find_in_node(vs[i as int], id@) == Some(vs[i as int]));
            }
            return Some(c);
        }
        let mut found: Option<Node> = None;
        if let Some(cs) = &n.children {
            found = find_node_by_id(cs, id);
        }
        match found {
            Some(f) => {
                proof {
                    assert(find_in_node(vs[i as int], id@) == Some(node_view(f)));
                }
                return Some(f);
            },
            None => {
                proof {
                    assert(find_in_node(vs[i as int], id@) is None);
                    assert(vs.skip(i as int).skip(1) =~= vs.skip(i + 1));
                }
            },
        }
        i = i + 1;
    }
    proof {
        assert(vs.skip(vs.len() as int) =~= Seq::<NodeView>::empty());
    }
    None
}

/// If one element of a forest holds a non-empty plaintext secret, the
/// forest does.
proof fn lemma_views_have_nonempty_at(vs: Seq<NodeView>, i: int)
    requires
        0 <= i < vs.len(),
        view_has_nonempty_plain(vs[i]),
    ensures
        views_have_nonempty_plain(vs),
    decreases vs,
{
    if i > 0 {
        lemma_views_have_nonempty_at(vs.skip(1), i - 1);
    }
}

proof fn lemma_seq_encrypts_to_push(vs: Seq<NodeView>, ws: Seq<NodeView>, v: NodeView, w: NodeView, key: Seq<u8>)
    requires
        seq_encrypts_to(vs, ws, key),
        encrypts_to(v, w, key),
    ensures
        seq_encrypts_to(vs.push(v), ws.push(w), key),
    decreases vs,
{
    reveal_with_fuel(seq_encrypts_to, 3);
    if vs.len() == 0 {
        assert(ws.len() == 0);
        assert(vs.push(v)[0] == v);
        assert(ws.push(w)[0] == w);
        assert(vs.push(v).skip(1) =~= Seq::<NodeView>::empty());
        assert(ws.push(w).skip(1) =~= Seq::<NodeView>::empty());
    } else {
        assert(vs.push(v)[0] == vs[0]);
        assert(ws.push(w)[0] == ws[0]);
        assert(vs.push(v).skip(1) =~= vs.skip(1).push(v));
        assert(ws.push(w).skip(1) =~= ws.skip(1).push(w));
        lemma_seq_encrypts_to_push(vs.skip(1), ws.skip(1), v, w, key);
    }
}

proof fn lemma_decrypt_views_push(vs: Seq<NodeView>, v: NodeView, key: Seq<u8>)
    ensures
        decrypt_views(vs.push(v), key) =~~= decrypt_views(vs, key).push(decrypt_view(v, key)),
    decreases vs,
{
    reveal_with_fuel(decrypt_views, 3);
    if vs.len() == 0 {
        assert(vs.push(v)[0] == v);
        assert(vs.push(v).skip(1) =~= Seq::<NodeView>::empty());
    } else {
        assert(vs.push(v)[0] == vs[0]);
        assert(vs.push(v).skip(1) =~= vs.skip(1).push(v));
        lemma_decrypt_views_push(vs.skip(1), v, key);
    }
}

proof fn lemma_remove_secret_views_push(vs: Seq<NodeView>, v: NodeView)
    ensures
        remove_secret_views(vs.push(v)) =~~= remove_secret_views(vs) + (if v.is_secret == Some(true) {
            Seq::<NodeView>::empty()
        } else {
            seq![strip_secret_node(v)]
        }),
    decreases vs,
{
    reveal_with_fuel(remove_secret_views, 3);
    if vs.len() == 0 {
        assert(vs.push(v)[0] == v);
        assert(vs.push(v).skip(1) =~= Seq::<NodeView>::empty());
    } else {
        assert(vs.push(v)[0] == vs[0]);
        assert(vs.push(v).skip(1) =~= vs.skip(1).push(v));
        lemma_remove_secret_views_push(vs.skip(1), v);
    }
}

fn encrypt_node(n: &Node, key: &Key) -> (r: Result<Node, VaultError>)
    ensures
        r matches Ok(m) ==> encrypts_to(node_view(*n), node_view(m), key@),
        !view_has_nonempty_plain(node_view(*n)) ==> r is Ok,
        view_within_cipher_limit(node_view(*n)) ==> r is Ok,
        r matches Err(e) ==> e == VaultError::EncryptionFailed,
    decreases n,
{
    let is_sec = match n.is_secret {
        Some(b) => b,
        None => false,
    };
    let mut value: Option<String> = match &n.value {
        Some(s) => Some(s.clone()),
        None => None,
    };
    let mut encrypted_value: Option<String> = match &n.encrypted_value {
        Some(s) => Some(s.clone()),
        None => None,
    };
    if matches!(n.node_type, NodeType::Snippet) && is_sec {
        if let Some(plain) = &n.value {
            if !plain.as_str().is_empty() {
                match encrypt(plain.as_str(), key) {
                    Ok(pair) => {
                        let (ct_hex, nonce_hex) = pair;
                        let ghost ct_view = ct_hex@;
                        let ghost nonce_view = nonce_hex@;
                        let ev = encode_value(ct_hex, nonce_hex);
                        proof {
                            assert(ev@ == nonce_view + seq![':'] + ct_view && valid_encryption(
                                key@,
                                plain@,
                                ct_view,
                                nonce_view,
                            ));
                            assert(valid_encoded_value(key@, plain@, ev@));
                        }
                        encrypted_value = Some(ev);
                        value = None;
                    },
                    Err(e) => {
                        proof {
                            assert(view_has_nonempty_plain(node_view(*n)));
                            assert(!view_within_cipher_limit(node_view(*n)));
                        }
                        return Err(e);
                    },
                }
            }
        }
    }
    let children: Option<Vec<Node>> = match &n.children {
        Some(cs) => {
            match encrypt_nodes_recursive(cs, key) {
                Ok(ds) => Some(ds),
                Err(e) => {
                    proof {
                        assert(view_has_nonempty_plain(node_view(*n)));
                        assert(!view_within_cipher_limit(node_view(*n)));
                    }
                    return Err(e);
                },
            }
        },
        None => None,
    };
    let m = Node {
        id: n.id.clone(),
        node_type: n.node_type,
        label: n.label.clone(),
        parent_id: match &n.parent_id {
            Some(s) => Some(s.clone()),
            None => None,
        },
        created_at: n.created_at,
        children,
        value,
        encrypted_value,
        is_secret: n.is_secret,
    };
    proof {
        assert(encrypts_to(node_view(*n), node_view(m), key@));
    }
    Ok(m)
}

/// Recursively encrypts every secret snippet holding a non-empty
/// plaintext value, storing the encoded `nonce:ciphertext` string and
/// clearing the plaintext; aborts on the first failure, so no partially
/// encrypted tree is ever returned. A tree without such values cannot
/// fail.
pub fn encrypt_nodes_recursive(nodes: &Vec<Node>, key: &Key) -> (r: Result<Vec<Node>, VaultError>)
    ensures
        r matches Ok(out) ==> seq_encrypts_to(nodes_view(nodes@), nodes_view(out@), key@),
        !views_have_nonempty_plain(nodes_view(nodes@)) ==> r is Ok,
        views_within_cipher_limit(nodes_view(nodes@)) ==> r is Ok,
        r matches Err(e) ==> e == VaultError::EncryptionFailed,
    decreases nodes,
{
    let mut out: Vec<Node> = Vec::new();
    let mut i: usize = 0;
    proof {
        lemma_nodes_view_len(nodes@);
        assert(nodes@.take(0) =~= Seq::<Node>::empty());
    }
    while i < nodes.len()
        invariant
            0 <= i <= nodes@.len(),
            seq_encrypts_to(nodes_view(nodes@.take(i as int)), nodes_view(out@), key@),
        decreases nodes@.len() - i,
    {
        let m = match encrypt_node(&nodes[i], key) {
            Ok(m) => m,
            Err(e) => {
                proof {
                    lemma_nodes_view_index(nodes@, i as int);
                    lemma_views_have_nonempty_at(nodes_view(nodes@), i as int);
                    lemma_views_within_at(nodes_view(nodes@), i as int);
                }
                return Err(e);
            },
        };
        proof {
            lemma_nodes_view_index(nodes@, i as int);
            lemma_nodes_view_push(nodes@.take(i as int), nodes@[i as int]);
            assert(nodes@.take(i as int).push(nodes@[i as int]) =~= nodes@.take(i + 1));
            lemma_nodes_view_push(out@, m);
            lemma_seq_encrypts_to_push(
                nodes_view(nodes@.take(i as int)),
                nodes_view(out@),
                node_view(nodes@[i as int]),
                node_view(m),
                key@,
            );
        }
        out.push(m);
        i = i + 1;
    }
    proof {
        assert(nodes@.take(nodes@.len() as int) =~= nodes@);
    }
    Ok(out)
}

fn decrypt_node(n: &Node, key: &Key) -> (r: Node)
    ensures
        node_view(r) == decrypt_view(node_view(*n), key@),
    decreases n,
{
    let is_sec = match n.is_secret {
        Some(b) => b,
        None => false,
    };
    let mut value: Option<String> = match &n.value {
        Some(s) => Some(s.clone()),
        None => None,
    };
    if matches!(n.node_type, NodeType::Snippet) && is_sec {
        if let Some(ev) = &n.encrypted_value {
            match decrypt_encoded(ev.as_str(), key) {
                Some(p) => {
                    value = Some(p);
                },
                None => {},
            }
        }
    }
    let r = Node {
        id: n.id.clone(),
        node_type: n.node_type,
        label: n.label.clone(),
        parent_id: match &n.parent_id {
            Some(s) => Some(s.clone()),
            None => None,
        },
        created_at: n.created_at,
        children: match &n.children {
            Some(cs) => Some(decrypt_nodes_recursive(cs, key)),
            None => None,
        },
        value,
        encrypted_value: match &n.encrypted_value {
            Some(s) => Some(s.clone()),
            None => None,
        },
        is_secret: n.is_secret,
    };
    proof {
        assert(node_view(r) =~~= decrypt_view(node_view(*n), key@));
    }
    r
}

/// Recursively attempts to decrypt every secret snippet holding an
/// encrypted value, filling the plaintext slot on success and silently
/// leaving the node untouched on any per-node failure; the encrypted
/// value always stays in place. The exact functional model is
/// `decrypt_views`.
pub fn decrypt_nodes_recursive(nodes: &Vec<Node>, key: &Key) -> (r: Vec<Node>)
    ensures
        nodes_view(r@) == decrypt_views(nodes_view(nodes@), key@),
    decreases nodes,
{
    let mut out: Vec<Node> = Vec::new();
    let mut i: usize = 0;
    proof {
        lemma_nodes_view_len(nodes@);
        assert(nodes@.take(0) =~= Seq::<Node>::empty());
    }
    while i < nodes.len()
        invariant
            0 <= i <= nodes@.len(),
            nodes_view(out@) == decrypt_views(nodes_view(nodes@.take(i as int)), key@),
        decreases nodes@.len() - i,
    {
        let m = decrypt_node(&nodes[i], key);
        proof {
            lemma_nodes_view_index(nodes@, i as int);
            lemma_nodes_view_push(nodes@.take(i as int), nodes@[i as int]);
            assert(nodes@.take(i as int).push(nodes@[i as int]) =~= nodes@.take(i + 1));
            lemma_nodes_view_push(out@, m);
            lemma_decrypt_views_push(
                nodes_view(nodes@.take(i as int)),
                node_view(nodes@[i as int]),
                key@,
            );
        }
        out.push(m);
        i = i + 1;
    }
    proof {
        assert(nodes@.take(nodes@.len() as int) =~= nodes@);
    }
    out
}

fn strip_node(n: &Node) -> (r: Node)
    ensures
        node_view(r) == strip_secret_node(node_view(*n)),
    decreases n,
{
    let r = Node {
        id: n.id.clone(),
        node_type: n.node_type,
        label: n.label.clone(),
        parent_id: match &n.parent_id {
            Some(s) => Some(s.clone()),
            None => None,
        },
        created_at: n.created_at,
        children: match &n.children {
            Some(cs) => Some(remove_secrets_recursive(cs)),
            None => None,
        },
        value: match &n.value {
            Some(s) => Some(s.clone()),
            None => None,
        },
        encrypted_value: match &n.encrypted_value {
            Some(s) => Some(s.clone()),
            None => None,
        },
        is_secret: n.is_secret,
    };
    proof {
        assert(node_view(r) =~~= strip_secret_node(node_view(*n)));
    }
    r
}

/// Drops every secret-flagged node from the forest, recursively; used by
/// a vault reset before the security feature is turned off.
pub fn remove_secrets_recursive(nodes: &Vec<Node>) -> (r: Vec<Node>)
    ensures
        nodes_view(r@) == remove_secret_views(nodes_view(nodes@)),
    decreases nodes,
{
    let mut out: Vec<Node> = Vec::new();
    let mut i: usize = 0;
    proof {
        lemma_nodes_view_len(nodes@);
        assert(nodes@.take(0) =~= Seq::<Node>::empty());
    }
    while i < nodes.len()
        invariant
            0 <= i <= nodes@.len(),
            nodes_view(out@) == remove_secret_views(nodes_view(nodes@.take(i as int))),
        decreases nodes@.len() - i,
    {
        let n = &nodes[i];
        proof {
            lemma_nodes_view_index(nodes@, i as int);
            lemma_nodes_view_push(nodes@.take(i as int), nodes@[i as int]);
            assert(nodes@.take(i as int).push(nodes@[i as int]) =~= nodes@.take(i + 1));
            lemma_remove_secret_views_push(
                nodes_view(nodes@.take(i as int)),
                node_view(nodes@[i as int]),
            );
        }
        let is_sec = match n.is_secret {
            Some(b) => b,
            None => false,
        };
        if !is_sec {
            let m = strip_node(n);
            proof {
                lemma_nodes_view_push(out@, m);
            }
            out.push(m);
        }
        i = i + 1;
    }
    proof {
        assert(nodes@.take(nodes@.len() as int) =~= nodes@);
    }
    out
}


/// A forest with a non-empty plaintext secret in particular holds a
/// plaintext secret.
proof fn lemma_nonempty_implies_plain_node(v: NodeView)
    ensures
        view_has_nonempty_plain(v) ==> view_has_plain_secret(v),
    decreases v,
{
    if view_has_nonempty_plain(v) {
        match v.children {
            Some(cs) => {
                if views_have_nonempty_plain(cs) {
                    lemma_nonempty_implies_plain_seq(cs);
                }
            },
            None => {},
        }
    }
}

proof fn lemma_nonempty_implies_plain_seq(vs: Seq<NodeView>)
    ensures
        views_have_nonempty_plain(vs) ==> views_have_plain_secret(vs),
    decreases vs,
{
    if vs.len() > 0 {
        lemma_nonempty_implies_plain_node(vs[0]);
        lemma_nonempty_implies_plain_seq(vs.skip(1));
    }
}

/// Fail-closed: whatever `encrypt_nodes_recursive` returns holds no
/// non-empty plaintext secret anywhere.
pub proof fn lemma_encrypted_has_no_plain(vs: Seq<NodeView>, ws: Seq<NodeView>, key: Seq<u8>)
    requires
        seq_encrypts_to(vs, ws, key),
    ensures
        !views_have_nonempty_plain(ws),
    decreases vs,
{
    if vs.len() > 0 {
        lemma_encrypted_has_no_plain_node(vs[0], ws[0], key);
        lemma_encrypted_has_no_plain(vs.skip(1), ws.skip(1), key);
    }
}

proof fn lemma_encrypted_has_no_plain_node(v: NodeView, w: NodeView, key: Seq<u8>)
    requires
        encrypts_to(v, w, key),
    ensures
        !view_has_nonempty_plain(w),
    decreases v,
{
    match (v.children, w.children) {
        (Some(cs), Some(ds)) => {
            lemma_encrypted_has_no_plain(cs, ds, key);
        },
        _ => {},
    }
}

/// Idempotence of encryption on clean input: on a forest without
/// non-empty plaintext secrets, `encrypt_nodes_recursive` is a no-op.
pub proof fn lemma_encrypt_noop(vs: Seq<NodeView>, ws: Seq<NodeView>, key: Seq<u8>)
    requires
        seq_encrypts_to(vs, ws, key),
        !views_have_nonempty_plain(vs),
    ensures
        ws == vs,
    decreases vs,
{
    if vs.len() == 0 {
        assert(ws =~= vs);
    } else {
        lemma_encrypt_noop_node(vs[0], ws[0], key);
        lemma_encrypt_noop(vs.skip(1), ws.skip(1), key);
        assert forall|i: int| 0 <= i < vs.len() implies ws[i] == vs[i] by {
            if i > 0 {
                assert(ws[i] == ws.skip(1)[i - 1]);
                assert(vs[i] == vs.skip(1)[i - 1]);
            }
        }
        assert(ws =~= vs);
    }
}

proof fn lemma_encrypt_noop_node(v: NodeView, w: NodeView, key: Seq<u8>)
    requires
        encrypts_to(v, w, key),
        !view_has_nonempty_plain(v),
    ensures
        w == v,
    decreases v,
{
    match (v.children, w.children) {
        (Some(cs), Some(ds)) => {
            lemma_encrypt_noop(cs, ds, key);
        },
        _ => {},
    }
    assert(w =~~= v);
}

/// Idempotence of decryption: a second pass with the same key changes
/// nothing — the visible plaintext is the same both times.
pub proof fn lemma_decrypt_idempotent(vs: Seq<NodeView>, key: Seq<u8>)
    ensures
        decrypt_views(decrypt_views(vs, key), key) == decrypt_views(vs, key),
    decreases vs,
{
    if vs.len() > 0 {
        lemma_decrypt_idempotent_node(vs[0], key);
        lemma_decrypt_idempotent(vs.skip(1), key);
        let ws = decrypt_views(vs, key);
        assert(ws[0] == decrypt_view(vs[0], key));
        assert(ws.skip(1) =~= decrypt_views(vs.skip(1), key));
        assert(decrypt_views(decrypt_views(vs, key), key) =~= decrypt_views(vs, key));
    }
}

proof fn lemma_decrypt_idempotent_node(v: NodeView, key: Seq<u8>)
    ensures
        decrypt_view(decrypt_view(v, key), key) == decrypt_view(v, key),
    decreases v,
{
    match v.children {
        Some(cs) => {
            lemma_decrypt_idempotent(cs, key);
        },
        None => {},
    }
    assert(decrypt_view(decrypt_view(v, key), key) =~~= decrypt_view(v, key));
}

/// An encoded wire value that is an encryption of `plain` decodes back
/// to exactly `plain`.
pub proof fn lemma_valid_encoded_value_decodes(key: Seq<u8>, plain: Seq<char>, ev: Seq<char>)
    requires
        valid_encoded_value(key, plain, ev),
    ensures
        decode_value(ev, key) == Some(plain),
{
    let (ct_hex, nonce_hex) = choose|ct_hex: Seq<char>, nonce_hex: Seq<char>|
        ev == nonce_hex + seq![':'] + ct_hex && #[trigger] valid_encryption(
            key,
            plain,
            ct_hex,
            nonce_hex,
        );
    crate::crypto::lemma_encoded_value_round_trip(key, plain, ct_hex, nonce_hex);
}

/// Decryption restored this node's plaintext: every secret snippet that
/// held a non-empty plaintext value before encryption shows exactly that
/// value again, recursively through the children.
pub open spec fn restores_plain(v: NodeView, d: NodeView) -> bool
    decreases v,
{
    &&& match v.value {
        Some(p) => !(is_secret_snippet(v) && p.len() > 0) || d.value == Some(p),
        None => true,
    }
    &&& match (v.children, d.children) {
        (Some(cs), Some(es)) => restores_plain_seq(cs, es),
        (None, None) => true,
        _ => false,
    }
}

pub open spec fn restores_plain_seq(cs: Seq<NodeView>, es: Seq<NodeView>) -> bool
    decreases cs,
{
    if cs.len() == 0 {
        es.len() == 0
    } else {
        &&& es.len() == cs.len()
        &&& restores_plain(cs[0], es[0])
        &&& restores_plain_seq(cs.skip(1), es.skip(1))
    }
}

pub proof fn lemma_decrypt_views_len(vs: Seq<NodeView>, key: Seq<u8>)
    ensures
        decrypt_views(vs, key).len() == vs.len(),
    decreases vs,
{
    if vs.len() > 0 {
        lemma_decrypt_views_len(vs.skip(1), key);
    }
}

/// Round trip through the tree engine: decrypting what
/// `encrypt_nodes_recursive` produced, with the same key, restores every
/// secret snippet's original plaintext.
pub proof fn lemma_encrypt_decrypt_restores(vs: Seq<NodeView>, ws: Seq<NodeView>, key: Seq<u8>)
    requires
        seq_encrypts_to(vs, ws, key),
    ensures
        restores_plain_seq(vs, decrypt_views(ws, key)),
    decreases vs,
{
    if vs.len() > 0 {
        lemma_encrypt_decrypt_restores_node(vs[0], ws[0], key);
        lemma_encrypt_decrypt_restores(vs.skip(1), ws.skip(1), key);
        lemma_decrypt_views_len(ws, key);
        let ds = decrypt_views(ws, key);
        assert(ds[0] == decrypt_view(ws[0], key));
        assert(ds.skip(1) =~= decrypt_views(ws.skip(1), key));
    }
}

proof fn lemma_encrypt_decrypt_restores_node(v: NodeView, w: NodeView, key: Seq<u8>)
    requires
        encrypts_to(v, w, key),
    ensures
        restores_plain(v, decrypt_view(w, key)),
    decreases v,
{
    match v.value {
        Some(p) => {
            if is_secret_snippet(v) && p.len() > 0 {
                let ev = w.encrypted_value->0;
                lemma_valid_encoded_value_decodes(key, p, ev);
            }
        },
        None => {},
    }
    match (v.children, w.children) {
        (Some(cs), Some(ds)) => {
            lemma_encrypt_decrypt_restores(cs, ds, key);
        },
        _ => {},
    }
}

/// The save gate: encrypts pending plaintext secrets when the vault is
/// unlocked, refuses outright with `VaultLocked` when it is locked, and
/// passes a tree without plaintext secrets through untouched. Whatever
/// it returns holds no non-empty plaintext secret, so no secret value
/// can reach persistent storage in the clear.
pub fn prepare_nodes_for_save(nodes: Vec<Node>, state: &VaultState) -> (r: Result<
    Vec<Node>,
    VaultError,
>)
    ensures
        views_have_plain_secret(nodes_view(nodes@)) && state is Locked ==> r == Err::<
            Vec<Node>,
            VaultError,
        >(VaultError::VaultLocked),
        !views_have_plain_secret(nodes_view(nodes@)) ==> (r matches Ok(out) && nodes_view(out@)
            == nodes_view(nodes@)),
        r matches Ok(out) ==> !views_have_nonempty_plain(nodes_view(out@)),
        views_have_plain_secret(nodes_view(nodes@)) && state is Unlocked && r is Ok
            ==> seq_encrypts_to(nodes_view(nodes@), nodes_view(r->Ok_0@), state->Unlocked_0@),
        state is Unlocked && !views_have_nonempty_plain(nodes_view(nodes@)) ==> r is Ok,
        state is Unlocked && views_within_cipher_limit(nodes_view(nodes@)) ==> r is Ok,
        r matches Err(e) ==> e == VaultError::VaultLocked || e == VaultError::EncryptionFailed,
{
    let has_plain = check_plain_secrets(&nodes);
    if has_plain {
        match state {
            VaultState::Unlocked(k) => {
                let ghost vs = nodes_view(nodes@);
                let r = encrypt_nodes_recursive(&nodes, k);
                proof {
                    if r is Ok {
                        lemma_encrypted_has_no_plain(vs, nodes_view(r->Ok_0@), k@);
                    }
                }
                r
            },
            VaultState::Locked => Err(VaultError::VaultLocked),
        }
    } else {
        proof {
            lemma_nonempty_implies_plain_seq(nodes_view(nodes@));
        }
        Ok(nodes)
    }
}

} // verus!
