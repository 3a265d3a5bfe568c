//! The tree data model: labeled entries that are either folders with
//! children or snippets with an optional value, and the ghost view the
//! contracts of the tree engine are stated over.

use vstd::prelude::*;

verus! {

/// The kind of a tree entry.
#[derive(Clone, Copy, Debug, PartialEq, Eq, Structural)]
pub enum NodeType {
    Folder,
    Snippet,
}

/// A tree entry. Folders carry `children`; snippets carry at most one of
/// `value` (plaintext) and `encrypted_value` (the encoded wire form), and
/// a `secret` marker. `parent_id` is denormalized metadata; traversal is
/// via `children` only.
pub struct Node {
    pub id: String,
    pub node_type: NodeType,
    pub label: String,
    pub parent_id: Option<String>,
    pub created_at: i64,
    pub children: Option<Vec<Node>>,
    pub value: Option<String>,
    pub encrypted_value: Option<String>,
    pub is_secret: Option<bool>,
}

/// The mathematical shape of a `Node`: every string replaced by its
/// character sequence, every child vector by a sequence of views.
#[verifier::ext_equal]
pub ghost struct NodeView {
    pub id: Seq<char>,
    pub node_type: NodeType,
    pub label: Seq<char>,
    pub parent_id: Option<Seq<char>>,
    pub created_at: i64,
    pub children: Option<Seq<NodeView>>,
    pub value: Option<Seq<char>>,
    pub encrypted_value: Option<Seq<char>>,
    pub is_secret: Option<bool>,
}

pub open spec fn opt_view(s: Option<String>) -> Option<Seq<char>> {
    match s {
        Some(v) => Some(v@),
        None => None,
    }
}

pub open spec fn node_view(n: Node) -> NodeView
    decreases n,
{
    NodeView {
        id: n.id@,
        node_type: n.node_type,
        label: n.label@,
        parent_id: opt_view(n.parent_id),
        created_at: n.created_at,
        children: match n.children {
            Some(cs) => Some(nodes_view(cs@)),
            None => None,
        },
        value: opt_view(n.value),
        encrypted_value: opt_view(n.encrypted_value),
        is_secret: n.is_secret,
    }
}

pub open spec fn nodes_view(ns: Seq<Node>) -> Seq<NodeView>
    decreases ns,
{
    if ns.len() == 0 {
        Seq::empty()
    } else {
        seq![node_view(ns[0])] + nodes_view(ns.skip(1))
    }
}

pub proof fn lemma_nodes_view_len(ns: Seq<Node>)
    ensures
        nodes_view(ns).len() == ns.len(),
    decreases ns,
{
    if ns.len() > 0 {
        lemma_nodes_view_len(ns.skip(1));
    }
}

pub proof fn lemma_nodes_view_index(ns: Seq<Node>, i: int)
    requires
        0 <= i < ns.len(),
    ensures
        nodes_view(ns).len() == ns.len(),
        nodes_view(ns)[i] == node_view(ns[i]),
    decreases ns,
{
    lemma_nodes_view_len(ns);
    if i > 0 {
        lemma_nodes_view_index(ns.skip(1), i - 1);
    }
}

pub proof fn lemma_nodes_view_push(ns: Seq<Node>, n: Node)
    ensures
        nodes_view(ns.push(n)) =~= nodes_view(ns).push(node_view(n)),
    decreases ns,
{
    lemma_nodes_view_len(ns);
    lemma_nodes_view_len(ns.push(n));
    if ns.len() == 0 {
        assert(ns.push(n)[0] == n);
        assert(ns.push(n).skip(1) =~= Seq::<Node>::empty());
    } else {
        assert(ns.push(n)[0] == ns[0]);
        assert(ns.push(n).skip(1) =~= ns.skip(1).push(n));
        lemma_nodes_view_push(ns.skip(1), n);
    }
}

/// A snippet that is marked secret.
pub open spec fn is_secret_snippet(v: NodeView) -> bool {
    v.node_type is Snippet && v.is_secret == Some(true)
}

/// Whether some secret snippet in this subtree still holds a plaintext
/// value.
pub open spec fn view_has_plain_secret(v: NodeView) -> bool
    decreases v,
{
    (is_secret_snippet(v) && v.value is Some) || (v.children matches Some(cs)
        && views_have_plain_secret(cs))
}

pub open spec fn views_have_plain_secret(vs: Seq<NodeView>) -> bool
    decreases vs,
{
    if vs.len() == 0 {
        false
    } else {
        view_has_plain_secret(vs[0]) || views_have_plain_secret(vs.skip(1))
    }
}

} // verus!
