//! The undead-set tree: the result of the liveness analysis.
//!
//! The tree mirrors the nesting of the program it annotates.  A leaf holds
//! the set of locations live ("undead") at one program point; an inner node
//! holds one child per nested program point or scope, in source order.

use vstd::prelude::*;

use crate::sets::AlocSet;

verus! {

/// One node of an undead-set tree.
#[derive(Debug, PartialEq, Eq)]
pub enum Node {
    /// The locations live at one program point.
    Leaf { alocs: AlocSet },
    /// One child per program point or scope of a nested form, in source
    /// order.
    Tree { nodes: Vec<Node> },
}

/// The mathematical shape of an undead-set tree: leaves carry sets of
/// location indices.
pub enum NodeS {
    Leaf(Set<int>),
    Tree(Seq<NodeS>),
}

/// What a node denotes.
pub open spec fn node_view(n: Node) -> NodeS
    decreases n, 0int,
{
    match n {
        Node::Leaf { alocs } => NodeS::Leaf(alocs@),
        Node::Tree { nodes } => NodeS::Tree(nodes_view(nodes@)),
    }
}

/// What a run of sibling nodes denotes.
pub open spec fn nodes_view(s: Seq<Node>) -> Seq<NodeS>
    decreases s, s.len(),
{
    if s.len() == 0 {
        Seq::empty()
    } else {
        nodes_view(s.drop_last()).push(node_view(s.last()))
    }
}

/// Every leaf set of the node is well-formed.
pub open spec fn node_wf(n: Node) -> bool
    decreases n, 0int,
{
    match n {
        Node::Leaf { alocs } => alocs.wf(),
        Node::Tree { nodes } => nodes_wf(nodes@),
    }
}

pub open spec fn nodes_wf(s: Seq<Node>) -> bool
    decreases s, s.len(),
{
    forall|i: int| 0 <= i < s.len() ==> node_wf(#[trigger] s[i])
}

/// Prepending a node prepends its denotation.
pub proof fn lemma_nodes_view_insert0(s: Seq<Node>, n: Node)
    ensures
        nodes_view(s.insert(0, n)) =~= seq![node_view(n)] + nodes_view(s),
{
    lemma_nodes_view_len(s.insert(0, n));
    lemma_nodes_view_len(s);
    assert forall|i: int| 0 <= i < s.len() + 1 implies nodes_view(s.insert(0, n))[i] == (seq![
        node_view(n),
    ] + nodes_view(s))[i] by {
        lemma_nodes_view_index(s.insert(0, n), i);
        if i > 0 {
            lemma_nodes_view_index(s, i - 1);
            assert(s.insert(0, n)[i] == s[i - 1]);
        } else {
            assert(s.insert(0, n)[0] == n);
        }
    }
}

/// Concatenation distributes over the denotation.
pub proof fn lemma_nodes_view_add(a: Seq<Node>, b: Seq<Node>)
    ensures
        nodes_view(a + b) =~= nodes_view(a) + nodes_view(b),
{
    lemma_nodes_view_len(a + b);
    lemma_nodes_view_len(a);
    lemma_nodes_view_len(b);
    assert forall|i: int| 0 <= i < a.len() + b.len() implies nodes_view(a + b)[i] == (nodes_view(a)
        + nodes_view(b))[i] by {
        lemma_nodes_view_index(a + b, i);
        if i < a.len() {
            lemma_nodes_view_index(a, i);
            assert((a + b)[i] == a[i]);
        } else {
            lemma_nodes_view_index(b, i - a.len());
            assert((a + b)[i] == b[i - a.len()]);
        }
    }
}

/// Appending a node appends its denotation.
pub proof fn lemma_nodes_view_push(s: Seq<Node>, n: Node)
    ensures
        nodes_view(s.push(n)) =~= nodes_view(s).push(node_view(n)),
{
    assert(s.push(n).drop_last() =~= s);
    assert(s.push(n).last() == n);
}

pub broadcast proof fn lemma_nodes_view_len(s: Seq<Node>)
    ensures
        (#[trigger] nodes_view(s)).len() == s.len(),
    decreases s.len(),
{
    if s.len() > 0 {
        lemma_nodes_view_len(s.drop_last());
    }
}

pub broadcast proof fn lemma_nodes_view_index(s: Seq<Node>, i: int)
    requires
        0 <= i < s.len(),
    ensures
        #[trigger] nodes_view(s)[i] == node_view(s[i]),
    decreases s.len(),
{
    lemma_nodes_view_len(s);
    if i < s.len() - 1 {
        lemma_nodes_view_index(s.drop_last(), i);
    }
}

} // verus!
