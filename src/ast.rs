//! Syntax trees as the source front end hands them over.
use vstd::prelude::*;

use crate::types::Range;

verus! {

/// A node of a syntax tree, with its named children.
#[derive(Debug)]
pub struct AstNode {
    pub kind: String,
    pub range: Range,
    pub is_error: bool,
    pub is_named: bool,
    pub children: Vec<AstNode>,
    pub text: Option<String>,
}

/// The nodes of the tree under `n` that satisfy `p`, in pre-order.
pub open spec fn nodes_where(n: AstNode, p: spec_fn(AstNode) -> bool) -> Seq<AstNode>
    decreases n, n.children.len() + 1,
{
    (if p(n) {
        seq![n]
    } else {
        Seq::empty()
    }) + children_where(n, 0, p)
}

/// The nodes under the children of `n` from the `i`-th on that satisfy `p`.
pub open spec fn children_where(n: AstNode, i: int, p: spec_fn(AstNode) -> bool) -> Seq<AstNode>
    decreases n, n.children.len() - i,
{
    if i < 0 || i >= n.children.len() {
        Seq::empty()
    } else {
        nodes_where(n.children[i], p) + children_where(n, i + 1, p)
    }
}

pub open spec fn is_error_node() -> spec_fn(AstNode) -> bool {
    |m: AstNode| m.is_error
}

pub open spec fn has_kind(kind: Seq<char>) -> spec_fn(AstNode) -> bool {
    |m: AstNode| m.kind@ == kind
}

} // verus!

verus! {

pub open spec fn node_views(v: Seq<&AstNode>) -> Seq<AstNode> {
    v.map_values(|m: &AstNode| *m)
}

/// What a search looks for: error nodes, or nodes of a kind.
pub open spec fn wanted(kind: Option<Seq<char>>) -> spec_fn(AstNode) -> bool {
    match kind {
        Some(k) => has_kind(k),
        None => is_error_node(),
    }
}

fn matches_node(n: &AstNode, kind: Option<&str>) -> (r: bool)
    ensures
        r == wanted(match kind { Some(k) => Some(k@), None => None })(*n),
{
    match kind {
        Some(k) => crate::text::str_eq(n.kind.as_str(), k),
        None => n.is_error,
    }
}

fn collect<'a>(n: &'a AstNode, kind: Option<&str>, out: &mut Vec<&'a AstNode>)
    ensures
        node_views(final(out)@) == node_views(old(out)@) + nodes_where(*n, wanted(match kind { Some(k) => Some(k@), None => None })),
    decreases n,
{
    let ghost p = wanted(match kind { Some(k) => Some(k@), None => None });
    let ghost start = node_views(out@);
    if matches_node(n, kind) {
        out.push(n);
        assert(node_views(out@) =~= start + seq![*n]);
    } else {
        assert(node_views(out@) =~= start + Seq::<AstNode>::empty());
    }
    let ghost head = node_views(out@);
    let mut i: usize = 0;
    assert(head + children_where(*n, 0, p) =~= start + nodes_where(*n, p));
    while i < n.children.len()
        invariant
            i <= n.children.len(),
            p == wanted(match kind { Some(k) => Some(k@), None => None }),
            node_views(out@) + children_where(*n, i as int, p) == start + nodes_where(*n, p),
        decreases n.children.len() - i,
    {
        proof {
            vstd::std_specs::vec::axiom_vec_index_decreases(n.children, i as int);
        }
        let ghost before = node_views(out@);
        collect(&n.children[i], kind, out);
        assert(children_where(*n, i as int, p) == nodes_where(n.children@[i as int], p) + children_where(*n, i + 1, p));
        assert(node_views(out@) + children_where(*n, i + 1, p) =~= before + children_where(*n, i as int, p));
        i += 1;
    }
    assert(children_where(*n, i as int, p) == Seq::<AstNode>::empty());
    assert(node_views(out@) =~= start + nodes_where(*n, p));
}

impl AstNode {
    /// The error nodes of this tree, in pre-order.
    pub fn errors(&self) -> (r: Vec<&AstNode>)
        ensures
            node_views(r@) == nodes_where(*self, is_error_node()),
    {
        let mut out: Vec<&AstNode> = Vec::new();
        collect(self, None, &mut out);
        assert(node_views(out@) =~= nodes_where(*self, is_error_node()));
        out
    }

    /// The nodes of this tree of kind `kind`, in pre-order.
    pub fn find_by_kind(&self, kind: &str) -> (r: Vec<&AstNode>)
        ensures
            node_views(r@) == nodes_where(*self, has_kind(kind@)),
    {
        let mut out: Vec<&AstNode> = Vec::new();
        collect(self, Some(kind), &mut out);
        assert(node_views(out@) =~= nodes_where(*self, has_kind(kind@)));
        out
    }
}

} // verus!
