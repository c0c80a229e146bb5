//! Stable cursor into the tree under edit: doc index in the app's open
//! documents + tree index + chain of child indices into `Node.children`.
//! The empty chain selects the tree's synthesized root container.

use vstd::prelude::*;

verus! {

/// A node of one tree of one open document.
#[derive(Debug, Clone, Default, PartialEq, Eq, Hash)]
pub struct NodePath {
    pub doc: usize,
    pub tree: usize,
    pub child_chain: Vec<usize>,
}

/// A path as a value: `(doc, tree, chain)`.
pub type PathV = (usize, usize, Seq<usize>);

impl View for NodePath {
    type V = PathV;

    open spec fn view(&self) -> PathV {
        (self.doc, self.tree, self.child_chain@)
    }
}

/// The path of child `idx` of `p`.
pub open spec fn spec_child(p: PathV, idx: usize) -> PathV {
    (p.0, p.1, p.2.push(idx))
}

/// The path of `p`'s parent; `None` at a tree root.
pub open spec fn spec_parent(p: PathV) -> Option<PathV> {
    if p.2.len() == 0 {
        None
    } else {
        Some((p.0, p.1, p.2.drop_last()))
    }
}

/// `d` lives strictly below `a` in the same tree.
pub open spec fn spec_descendant(d: PathV, a: PathV) -> bool {
    &&& d.0 == a.0
    &&& d.1 == a.1
    &&& d.2.len() > a.2.len()
    &&& d.2.take(a.2.len() as int) == a.2
}

fn copy_chain(v: &Vec<usize>) -> (r: Vec<usize>)
    ensures
        r@ == v@,
{
    let mut r: Vec<usize> = Vec::with_capacity(v.len());
    let mut i: usize = 0;
    while i < v.len()
        invariant
            i <= v@.len(),
            r@ == v@.take(i as int),
        decreases v@.len() - i,
    {
        r.push(v[i]);
        proof {
            assert(v@.take(i + 1) =~= v@.take(i as int).push(v@[i as int]));
        }
        i = i + 1;
    }
    proof {
        assert(v@.take(v@.len() as int) =~= v@);
    }
    r
}

impl NodePath {
    /// The root container of tree `tree` in document `doc`.
    pub fn tree_root(doc: usize, tree: usize) -> (r: NodePath)
        ensures
            r@ == (doc, tree, Seq::<usize>::empty()),
    {
        NodePath { doc, tree, child_chain: Vec::new() }
    }

    /// The path of child `idx` of this node.
    pub fn child(&self, idx: usize) -> (r: NodePath)
        ensures
            r@ == spec_child(self@, idx),
    {
        let mut chain = copy_chain(&self.child_chain);
        chain.push(idx);
        NodePath { doc: self.doc, tree: self.tree, child_chain: chain }
    }

    /// The path of this node's parent; `None` at a tree root.
    pub fn parent(&self) -> (r: Option<NodePath>)
        ensures
            match spec_parent(self@) {
                None => r is None,
                Some(p) => r is Some && r->0@ == p,
            },
    {
        if self.child_chain.len() == 0 {
            None
        } else {
            let mut chain = copy_chain(&self.child_chain);
            chain.pop();
            proof {
                assert(chain@ =~= self.child_chain@.drop_last());
            }
            Some(NodePath { doc: self.doc, tree: self.tree, child_chain: chain })
        }
    }

    /// An equal copy of this path.
    pub fn duplicate(&self) -> (r: NodePath)
        ensures
            r@ == self@,
    {
        NodePath { doc: self.doc, tree: self.tree, child_chain: copy_chain(&self.child_chain) }
    }

    /// Path equality.
    pub fn same_as(&self, other: &NodePath) -> (r: bool)
        ensures
            r == (self@ == other@),
    {
        if self.doc != other.doc || self.tree != other.tree
            || self.child_chain.len() != other.child_chain.len() {
            return false;
        }
        let mut i: usize = 0;
        while i < self.child_chain.len()
            invariant
                i <= self.child_chain@.len(),
                self.child_chain@.len() == other.child_chain@.len(),
                forall|k: int| 0 <= k < i ==> self.child_chain@[k] == other.child_chain@[k],
            decreases self.child_chain@.len() - i,
        {
            if self.child_chain[i] != other.child_chain[i] {
                return false;
            }
            i = i + 1;
        }
        proof {
            assert(self.child_chain@ =~= other.child_chain@);
        }
        true
    }
}

/// The parent of a child is the node itself.
pub proof fn lemma_parent_of_child(p: PathV, idx: usize)
    ensures
        spec_parent(spec_child(p, idx)) == Some(p),
{
    assert(p.2.push(idx).drop_last() =~= p.2);
}

/// A child lies strictly below its parent, and a node never lies below
/// itself.
pub proof fn lemma_child_is_descendant(p: PathV, idx: usize)
    ensures
        spec_descendant(spec_child(p, idx), p),
        !spec_descendant(p, p),
{
    assert(p.2.push(idx).take(p.2.len() as int) =~= p.2);
}

/// Lying below is transitive.
pub proof fn lemma_descendant_transitive(a: PathV, b: PathV, c: PathV)
    requires
        spec_descendant(a, b),
        spec_descendant(b, c),
    ensures
        spec_descendant(a, c),
{
    assert(a.2.take(c.2.len() as int) =~= b.2.take(c.2.len() as int));
}

} // verus!
