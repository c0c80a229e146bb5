//! The node trees of an edited document and the structural edits that the
//! editor's tree operations make: each finds a node by its chain of child
//! indices and edits one list of children. Generic over what a node holds.

use vstd::prelude::*;
use crate::editor::ops::{
    delete_child, duplicate_child, insert_clamped, lemma_move_within_drop_slot, lemma_move_sibling_back, move_sibling, move_within_target,
    sibling_target, spec_insert_clamped, spec_move,
};

verus! {

/// A node of an edited tree: what it holds, and its children in order.
pub struct TreeNode<P> {
    pub data: P,
    pub children: Vec<TreeNode<P>>,
}

impl<P: Clone> Clone for TreeNode<P> {
    /// A deep copy: the data cloned, and each child cloned in turn.
    fn clone(&self) -> (r: Self)
        ensures
            cloned(self.data, r.data),
            r.children@.len() == self.children@.len(),
        decreases self,
    {
        let mut kids: Vec<TreeNode<P>> = Vec::new();
        let mut i: usize = 0;
        while i < self.children.len()
            invariant
                i <= self.children@.len(),
                kids@.len() == i,
            decreases self.children@.len() - i,
        {
            proof {
                assert(decreases_to!(*self => self.children));
                assert(decreases_to!(self.children => self.children[i as int]));
            }
            let c = self.children[i].clone();
            kids.push(c);
            i = i + 1;
        }
        TreeNode { data: self.data.clone(), children: kids }
    }
}

/// The node that `chain` leads to from `t`, child index by child index;
/// `None` when an index has no child.
pub open spec fn node_at<P>(t: TreeNode<P>, chain: Seq<usize>) -> Option<TreeNode<P>>
    decreases chain.len(),
{
    if chain.len() == 0 {
        Some(t)
    } else if chain[0] < t.children@.len() {
        node_at(t.children@[chain[0] as int], chain.drop_first())
    } else {
        None
    }
}

/// `t2` is `t1` with the children of the node at `chain` replaced by
/// `kids`: every other node, and every node's data, as it was.
pub open spec fn replaced_at<P>(t1: TreeNode<P>, t2: TreeNode<P>, chain: Seq<usize>, kids: Seq<TreeNode<P>>) -> bool
    decreases chain.len(),
{
    &&& t2.data == t1.data
    &&& if chain.len() == 0 {
        t2.children@ == kids
    } else {
        let c = chain[0] as int;
        &&& c < t1.children@.len()
        &&& t2.children@.len() == t1.children@.len()
        &&& forall|j: int| 0 <= j < t1.children@.len() && j != c ==> t2.children@[j] == t1.children@[j]
        &&& replaced_at(t1.children@[c], t2.children@[c], chain.drop_first(), kids)
    }
}

/// A node found by `chain` exists and holds `kids` after the children there
/// were replaced by them.
pub proof fn lemma_replaced_node<P>(t1: TreeNode<P>, t2: TreeNode<P>, chain: Seq<usize>, kids: Seq<TreeNode<P>>)
    requires
        replaced_at(t1, t2, chain, kids),
    ensures
        node_at(t1, chain) is Some,
        node_at(t2, chain) is Some,
        node_at(t2, chain).unwrap().children@ == kids,
        node_at(t2, chain).unwrap().data == node_at(t1, chain).unwrap().data,
    decreases chain.len(),
{
    if chain.len() > 0 {
        lemma_replaced_node(t1.children@[chain[0] as int], t2.children@[chain[0] as int], chain.drop_first(), kids);
    }
}

/// Replacing children twice at one node is replacing them once with the
/// second list.
pub proof fn lemma_replaced_twice<P>(
    t0: TreeNode<P>,
    t1: TreeNode<P>,
    t2: TreeNode<P>,
    chain: Seq<usize>,
    k1: Seq<TreeNode<P>>,
    k2: Seq<TreeNode<P>>,
)
    requires
        replaced_at(t0, t1, chain, k1),
        replaced_at(t1, t2, chain, k2),
    ensures
        replaced_at(t0, t2, chain, k2),
    decreases chain.len(),
{
    if chain.len() > 0 {
        let c = chain[0] as int;
        lemma_replaced_twice(t0.children@[c], t1.children@[c], t2.children@[c], chain.drop_first(), k1, k2);
    }
}

/// `t2` is `t1` with the children of the node at `chain` replaced by that
/// node's own children: the same tree, node by node.
pub open spec fn unchanged_at<P>(t1: TreeNode<P>, t2: TreeNode<P>, chain: Seq<usize>) -> bool {
    node_at(t1, chain) is Some && replaced_at(t1, t2, chain, node_at(t1, chain).unwrap().children@)
}

proof fn lemma_node_at_step<P>(t: TreeNode<P>, chain: Seq<usize>, i: int)
    requires
        0 <= i < chain.len(),
    ensures
        node_at(t, chain.take(i)) is Some && chain[i] < node_at(t, chain.take(i)).unwrap().children@.len()
            ==> node_at(t, chain.take(i + 1)) == Some(
            node_at(t, chain.take(i)).unwrap().children@[chain[i] as int],
        ),
        node_at(t, chain.take(i)) is Some && chain[i] >= node_at(t, chain.take(i)).unwrap().children@.len()
            ==> node_at(t, chain.take(i + 1)) is None,
        node_at(t, chain.take(i)) is None ==> node_at(t, chain.take(i + 1)) is None,
    decreases i,
{
    let c = chain[0];
    let a = chain.take(i);
    let b = chain.take(i + 1);
    assert(b[0] == c);
    if i == 0 {
        assert(a =~= Seq::<usize>::empty());
        assert(node_at(t, a) == Some(t));
        assert(b.drop_first() =~= Seq::<usize>::empty());
        if c < t.children@.len() {
            assert(node_at(t.children@[c as int], Seq::<usize>::empty()) == Some(t.children@[c as int]));
            assert(node_at(t, b) == node_at(t.children@[c as int], b.drop_first()));
        }
    } else {
        assert(a[0] == c);
        if c < t.children@.len() {
            let rest = chain.drop_first();
            let child = t.children@[c as int];
            lemma_node_at_step(child, rest, i - 1);
            assert(a.drop_first() =~= rest.take(i - 1));
            assert(b.drop_first() =~= rest.take(i));
            assert(rest[i - 1] == chain[i]);
            assert(node_at(t, a) == node_at(child, rest.take(i - 1)));
            assert(node_at(t, b) == node_at(child, rest.take(i)));
        } else {
            assert(node_at(t, a) is None);
            assert(node_at(t, b) is None);
        }
    }
}

impl<P> TreeNode<P> {
    /// The node that `chain` leads to (`NodePath::resolve` within one tree).
    pub fn resolve(&self, chain: &[usize]) -> (r: Option<&TreeNode<P>>)
        ensures
            match r {
                Some(n) => node_at(*self, chain@) == Some(*n),
                None => node_at(*self, chain@) is None,
            },
    {
        let mut node: &TreeNode<P> = self;
        let mut i: usize = 0;
        while i < chain.len()
            invariant
                i <= chain@.len(),
                node_at(*self, chain@.take(i as int)) == Some(*node),
            decreases chain@.len() - i,
        {
            proof {
                lemma_node_at_step(*self, chain@, i as int);
            }
            let c = chain[i];
            if c < node.children.len() {
                node = &node.children[c];
            } else {
                proof {
                    lemma_node_none_extends(*self, chain@, i + 1);
                }
                return None;
            }
            i = i + 1;
        }
        proof {
            assert(chain@.take(chain@.len() as int) =~= chain@);
        }
        Some(node)
    }
}

proof fn lemma_node_none_extends<P>(t: TreeNode<P>, chain: Seq<usize>, k: int)
    requires
        0 <= k <= chain.len(),
        node_at(t, chain.take(k)) is None,
    ensures
        node_at(t, chain) is None,
    decreases chain.len() - k,
{
    if k < chain.len() {
        lemma_node_at_step(t, chain, k);
        lemma_node_none_extends(t, chain, k + 1);
    } else {
        assert(chain.take(k) =~= chain);
    }
}

proof fn lemma_skip_step(chain: Seq<usize>, d: int)
    requires
        0 <= d < chain.len(),
    ensures
        chain.skip(d).len() > 0,
        chain.skip(d)[0] == chain[d],
        chain.skip(d).drop_first() == chain.skip(d + 1),
{
    assert(chain.skip(d).drop_first() =~= chain.skip(d + 1));
}

impl<P> TreeNode<P> {
    fn swap_children_from(&mut self, chain: &[usize], d: usize, kids: Vec<TreeNode<P>>) -> (r: Vec<TreeNode<P>>)
        requires
            d <= chain@.len(),
            node_at(*old(self), chain@.skip(d as int)) is Some,
        ensures
            r@ == node_at(*old(self), chain@.skip(d as int)).unwrap().children@,
            replaced_at(*old(self), *final(self), chain@.skip(d as int), kids@),
        decreases chain@.len() - d,
    {
        if d == chain.len() {
            let mut k = kids;
            std::mem::swap(&mut self.children, &mut k);
            proof {
                assert(chain@.skip(d as int) =~= Seq::<usize>::empty());
            }
            k
        } else {
            proof {
                lemma_skip_step(chain@, d as int);
            }
            let c = chain[d];
            let r = self.children[c].swap_children_from(chain, d + 1, kids);
            r
        }
    }

    /// Take the children of the node at `chain` out, leaving it without
    /// any; `None`, changing nothing, when `chain` leads nowhere.
    pub fn take_children_at(&mut self, chain: &[usize]) -> (r: Option<Vec<TreeNode<P>>>)
        ensures
            match r {
                Some(k) => {
                    &&& node_at(*old(self), chain@) is Some
                    &&& k@ == node_at(*old(self), chain@).unwrap().children@
                    &&& replaced_at(*old(self), *final(self), chain@, Seq::empty())
                },
                None => node_at(*old(self), chain@) is None && *final(self) == *old(self),
            },
    {
        if self.resolve(chain).is_none() {
            return None;
        }
        proof {
            assert(chain@.skip(0) =~= chain@);
        }
        Some(self.swap_children_from(chain, 0, Vec::new()))
    }

    /// Give the node at `chain`, which must exist, the children `kids`.
    pub fn put_children_at(&mut self, chain: &[usize], kids: Vec<TreeNode<P>>)
        requires
            node_at(*old(self), chain@) is Some,
        ensures
            replaced_at(*old(self), *final(self), chain@, kids@),
    {
        proof {
            assert(chain@.skip(0) =~= chain@);
        }
        let _ = self.swap_children_from(chain, 0, kids);
    }
}

/// The children of the node at `chain` (meaningful where there is one).
pub open spec fn kids_at<P>(t: TreeNode<P>, chain: Seq<usize>) -> Seq<TreeNode<P>> {
    node_at(t, chain).unwrap().children@
}

/// `a` is `b` or an ancestor's chain of it.
pub open spec fn is_prefix(a: Seq<usize>, b: Seq<usize>) -> bool {
    a.len() <= b.len() && b.take(a.len() as int) == a
}

fn chain_is_prefix(a: &[usize], b: &[usize]) -> (r: bool)
    ensures
        r == is_prefix(a@, b@),
{
    if a.len() > b.len() {
        return false;
    }
    let mut i: usize = 0;
    while i < a.len()
        invariant
            i <= a@.len() <= b@.len(),
            forall|k: int| 0 <= k < i ==> a@[k] == b@[k],
        decreases a@.len() - i,
    {
        if a[i] != b[i] {
            assert(b@.take(a@.len() as int)[i as int] != a@[i as int]);
            return false;
        }
        i = i + 1;
    }
    assert(b@.take(a@.len() as int) =~= a@);
    true
}

fn chains_equal(a: &[usize], b: &[usize]) -> (r: bool)
    ensures
        r == (a@ == b@),
{
    if a.len() != b.len() {
        return false;
    }
    let r = chain_is_prefix(a, b);
    proof {
        if r {
            assert(b@.take(a@.len() as int) =~= b@);
        } else {
            assert(b@.take(a@.len() as int) =~= b@);
        }
    }
    r
}

impl<P> TreeNode<P> {
    /// The children of the node at `parent`, taken out so that one list
    /// edit can be made; the node must exist.
    fn take_kids(&mut self, parent: &[usize]) -> (r: Vec<TreeNode<P>>)
        requires
            node_at(*old(self), parent@) is Some,
        ensures
            r@ == kids_at(*old(self), parent@),
            replaced_at(*old(self), *final(self), parent@, Seq::empty()),
    {
        proof {
            assert(parent@.skip(0) =~= parent@);
        }
        self.swap_children_from(parent, 0, Vec::new())
    }

    /// `AddChild`: `node` becomes the last child of the node at `parent`.
    /// `false`, changing nothing, when `parent` leads nowhere.
    pub fn add_child(&mut self, parent: &[usize], node: TreeNode<P>) -> (r: bool)
        ensures
            r == (node_at(*old(self), parent@) is Some),
            r ==> replaced_at(*old(self), *final(self), parent@, kids_at(*old(self), parent@).push(node)),
            !r ==> *final(self) == *old(self),
    {
        if self.resolve(parent).is_none() {
            return false;
        }
        let ghost t0 = *self;
        let mut kids = self.take_kids(parent);
        let ghost t1 = *self;
        kids.push(node);
        proof {
            lemma_replaced_node(t0, t1, parent@, Seq::empty());
        }
        self.put_children_at(parent, kids);
        proof {
            lemma_replaced_twice(t0, t1, *self, parent@, Seq::empty(), kids@);
        }
        true
    }

    /// `Delete`: child `last` of the node at `parent` goes, with its
    /// subtree. `false`, changing nothing, when there is no such child.
    pub fn delete_node(&mut self, parent: &[usize], last: usize) -> (r: bool)
        ensures
            r == (node_at(*old(self), parent@) is Some && last < kids_at(*old(self), parent@).len()),
            r ==> replaced_at(*old(self), *final(self), parent@, kids_at(*old(self), parent@).remove(last as int)),
            !r ==> *final(self) == *old(self),
    {
        match self.resolve(parent) {
            None => return false,
            Some(n) => if last >= n.children.len() {
                return false;
            },
        }
        let ghost t0 = *self;
        let mut kids = self.take_kids(parent);
        let ghost t1 = *self;
        delete_child(&mut kids, last);
        proof {
            lemma_replaced_node(t0, t1, parent@, Seq::empty());
        }
        self.put_children_at(parent, kids);
        proof {
            lemma_replaced_twice(t0, t1, *self, parent@, Seq::empty(), kids@);
        }
        true
    }

    /// `MoveSibling { delta }`: child `last` of the node at `parent` moves
    /// `delta` places, stopping at either end. Returns where it went;
    /// `None`, changing nothing, when it stays where it is, there is no
    /// child `last` or `parent` leads nowhere.
    pub fn move_sibling_node(&mut self, parent: &[usize], last: usize, delta: i32) -> (r: Option<usize>)
        requires
            // the clamp to the children is only defined with a child present
            node_at(*old(self), parent@) is Some ==> 1 <= kids_at(*old(self), parent@).len() <= i32::MAX,
            last <= i32::MAX,
            i32::MIN <= last + delta <= i32::MAX,
        ensures
            ({
                let kids = kids_at(*old(self), parent@);
                let n = sibling_target(last as int, delta as int, kids.len() as int);
                if node_at(*old(self), parent@) is Some && n != last && last < kids.len() {
                    &&& r == Some(n as usize)
                    &&& replaced_at(*old(self), *final(self), parent@, spec_move(kids, last as int, n))
                } else {
                    &&& r is None
                    &&& *final(self) == *old(self)
                }
            }),
    {
        match self.resolve(parent) {
            None => return None,
            Some(n) => {
                let len = n.children.len() as i64;
                let t: i64 = last as i64 + delta as i64;
                let to: i64 = if t < 0 {
                    0
                } else if t > len - 1 {
                    len - 1
                } else {
                    t
                };
                if to as usize == last || last >= n.children.len() {
                    return None;
                }
            },
        }
        let ghost t0 = *self;
        let mut kids = self.take_kids(parent);
        let ghost t1 = *self;
        let r = move_sibling(&mut kids, last, delta);
        proof {
            lemma_replaced_node(t0, t1, parent@, Seq::empty());
        }
        self.put_children_at(parent, kids);
        proof {
            lemma_replaced_twice(t0, t1, *self, parent@, Seq::empty(), kids@);
        }
        r
    }
}

impl<P: Clone> TreeNode<P> {
    /// `Duplicate`: a clone of child `last` of the node at `parent` goes
    /// right after it. `false`, changing nothing, when there is no such
    /// child.
    pub fn duplicate_node(&mut self, parent: &[usize], last: usize) -> (r: bool)
        ensures
            r == (node_at(*old(self), parent@) is Some && last < kids_at(*old(self), parent@).len()),
            r ==> exists|copy: TreeNode<P>| {
                &&& cloned(kids_at(*old(self), parent@)[last as int], copy)
                &&& #[trigger] replaced_at(*old(self), *final(self), parent@, kids_at(*old(self), parent@).insert(last + 1, copy))
            },
            !r ==> *final(self) == *old(self),
    {
        match self.resolve(parent) {
            None => return false,
            Some(n) => if last >= n.children.len() {
                return false;
            },
        }
        let ghost t0 = *self;
        let mut kids = self.take_kids(parent);
        let ghost t1 = *self;
        duplicate_child(&mut kids, last);
        proof {
            lemma_replaced_node(t0, t1, parent@, Seq::empty());
        }
        self.put_children_at(parent, kids);
        proof {
            lemma_replaced_twice(t0, t1, *self, parent@, Seq::empty(), kids@);
            assert(replaced_at(t0, *self, parent@, kids_at(t0, parent@).insert(last + 1, kids@[last + 1])));
        }
        true
    }
}

fn chain_with(parent: &[usize], last: usize) -> (r: Vec<usize>)
    ensures
        r@ == parent@.push(last),
{
    let mut v: Vec<usize> = Vec::new();
    let mut i: usize = 0;
    while i < parent.len()
        invariant
            i <= parent@.len(),
            v@ == parent@.take(i as int),
        decreases parent@.len() - i,
    {
        v.push(parent[i]);
        proof {
            assert(parent@.take(i + 1) =~= parent@.take(i as int).push(parent@[i as int]));
        }
        i = i + 1;
    }
    proof {
        assert(parent@.take(parent@.len() as int) =~= parent@);
    }
    v.push(last);
    v
}

/// Where `MoveTo` drops a child taken from `src_last` of `src_parent` when
/// it is dropped at `dst_idx` of `dst_parent`: in the same list, past the
/// child itself, one place less.
pub open spec fn move_to_index(src_parent: Seq<usize>, src_last: int, dst_parent: Seq<usize>, dst_idx: int) -> int {
    if src_parent == dst_parent && dst_idx > src_last { dst_idx - 1 } else { dst_idx }
}

/// `MoveTo` refuses a move: the node would go under itself, or there is no
/// node to move.
pub open spec fn move_to_refused<P>(t: TreeNode<P>, src_parent: Seq<usize>, src_last: int, dst_parent: Seq<usize>) -> bool {
    ||| is_prefix(src_parent.push(src_last as usize), dst_parent)
    ||| node_at(t, src_parent) is None
    ||| src_last >= kids_at(t, src_parent).len()
}

impl<P> TreeNode<P> {
    /// `MoveTo` within one tree: child `src_last` of `src_parent` is taken
    /// out, then `dst_parent` is found in the tree as it is without it, and
    /// the child goes to `dst_idx` there (past the end: last). Returns where
    /// it went. `None` when the node would go under itself or does not
    /// exist (nothing changes), or when `dst_parent` leads nowhere (the
    /// child goes back where it was).
    pub fn move_node_to(&mut self, src_parent: &[usize], src_last: usize, dst_parent: &[usize], dst_idx: usize) -> (r: Option<usize>)
        ensures
            ({
                let sp = src_parent@;
                let dp = dst_parent@;
                let k0 = kids_at(*old(self), sp);
                if move_to_refused(*old(self), sp, src_last as int, dp) {
                    &&& r is None
                    &&& *final(self) == *old(self)
                } else {
                    let node = k0[src_last as int];
                    let at = move_to_index(sp, src_last as int, dp, dst_idx as int);
                    exists|mid: TreeNode<P>| {
                        &&& #[trigger] replaced_at(*old(self), mid, sp, k0.remove(src_last as int))
                        &&& if node_at(mid, dp) is Some {
                            &&& r == Some((if at < kids_at(mid, dp).len() { at } else { kids_at(mid, dp).len() as int }) as usize)
                            &&& replaced_at(mid, *final(self), dp, spec_insert_clamped(kids_at(mid, dp), at, node))
                        } else {
                            &&& r is None
                            &&& replaced_at(*old(self), *final(self), sp, k0)
                        }
                    }
                }
            }),
            // within one list this is the move of one child
            !move_to_refused(*old(self), src_parent@, src_last as int, dst_parent@) && src_parent@ == dst_parent@
                ==> ({
                let k0 = kids_at(*old(self), src_parent@);
                let n = move_within_target(src_last as int, dst_idx as int, k0.len() as int);
                &&& r == Some(n as usize)
                &&& replaced_at(*old(self), *final(self), src_parent@, spec_move(k0, src_last as int, n))
            }),
            // within one list the dragged child lands in the slot the drop
            // index named among the children before the move
            !move_to_refused(*old(self), src_parent@, src_last as int, dst_parent@) && src_parent@ == dst_parent@
                ==> ({
                let s = kids_at(*old(self), src_parent@);
                let src = src_last as int;
                let dst = dst_idx as int;
                &&& src < dst <= s.len() ==> r == Some((dst - 1) as usize) && replaced_at(
                    *old(self),
                    *final(self),
                    src_parent@,
                    s.remove(src).insert(dst - 1, s[src]),
                )
                &&& dst <= src ==> r == Some(dst_idx) && replaced_at(
                    *old(self),
                    *final(self),
                    src_parent@,
                    s.remove(src).insert(dst, s[src]),
                )
                &&& dst > s.len() ==> r == Some((s.len() - 1) as usize) && replaced_at(
                    *old(self),
                    *final(self),
                    src_parent@,
                    s.remove(src).push(s[src]),
                )
            }),
    {
        let src_path = chain_with(src_parent, src_last);
        if chain_is_prefix(&src_path, dst_parent) {
            return None;
        }
        match self.resolve(src_parent) {
            None => return None,
            Some(n) => if src_last >= n.children.len() {
                return None;
            },
        }
        let ghost t0 = *self;
        let ghost k0 = kids_at(t0, src_parent@);
        let mut kids = self.take_kids(src_parent);
        let ghost t1 = *self;
        let node = kids.remove(src_last);
        proof {
            lemma_replaced_node(t0, t1, src_parent@, Seq::empty());
        }
        self.put_children_at(src_parent, kids);
        let ghost mid = *self;
        proof {
            lemma_replaced_twice(t0, t1, mid, src_parent@, Seq::empty(), k0.remove(src_last as int));
            lemma_replaced_node(t0, mid, src_parent@, k0.remove(src_last as int));
        }
        let same = chains_equal(src_parent, dst_parent);
        let adjusted = if same && dst_idx > src_last { dst_idx - 1 } else { dst_idx };
        if self.resolve(dst_parent).is_none() {
            let mut back = self.take_kids(src_parent);
            let ghost t3 = *self;
            back.insert(src_last, node);
            proof {
                assert(back@ =~= k0);
                lemma_replaced_node(mid, t3, src_parent@, Seq::empty());
            }
            self.put_children_at(src_parent, back);
            proof {
                lemma_replaced_twice(mid, t3, *self, src_parent@, Seq::empty(), k0);
                lemma_replaced_twice(t0, mid, *self, src_parent@, k0.remove(src_last as int), k0);
                assert(replaced_at(t0, mid, src_parent@, k0.remove(src_last as int)));
            }
            return None;
        }
        let ghost kd = kids_at(mid, dst_parent@);
        let mut dkids = self.take_kids(dst_parent);
        let ghost t4 = *self;
        let at = insert_clamped(&mut dkids, adjusted, node);
        proof {
            lemma_replaced_node(mid, t4, dst_parent@, Seq::empty());
        }
        self.put_children_at(dst_parent, dkids);
        proof {
            lemma_replaced_twice(mid, t4, *self, dst_parent@, Seq::empty(), dkids@);
            assert(replaced_at(t0, mid, src_parent@, k0.remove(src_last as int)));
            if same {
                assert(kd == k0.remove(src_last as int));
                lemma_replaced_twice(t0, mid, *self, src_parent@, k0.remove(src_last as int), dkids@);
                assert(dkids@ =~= spec_move(k0, src_last as int, move_within_target(src_last as int, dst_idx as int, k0.len() as int)));
                lemma_move_within_drop_slot(k0, src_last as int, dst_idx as int);
            }
        }
        Some(at)
    }
}

/// `MoveTo` between two trees: child `src_last` of `src_parent` in `src`
/// goes to `dst_idx` of `dst_parent` in `dst` (past the end: last).
/// Returns where it went; `None`, changing nothing, when either end is
/// missing.
pub fn move_node_across<P>(
    src: &mut TreeNode<P>,
    src_parent: &[usize],
    src_last: usize,
    dst: &mut TreeNode<P>,
    dst_parent: &[usize],
    dst_idx: usize,
) -> (r: Option<usize>)
    ensures
        ({
            let k0 = kids_at(*old(src), src_parent@);
            let kd = kids_at(*old(dst), dst_parent@);
            if node_at(*old(src), src_parent@) is Some && src_last < k0.len() && node_at(*old(dst), dst_parent@) is Some {
                &&& r == Some((if dst_idx < kd.len() { dst_idx as int } else { kd.len() as int }) as usize)
                &&& replaced_at(*old(src), *final(src), src_parent@, k0.remove(src_last as int))
                &&& replaced_at(*old(dst), *final(dst), dst_parent@, spec_insert_clamped(kd, dst_idx as int, k0[src_last as int]))
            } else {
                &&& r is None
                &&& *final(src) == *old(src)
                &&& *final(dst) == *old(dst)
            }
        }),
{
    match src.resolve(src_parent) {
        None => return None,
        Some(n) => if src_last >= n.children.len() {
            return None;
        },
    }
    if dst.resolve(dst_parent).is_none() {
        return None;
    }
    let ghost s0 = *src;
    let ghost d0 = *dst;
    let mut kids = src.take_kids(src_parent);
    let ghost s1 = *src;
    let node = kids.remove(src_last);
    proof {
        lemma_replaced_node(s0, s1, src_parent@, Seq::empty());
    }
    src.put_children_at(src_parent, kids);
    proof {
        lemma_replaced_twice(s0, s1, *src, src_parent@, Seq::empty(), kids@);
    }
    let mut dkids = dst.take_kids(dst_parent);
    let ghost d1 = *dst;
    let at = insert_clamped(&mut dkids, dst_idx, node);
    proof {
        lemma_replaced_node(d0, d1, dst_parent@, Seq::empty());
    }
    dst.put_children_at(dst_parent, dkids);
    proof {
        lemma_replaced_twice(d0, d1, *dst, dst_parent@, Seq::empty(), dkids@);
    }
    Some(at)
}

/// Two trees agree at `c`: a node there in both or in neither, with the
/// same data and as many children.
pub open spec fn agree_at<P>(a: TreeNode<P>, b: TreeNode<P>, c: Seq<usize>) -> bool {
    match (node_at(a, c), node_at(b, c)) {
        (Some(x), Some(y)) => x.data == y.data && x.children@.len() == y.children@.len(),
        (None, None) => true,
        _ => false,
    }
}

/// A tree whose children at one node were replaced by the same children
/// agrees with the tree before at every chain.
pub proof fn lemma_unchanged_agrees<P>(t0: TreeNode<P>, t2: TreeNode<P>, p: Seq<usize>, c: Seq<usize>)
    requires
        unchanged_at(t0, t2, p),
    ensures
        agree_at(t0, t2, c),
    decreases c.len(),
{
    lemma_replaced_node(t0, t2, p, kids_at(t0, p));
    if p.len() == 0 {
        if c.len() > 0 {
            assert(t2.children@ == t0.children@);
        }
    } else if c.len() > 0 {
        let q = p[0] as int;
        let k = c[0] as int;
        if 0 <= k < t0.children@.len() {
            if k == q {
                let a = t0.children@[q];
                assert(node_at(t0, p) == node_at(a, p.drop_first()));
                assert(unchanged_at(a, t2.children@[q], p.drop_first()));
                lemma_unchanged_agrees(a, t2.children@[q], p.drop_first(), c.drop_first());
            } else {
                assert(t2.children@[k] == t0.children@[k]);
            }
        }
    }
}

/// Deleting the child just added gives back the tree: it agrees with the
/// tree before the add at every chain.
pub proof fn lemma_tree_delete_after_add<P>(t0: TreeNode<P>, t1: TreeNode<P>, t2: TreeNode<P>, parent: Seq<usize>, node: TreeNode<P>)
    requires
        node_at(t0, parent) is Some,
        replaced_at(t0, t1, parent, kids_at(t0, parent).push(node)),
        replaced_at(t1, t2, parent, kids_at(t1, parent).remove(kids_at(t0, parent).len() as int)),
    ensures
        unchanged_at(t0, t2, parent),
        forall|c: Seq<usize>| agree_at(t0, t2, c),
{
    let k = kids_at(t0, parent);
    lemma_replaced_node(t0, t1, parent, k.push(node));
    assert(k.push(node).remove(k.len() as int) =~= k);
    lemma_replaced_twice(t0, t1, t2, parent, k.push(node), k);
    assert forall|c: Seq<usize>| agree_at(t0, t2, c) by {
        lemma_unchanged_agrees(t0, t2, parent, c);
    }
}

/// Deleting the copy that `Duplicate` made gives back the tree.
pub proof fn lemma_tree_delete_after_duplicate<P>(
    t0: TreeNode<P>,
    t1: TreeNode<P>,
    t2: TreeNode<P>,
    parent: Seq<usize>,
    last: int,
    copy: TreeNode<P>,
)
    requires
        node_at(t0, parent) is Some,
        0 <= last < kids_at(t0, parent).len(),
        replaced_at(t0, t1, parent, kids_at(t0, parent).insert(last + 1, copy)),
        replaced_at(t1, t2, parent, kids_at(t1, parent).remove(last + 1)),
    ensures
        unchanged_at(t0, t2, parent),
        forall|c: Seq<usize>| agree_at(t0, t2, c),
{
    let k = kids_at(t0, parent);
    lemma_replaced_node(t0, t1, parent, k.insert(last + 1, copy));
    assert(k.insert(last + 1, copy).remove(last + 1) =~= k);
    lemma_replaced_twice(t0, t1, t2, parent, k.insert(last + 1, copy), k);
    assert forall|c: Seq<usize>| agree_at(t0, t2, c) by {
        lemma_unchanged_agrees(t0, t2, parent, c);
    }
}

/// Moving a node among its siblings and back from where it landed gives
/// back the tree.
pub proof fn lemma_tree_move_sibling_back<P>(
    t0: TreeNode<P>,
    t1: TreeNode<P>,
    t2: TreeNode<P>,
    parent: Seq<usize>,
    last: int,
    delta: int,
)
    requires
        node_at(t0, parent) is Some,
        0 <= last < kids_at(t0, parent).len(),
        sibling_target(last, delta, kids_at(t0, parent).len() as int) != last,
        replaced_at(
            t0,
            t1,
            parent,
            spec_move(kids_at(t0, parent), last, sibling_target(last, delta, kids_at(t0, parent).len() as int)),
        ),
        replaced_at(
            t1,
            t2,
            parent,
            spec_move(
                kids_at(t1, parent),
                sibling_target(last, delta, kids_at(t0, parent).len() as int),
                last,
            ),
        ),
    ensures
        unchanged_at(t0, t2, parent),
        forall|c: Seq<usize>| agree_at(t0, t2, c),
{
    let k = kids_at(t0, parent);
    let n = sibling_target(last, delta, k.len() as int);
    lemma_replaced_node(t0, t1, parent, spec_move(k, last, n));
    lemma_move_sibling_back(k, last, delta);
    lemma_replaced_twice(t0, t1, t2, parent, spec_move(k, last, n), k);
    assert forall|c: Seq<usize>| agree_at(t0, t2, c) by {
        lemma_unchanged_agrees(t0, t2, parent, c);
    }
}

} // verus!
