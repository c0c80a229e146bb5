//! Multi-selection state with Finder/VSCode-style behaviors: `set_single`
//! (plain click), `toggle` (Cmd-click), `extend` (Shift-click),
//! `replace_with` (marquee). The last-inserted path is the *primary*: what
//! the inspector and pickers operate on when a single anchor is needed.

use vstd::prelude::*;
use crate::editor::node_path::{NodePath, PathV, spec_descendant};

verus! {

/// `s` holds no path twice.
pub open spec fn no_dups(s: Seq<PathV>) -> bool {
    forall|i: int, j: int| 0 <= i < s.len() && 0 <= j < s.len() && i != j ==> s[i] != s[j]
}

/// Index of the first occurrence of `x` in `s` (`s.len()` if absent).
pub open spec fn first_index(s: Seq<PathV>, x: PathV) -> int
    decreases s.len(),
{
    if s.len() == 0 {
        0
    } else if s[0] == x {
        0
    } else {
        1 + first_index(s.drop_first(), x)
    }
}

pub proof fn lemma_first_index(s: Seq<PathV>, x: PathV)
    ensures
        0 <= first_index(s, x) <= s.len(),
        first_index(s, x) < s.len() <==> s.contains(x),
        first_index(s, x) < s.len() ==> s[first_index(s, x)] == x,
        forall|k: int| 0 <= k < first_index(s, x) ==> s[k] != x,
    decreases s.len(),
{
    if s.len() > 0 && s[0] != x {
        lemma_first_index(s.drop_first(), x);
        assert forall|k: int| 0 <= k < first_index(s, x) implies s[k] != x by {
            if k > 0 {
                assert(s[k] == s.drop_first()[k - 1]);
            }
        }
        if s.contains(x) {
            let j = choose|j: int| 0 <= j < s.len() && s[j] == x;
            assert(s.drop_first()[j - 1] == x);
        }
        if s.drop_first().contains(x) {
            let j = choose|j: int| 0 <= j < s.drop_first().len() && s.drop_first()[j] == x;
            assert(s[j + 1] == x);
        }
    }
}

/// `s` with duplicates dropped, keeping each path's first occurrence.
pub open spec fn dedup(s: Seq<PathV>) -> Seq<PathV>
    decreases s.len(),
{
    if s.len() == 0 {
        Seq::empty()
    } else {
        let d = dedup(s.drop_last());
        if d.contains(s.last()) {
            d
        } else {
            d.push(s.last())
        }
    }
}

/// The paths of `s` with no strict ancestor in `all`, in order.
pub open spec fn roots_among(s: Seq<PathV>, all: Seq<PathV>) -> Seq<PathV>
    decreases s.len(),
{
    if s.len() == 0 {
        Seq::empty()
    } else {
        let r = roots_among(s.drop_last(), all);
        if exists|q: PathV| all.contains(q) && q != s.last() && spec_descendant(s.last(), q) {
            r
        } else {
            r.push(s.last())
        }
    }
}

/// Cmd-click on `p`: drop it if selected, else add it as primary.
pub open spec fn spec_toggle(s: Seq<PathV>, p: PathV) -> Seq<PathV> {
    if s.contains(p) {
        s.remove(first_index(s, p))
    } else {
        s.push(p)
    }
}

/// Shift-click on `p`: make it the primary, adding it if needed.
pub open spec fn spec_extend(s: Seq<PathV>, p: PathV) -> Seq<PathV> {
    if s.contains(p) {
        s.remove(first_index(s, p)).push(p)
    } else {
        s.push(p)
    }
}

/// Multi-selection; `items` never holds a path twice.
#[derive(Debug, Clone)]
pub struct Selection {
    items: Vec<NodePath>,
}

impl View for Selection {
    type V = Seq<PathV>;

    closed spec fn view(&self) -> Seq<PathV> {
        self.items@.map_values(|p: NodePath| p@)
    }
}

impl Default for Selection {
    fn default() -> (r: Selection)
        ensures
            r@ == Seq::<PathV>::empty(),
    {
        let r = Selection { items: Vec::new() };
        assert(r@ =~= Seq::<PathV>::empty());
        r
    }
}

impl Selection {
    /// The selection holds no path twice.
    pub open spec fn wf(&self) -> bool {
        no_dups(self@)
    }

    /// Most-recently-added selection. Inspector + pickers anchor on this.
    pub fn primary(&self) -> (r: Option<&NodePath>)
        ensures
            self@.len() == 0 ==> r is None,
            self@.len() > 0 ==> r is Some && r->0@ == self@.last(),
    {
        if self.items.len() == 0 {
            None
        } else {
            Some(&self.items[self.items.len() - 1])
        }
    }

    fn position(&self, p: &NodePath) -> (r: Option<usize>)
        ensures
            r is None ==> !self@.contains(p@),
            r is Some ==> r->0 < self@.len() && r->0 == first_index(self@, p@) && self@.contains(p@)
                && self@[r->0 as int] == p@,
    {
        proof {
            lemma_first_index(self@, p@);
        }
        let mut i: usize = 0;
        while i < self.items.len()
            invariant
                i <= self.items@.len(),
                forall|k: int| 0 <= k < i ==> self@[k] != p@,
                0 <= first_index(self@, p@) <= self@.len(),
                first_index(self@, p@) < self@.len() <==> self@.contains(p@),
                first_index(self@, p@) < self@.len() ==> self@[first_index(self@, p@)] == p@,
                forall|k: int| 0 <= k < first_index(self@, p@) ==> self@[k] != p@,
            decreases self.items@.len() - i,
        {
            if self.items[i].same_as(p) {
                proof {
                    assert(self@[i as int] == p@);
                    if first_index(self@, p@) < i {
                        assert(self@[first_index(self@, p@)] == p@);
                    }
                }
                return Some(i);
            }
            i = i + 1;
        }
        proof {
            if self@.contains(p@) {
                let j = choose|j: int| 0 <= j < self@.len() && self@[j] == p@;
                assert(self@[j] != p@);
            }
        }
        None
    }

    /// Is `p` selected?
    pub fn is_selected(&self, p: &NodePath) -> (r: bool)
        ensures
            r == self@.contains(p@),
    {
        self.position(p).is_some()
    }

    /// Single-click semantic: clear everything else and select just `p`.
    pub fn set_single(&mut self, p: NodePath)
        ensures
            final(self)@ == seq![p@],
    {
        self.items.clear();
        self.items.push(p);
        proof {
            assert(self@ =~= seq![p@]);
        }
    }

    /// Cmd-click semantic: toggle membership without disturbing the rest.
    /// Toggling a selected item makes the previous item the new primary.
    pub fn toggle(&mut self, p: NodePath)
        ensures
            final(self)@ == spec_toggle(old(self)@, p@),
    {
        match self.position(&p) {
            Some(pos) => {
                self.items.remove(pos);
                proof {
                    assert(self@ =~= old(self)@.remove(pos as int));
                }
            },
            None => {
                self.items.push(p);
                proof {
                    assert(self@ =~= old(self)@.push(p@));
                }
            },
        }
    }

    /// Shift-click semantic: add without removing existing. Re-adding bumps
    /// the path to primary (moves it to the end).
    pub fn extend(&mut self, p: NodePath)
        ensures
            final(self)@ == spec_extend(old(self)@, p@),
    {
        match self.position(&p) {
            Some(pos) => {
                let existing = self.items.remove(pos);
                self.items.push(existing);
                proof {
                    assert(self@ =~= old(self)@.remove(pos as int).push(p@));
                }
            },
            None => {
                self.items.push(p);
                proof {
                    assert(self@ =~= old(self)@.push(p@));
                }
            },
        }
    }

    /// A click on `p` with the platform modifiers: Cmd toggles, Shift
    /// extends, a plain click selects `p` alone.
    pub fn apply_click(&mut self, p: NodePath, cmd: bool, shift: bool)
        ensures
            final(self)@ == (if cmd {
                spec_toggle(old(self)@, p@)
            } else if shift {
                spec_extend(old(self)@, p@)
            } else {
                seq![p@]
            }),
    {
        if cmd {
            self.toggle(p);
        } else if shift {
            self.extend(p);
        } else {
            self.set_single(p);
        }
    }

    /// Marquee semantic: replace the selection with `paths`, duplicates
    /// dropped (first occurrence kept).
    pub fn replace_with(&mut self, paths: Vec<NodePath>)
        ensures
            final(self)@ == dedup(paths@.map_values(|p: NodePath| p@)),
    {
        let ghost ps = paths@.map_values(|p: NodePath| p@);
        self.items.clear();
        let mut i: usize = 0;
        proof {
            assert(self@ =~= Seq::<PathV>::empty());
            assert(ps.take(0) =~= Seq::<PathV>::empty());
        }
        while i < paths.len()
            invariant
                i <= paths@.len(),
                ps == paths@.map_values(|p: NodePath| p@),
                self@ == dedup(ps.take(i as int)),
            decreases paths@.len() - i,
        {
            let p = &paths[i];
            proof {
                let t = ps.take(i + 1);
                assert(t.drop_last() =~= ps.take(i as int));
                assert(t.last() == p@);
            }
            if !self.is_selected(p) {
                self.items.push(p.duplicate());
                proof {
                    assert(self@ =~= dedup(ps.take(i as int)).push(p@));
                }
            }
            i = i + 1;
        }
        proof {
            assert(ps.take(paths@.len() as int) =~= ps);
        }
    }

    /// Deselect everything.
    pub fn clear(&mut self)
        ensures
            final(self)@ == Seq::<PathV>::empty(),
    {
        self.items.clear();
        proof {
            assert(self@ =~= Seq::<PathV>::empty());
        }
    }

    /// The selected paths, oldest first.
    pub fn iter(&self) -> (r: std::slice::Iter<'_, NodePath>)
        ensures
            vstd::std_specs::slice::into_iter_elts(r).map_values(|p: NodePath| p@) == self@,
    {
        self.items.iter()
    }

    /// Number of selected paths.
    pub fn len(&self) -> (r: usize)
        ensures
            r == self@.len(),
    {
        self.items.len()
    }

    /// The selected paths, oldest first.
    pub fn as_slice(&self) -> (r: &[NodePath])
        ensures
            r@.map_values(|p: NodePath| p@) == self@,
    {
        self.items.as_slice()
    }

    /// The selected paths with no selected strict ancestor, in selection
    /// order: used before a multi-delete, since deleting an ancestor takes
    /// its subtree with it.
    pub fn without_descendants_of_selected(&self) -> (r: Vec<NodePath>)
        ensures
            r@.map_values(|p: NodePath| p@) == roots_among(self@, self@),
    {
        let ghost all = self@;
        let mut out: Vec<NodePath> = Vec::with_capacity(self.items.len());
        let mut i: usize = 0;
        proof {
            assert(out@.map_values(|p: NodePath| p@) =~= roots_among(all.take(0), all));
        }
        while i < self.items.len()
            invariant
                i <= self.items@.len(),
                all == self@,
                out@.map_values(|p: NodePath| p@) == roots_among(all.take(i as int), all),
            decreases self.items@.len() - i,
        {
            let p = &self.items[i];
            let mut shadowed = false;
            let mut j: usize = 0;
            while j < self.items.len()
                invariant
                    j <= self.items@.len(),
                    i < self.items@.len(),
                    all == self@,
                    p@ == all[i as int],
                    shadowed ==> exists|q: PathV| all.contains(q) && q != p@ && spec_descendant(p@, q),
                    !shadowed ==> forall|k: int| 0 <= k < j ==> !(all[k] != p@ && spec_descendant(p@, all[k])),
                ensures
                    shadowed ==> exists|q: PathV| all.contains(q) && q != p@ && spec_descendant(p@, q),
                    !shadowed ==> forall|k: int| 0 <= k < self.items@.len() ==> !(all[k] != p@ && spec_descendant(p@, all[k])),
                decreases self.items@.len() - j,
            {
                let q = &self.items[j];
                if !p.same_as(q) && path_is_descendant_of(p, q) {
                    proof {
                        assert(all[j as int] == q@);
                        assert(all.contains(q@));
                    }
                    shadowed = true;
                    break;
                }
                j = j + 1;
            }
            let ghost before = out@.map_values(|p: NodePath| p@);
            proof {
                let t = all.take(i + 1);
                assert(t.drop_last() =~= all.take(i as int));
                assert(t.last() == p@);
                if !shadowed {
                    assert forall|q: PathV| all.contains(q) implies !(q != p@ && spec_descendant(p@, q)) by {
                        let k = choose|k: int| 0 <= k < all.len() && all[k] == q;
                        assert(!(all[k] != p@ && spec_descendant(p@, all[k])));
                    }
                }
            }
            if !shadowed {
                out.push(p.duplicate());
                proof {
                    assert(out@.map_values(|p: NodePath| p@) =~= before.push(all[i as int]));
                }
            } else {
                proof {
                    assert(out@.map_values(|p: NodePath| p@) =~= before);
                }
            }
            i = i + 1;
        }
        proof {
            assert(all.take(self.items@.len() as int) =~= all);
        }
        out
    }
}

proof fn lemma_remove_keeps_no_dups(s: Seq<PathV>, i: int)
    requires
        no_dups(s),
        0 <= i < s.len(),
    ensures
        no_dups(s.remove(i)),
        !s.remove(i).contains(s[i]),
        forall|x: PathV| x != s[i] ==> (s.remove(i).contains(x) <==> s.contains(x)),
{
    let r = s.remove(i);
    assert forall|a: int, b: int| 0 <= a < r.len() && 0 <= b < r.len() && a != b implies r[a] != r[b] by {
        let a2 = if a < i { a } else { a + 1 };
        let b2 = if b < i { b } else { b + 1 };
        assert(r[a] == s[a2] && r[b] == s[b2]);
    }
    if r.contains(s[i]) {
        let a = choose|a: int| 0 <= a < r.len() && r[a] == s[i];
        let a2 = if a < i { a } else { a + 1 };
        assert(r[a] == s[a2]);
    }
    assert forall|x: PathV| x != s[i] implies (r.contains(x) <==> s.contains(x)) by {
        if s.contains(x) {
            let a = choose|a: int| 0 <= a < s.len() && s[a] == x;
            if a < i {
                assert(r[a] == x);
            } else {
                assert(a != i);
                assert(r[a - 1] == x);
            }
        }
        if r.contains(x) {
            let a = choose|a: int| 0 <= a < r.len() && r[a] == x;
            let a2 = if a < i { a } else { a + 1 };
            assert(s[a2] == x);
        }
    }
}

proof fn lemma_push_keeps_no_dups(s: Seq<PathV>, p: PathV)
    requires
        no_dups(s),
        !s.contains(p),
    ensures
        no_dups(s.push(p)),
{
    let t = s.push(p);
    assert forall|a: int, b: int| 0 <= a < t.len() && 0 <= b < t.len() && a != b implies t[a] != t[b] by {
        if a < s.len() && b < s.len() {
            assert(t[a] == s[a] && t[b] == s[b]);
        } else if a < s.len() {
            assert(t[a] == s[a]);
        } else {
            assert(t[b] == s[b]);
        }
    }
}

/// A selection without duplicates stays without duplicates under every
/// click semantic: single, toggle, extend, marquee.
pub proof fn lemma_selection_ops_keep_no_dups(s: Seq<PathV>, p: PathV, paths: Seq<PathV>)
    requires
        no_dups(s),
    ensures
        no_dups(seq![p]),
        no_dups(spec_toggle(s, p)),
        no_dups(spec_extend(s, p)),
        no_dups(dedup(paths)),
        no_dups(Seq::<PathV>::empty()),
{
    lemma_first_index(s, p);
    if s.contains(p) {
        lemma_remove_keeps_no_dups(s, first_index(s, p));
        lemma_push_keeps_no_dups(s.remove(first_index(s, p)), p);
    } else {
        lemma_push_keeps_no_dups(s, p);
    }
    lemma_dedup(paths);
}

/// `dedup` keeps exactly the paths of its input, once each.
pub proof fn lemma_dedup(s: Seq<PathV>)
    ensures
        no_dups(dedup(s)),
        forall|x: PathV| dedup(s).contains(x) <==> s.contains(x),
    decreases s.len(),
{
    if s.len() > 0 {
        let p = s.drop_last();
        lemma_dedup(p);
        let d = dedup(p);
        if !d.contains(s.last()) {
            lemma_push_keeps_no_dups(d, s.last());
        }
        assert forall|x: PathV| dedup(s).contains(x) <==> s.contains(x) by {
            if s.contains(x) {
                let a = choose|a: int| 0 <= a < s.len() && s[a] == x;
                if a < s.len() - 1 {
                    assert(p[a] == x);
                }
            }
            if p.contains(x) {
                let a = choose|a: int| 0 <= a < p.len() && p[a] == x;
                assert(s[a] == x);
            }
            if d.push(s.last()).contains(x) && x != s.last() {
                let a = choose|a: int| 0 <= a < d.push(s.last()).len() && d.push(s.last())[a] == x;
                assert(d[a] == x);
            }
            if d.contains(x) {
                let a = choose|a: int| 0 <= a < d.len() && d[a] == x;
                assert(d.push(s.last())[a] == x);
            }
            if x == s.last() {
                assert(s[s.len() - 1] == x);
                assert(d.push(s.last())[d.len() as int] == x);
            }
        }
    }
}

/// Toggling the same path twice gives back a selection with the same
/// paths: exactly the same one when the path was not selected, else the
/// same paths with that one moved to primary. Shift-click always leaves the
/// path as primary, keeping every other selected path.
pub proof fn lemma_toggle_twice(s: Seq<PathV>, p: PathV)
    requires
        no_dups(s),
    ensures
        !s.contains(p) ==> spec_toggle(spec_toggle(s, p), p) == s,
        s.contains(p) ==> spec_toggle(spec_toggle(s, p), p) == s.remove(first_index(s, p)).push(p),
        forall|x: PathV| spec_toggle(spec_toggle(s, p), p).contains(x) <==> s.contains(x),
        spec_extend(s, p).last() == p,
        forall|x: PathV| spec_extend(s, p).contains(x) <==> (s.contains(x) || x == p),
{
    lemma_first_index(s, p);
    if s.contains(p) {
        let i = first_index(s, p);
        lemma_remove_keeps_no_dups(s, i);
        let r = s.remove(i);
        assert(spec_toggle(r, p) == r.push(p));
        assert forall|x: PathV| r.push(p).contains(x) <==> s.contains(x) by {
            if r.push(p).contains(x) && x != p {
                let a = choose|a: int| 0 <= a < r.push(p).len() && r.push(p)[a] == x;
                assert(r[a] == x);
            }
            if r.contains(x) {
                let a = choose|a: int| 0 <= a < r.len() && r[a] == x;
                assert(r.push(p)[a] == x);
            }
            assert(r.push(p)[r.len() as int] == p);
        }
    } else {
        let t = s.push(p);
        lemma_first_index(t, p);
        assert(t[s.len() as int] == p);
        assert forall|k: int| 0 <= k < s.len() implies t[k] != p by {
            assert(t[k] == s[k]);
        }
        assert(first_index(t, p) == s.len());
        assert(t.remove(s.len() as int) =~= s);
    }
    assert forall|x: PathV| spec_extend(s, p).contains(x) <==> (s.contains(x) || x == p) by {
        if s.contains(p) {
            let i = first_index(s, p);
            lemma_remove_keeps_no_dups(s, i);
            let r = s.remove(i);
            if r.push(p).contains(x) && x != p {
                let a = choose|a: int| 0 <= a < r.push(p).len() && r.push(p)[a] == x;
                assert(r[a] == x);
            }
            if r.contains(x) {
                let a = choose|a: int| 0 <= a < r.len() && r[a] == x;
                assert(r.push(p)[a] == x);
            }
            assert(r.push(p)[r.len() as int] == p);
        } else {
            if s.push(p).contains(x) && x != p {
                let a = choose|a: int| 0 <= a < s.push(p).len() && s.push(p)[a] == x;
                assert(s[a] == x);
            }
            if s.contains(x) {
                let a = choose|a: int| 0 <= a < s.len() && s[a] == x;
                assert(s.push(p)[a] == x);
            }
            assert(s.push(p)[s.len() as int] == p);
        }
    }
}

/// True iff `descendant` lives strictly below `ancestor` in the same tree.
pub fn path_is_descendant_of(descendant: &NodePath, ancestor: &NodePath) -> (r: bool)
    ensures
        r == spec_descendant(descendant@, ancestor@),
{
    if descendant.doc != ancestor.doc || descendant.tree != ancestor.tree
        || descendant.child_chain.len() <= ancestor.child_chain.len() {
        return false;
    }
    let n = ancestor.child_chain.len();
    let mut i: usize = 0;
    while i < n
        invariant
            n == ancestor.child_chain@.len(),
            n < descendant.child_chain@.len(),
            i <= n,
            forall|k: int| 0 <= k < i ==> descendant.child_chain@[k] == ancestor.child_chain@[k],
        decreases n - i,
    {
        if descendant.child_chain[i] != ancestor.child_chain[i] {
            proof {
                assert(descendant.child_chain@.take(n as int)[i as int] != ancestor.child_chain@[i as int]);
            }
            return false;
        }
        i = i + 1;
    }
    proof {
        assert(descendant.child_chain@.take(n as int) =~= ancestor.child_chain@);
    }
    true
}

/// Every path but `p`.
pub open spec fn other_than(p: PathV) -> spec_fn(PathV) -> bool {
    |q: PathV| q != p
}

proof fn lemma_filter_absent(s: Seq<PathV>, p: PathV)
    requires
        !s.contains(p),
    ensures
        s.filter(other_than(p)) == s,
    decreases s.len(),
{
    reveal(Seq::filter);
    if s.len() > 0 {
        let q = s.drop_last();
        assert(!q.contains(p)) by {
            if q.contains(p) {
                let j = choose|j: int| 0 <= j < q.len() && q[j] == p;
                assert(s[j] == p);
            }
        }
        lemma_filter_absent(q, p);
        assert(s.last() != p) by {
            if s.last() == p {
                assert(s[s.len() - 1] == p);
            }
        }
        assert(q.push(s.last()) =~= s);
    } else {
        assert(s.filter(other_than(p)) =~= s);
    }
}

proof fn lemma_first_index_at(s: Seq<PathV>, x: PathV, k: int)
    requires
        0 <= k < s.len(),
        s[k] == x,
        forall|j: int| 0 <= j < k ==> s[j] != x,
    ensures
        first_index(s, x) == k,
{
    lemma_first_index(s, x);
    assert(s.contains(x)) by {
        assert(s[k] == x);
    }
    if first_index(s, x) > k {
        assert(s[k] == x);
    }
}

/// With no path twice, Cmd-click keeps every other path in its order: it
/// drops `p` when selected (the path before it then becomes the primary
/// if `p` was), else appends `p`.
pub proof fn lemma_toggle_filter_form(s: Seq<PathV>, p: PathV)
    requires
        no_dups(s),
    ensures
        s.contains(p) ==> spec_toggle(s, p) == s.filter(other_than(p)),
        !s.contains(p) ==> spec_toggle(s, p) == s.push(p),
        s.len() >= 2 && s.last() == p ==> spec_toggle(s, p).last() == s[s.len() - 2],
{
    lemma_first_index(s, p);
    if s.contains(p) {
        let k = first_index(s, p);
        let a = s.take(k);
        let b = s.skip(k + 1);
        assert(s =~= a + seq![p] + b);
        assert(!a.contains(p)) by {
            if a.contains(p) {
                let j = choose|j: int| 0 <= j < a.len() && a[j] == p;
                assert(s[j] == p);
            }
        }
        assert(!b.contains(p)) by {
            if b.contains(p) {
                let j = choose|j: int| 0 <= j < b.len() && b[j] == p;
                assert(s[k + 1 + j] == p);
                assert(s[k] == p);
            }
        }
        lemma_filter_absent(a, p);
        lemma_filter_absent(b, p);
        assert(seq![p].filter(other_than(p)) =~= Seq::<PathV>::empty()) by {
            reveal(Seq::filter);
            assert(seq![p].drop_last() =~= Seq::<PathV>::empty());
        }
        Seq::filter_distributes_over_add(a + seq![p], b, other_than(p));
        Seq::filter_distributes_over_add(a, seq![p], other_than(p));
        assert(s.remove(k) =~= a + b);
        assert((a + seq![p]) + b == s);
        assert(a + Seq::<PathV>::empty() =~= a);
        if s.len() >= 2 && s.last() == p {
            lemma_first_index_at(s, p, s.len() - 1);
            assert(s.remove(k).last() == s[s.len() - 2]);
        }
    }
}

/// With no path twice, Shift-click keeps every other path in its order and
/// puts `p` last; a second Shift-click on `p` changes nothing.
pub proof fn lemma_extend_filter_form(s: Seq<PathV>, p: PathV)
    requires
        no_dups(s),
    ensures
        spec_extend(s, p) == s.filter(other_than(p)).push(p),
        spec_extend(spec_extend(s, p), p) == spec_extend(s, p),
        no_dups(spec_extend(s, p)),
{
    lemma_first_index(s, p);
    if s.contains(p) {
        lemma_toggle_filter_form(s, p);
    } else {
        lemma_filter_absent(s, p);
    }
    let f = s.filter(other_than(p));
    let t = f.push(p);
    assert forall|j: int| 0 <= j < f.len() implies f[j] != p by {
        s.lemma_filter_pred(other_than(p), j);
    }
    lemma_first_index_at(t, p, f.len() as int);
    assert(t.remove(f.len() as int) =~= f);
    lemma_selection_ops_keep_no_dups(s, p, Seq::empty());
}

/// The marquee selection lists the first occurrence of each path of its
/// input, in the order of those first occurrences, and nothing else.
pub proof fn lemma_dedup_first_occurrences(s: Seq<PathV>)
    ensures
        no_dups(dedup(s)),
        forall|x: PathV| dedup(s).contains(x) <==> s.contains(x),
        forall|a: int, b: int| 0 <= a < b < dedup(s).len() ==> first_index(s, #[trigger] dedup(s)[a])
            < first_index(s, #[trigger] dedup(s)[b]),
    decreases s.len(),
{
    lemma_dedup(s);
    if s.len() > 0 {
        let p = s.drop_last();
        let d = dedup(p);
        lemma_dedup_first_occurrences(p);
        // the first index of a path of `p` is the same in `s`
        assert forall|x: PathV| p.contains(x) implies first_index(s, x) == first_index(p, x) && first_index(p, x)
            < p.len() by {
            lemma_first_index(p, x);
            let k = first_index(p, x);
            assert forall|j: int| 0 <= j < k implies s[j] != x by {
                assert(s[j] == p[j]);
            }
            assert(s[k] == p[k]);
            lemma_first_index_at(s, x, k);
        }
        let ds = dedup(s);
        assert forall|a: int, b: int| 0 <= a < b < ds.len() implies first_index(s, #[trigger] ds[a])
            < first_index(s, #[trigger] ds[b]) by {
            assert(d.contains(ds[a])) by {
                assert(ds[a] == d[a]);
            }
            assert(p.contains(ds[a]));
            if b < d.len() {
                assert(ds[a] == d[a] && ds[b] == d[b]);
                assert(d.contains(ds[b]));
                assert(first_index(p, d[a]) < first_index(p, d[b]));
            } else {
                // `ds[b]` is the last path of `s`, seen there first
                assert(!d.contains(s.last()));
                assert(ds[b] == s.last());
                assert(!p.contains(s.last()));
                assert forall|j: int| 0 <= j < s.len() - 1 implies s[j] != s.last() by {
                    assert(s[j] == p[j]);
                }
                lemma_first_index_at(s, s.last(), s.len() - 1);
            }
        }
    }
}

} // verus!
