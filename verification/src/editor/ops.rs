//! The structural edits behind the editor's tree operations, on one parent's
//! list of children, and the polygon-vertex edits, on one polygon's vertex
//! list. Both are generic over what a child or a vertex is: they move items
//! and never read them.

use vstd::prelude::*;
use crate::editor::node_path::{NodePath, spec_descendant};
use crate::editor::selection::path_is_descendant_of;

verus! {

broadcast use vstd::seq_lib::group_to_multiset_ensures;

// ---------------------------------------------------------------------------
// Children of one parent

/// The children after inserting `node` at `idx`, or at the end when `idx`
/// lies past it.
pub open spec fn spec_insert_clamped<T>(s: Seq<T>, idx: int, node: T) -> Seq<T> {
    s.insert(if idx < s.len() { idx } else { s.len() as int }, node)
}

/// Where `MoveSibling { delta }` takes the child at `last` among `len`
/// children: `last + delta`, clamped to the children.
pub open spec fn sibling_target(last: int, delta: int, len: int) -> int {
    let t = last + delta;
    if t < 0 {
        0
    } else if t > len - 1 {
        len - 1
    } else {
        t
    }
}

/// The children after moving the child at `from` so that it sits at `to`.
pub open spec fn spec_move<T>(s: Seq<T>, from: int, to: int) -> Seq<T> {
    s.remove(from).insert(to, s[from])
}

/// Where `MoveTo` puts a child taken from `src_last` when it is dropped at
/// `dst_idx` of the same parent: the drop index counts the child itself, so
/// past it the index shifts down by one; at most the last place.
pub open spec fn move_within_target(src_last: int, dst_idx: int, len: int) -> int {
    let adjusted = if dst_idx > src_last { dst_idx - 1 } else { dst_idx };
    if adjusted < len - 1 { adjusted } else { len - 1 }
}

/// `AddChild`'s insertion for a child dropped at `idx` of another parent:
/// the child goes to `idx`, or to the end when `idx` lies past it. Returns
/// where it went.
pub fn insert_clamped<T>(children: &mut Vec<T>, idx: usize, node: T) -> (r: usize)
    ensures
        r == (if idx < old(children)@.len() { idx as int } else { old(children)@.len() as int }),
        final(children)@ == spec_insert_clamped(old(children)@, idx as int, node),
{
    let at = if idx < children.len() { idx } else { children.len() };
    children.insert(at, node);
    at
}

/// `Duplicate`: a clone of child `last` goes right after it. `false`,
/// changing nothing, when there is no child `last`.
pub fn duplicate_child<T: Clone>(children: &mut Vec<T>, last: usize) -> (r: bool)
    ensures
        r == (last < old(children)@.len()),
        r ==> final(children)@ == old(children)@.insert(last + 1, final(children)@[last + 1]),
        r ==> cloned(old(children)@[last as int], final(children)@[last + 1]),
        !r ==> final(children)@ == old(children)@,
{
    if last < children.len() {
        let copy = children[last].clone();
        children.insert(last + 1, copy);
        true
    } else {
        false
    }
}

/// `Delete`: child `last` goes, with its whole subtree. `false`, changing
/// nothing, when there is no child `last`.
pub fn delete_child<T>(children: &mut Vec<T>, last: usize) -> (r: bool)
    ensures
        r == (last < old(children)@.len()),
        final(children)@ == (if r { old(children)@.remove(last as int) } else { old(children)@ }),
{
    if last < children.len() {
        children.remove(last);
        true
    } else {
        false
    }
}

/// `MoveSibling { delta }`: child `last` moves `delta` places among its
/// siblings, stopping at either end. Returns where it went; `None`, changing
/// nothing, when it stays where it is or there is no child `last`.
pub fn move_sibling<T>(children: &mut Vec<T>, last: usize, delta: i32) -> (r: Option<usize>)
    requires
        // the clamp to `0..=len - 1` is only defined with a child present
        old(children)@.len() >= 1,
        old(children)@.len() <= i32::MAX,
        last <= i32::MAX,
        i32::MIN <= last + delta <= i32::MAX,
    ensures
        ({
            let len = old(children)@.len() as int;
            let n = sibling_target(last as int, delta as int, len);
            if n != last && last < len {
                &&& r == Some(n as usize)
                &&& final(children)@ == spec_move(old(children)@, last as int, n)
            } else {
                &&& r is None
                &&& final(children)@ == old(children)@
            }
        }),
{
    let len = children.len() as i64;
    let t: i64 = last as i64 + delta as i64;
    let new_idx: i64 = if t < 0 {
        0
    } else if t > len - 1 {
        len - 1
    } else {
        t
    };
    let new_idx = new_idx as usize;
    if new_idx != last && last < children.len() {
        let node = children.remove(last);
        children.insert(new_idx, node);
        Some(new_idx)
    } else {
        None
    }
}

/// `MoveTo` within one parent: child `src_last` is taken out and dropped at
/// `dst_idx`, an index among the children before the move. Returns where it
/// went; `None`, changing nothing, when there is no child `src_last`.
pub fn move_within<T>(children: &mut Vec<T>, src_last: usize, dst_idx: usize) -> (r: Option<usize>)
    ensures
        ({
            let len = old(children)@.len() as int;
            if src_last < len {
                let n = move_within_target(src_last as int, dst_idx as int, len);
                &&& r == Some(n as usize)
                &&& final(children)@ == spec_move(old(children)@, src_last as int, n)
            } else {
                &&& r is None
                &&& final(children)@ == old(children)@
            }
        }),
        // the dragged child lands in the slot the drop index named
        ({
            let s = old(children)@;
            let src = src_last as int;
            let dst = dst_idx as int;
            &&& src < dst <= s.len() ==> r == Some((dst - 1) as usize) && final(children)@ == s.remove(src).insert(
                dst - 1,
                s[src],
            )
            &&& src < s.len() && dst <= src ==> r == Some(dst_idx) && final(children)@ == s.remove(src).insert(
                dst,
                s[src],
            )
            &&& src < s.len() && dst > s.len() ==> r == Some((s.len() - 1) as usize) && final(children)@ == s.remove(
                src,
            ).push(s[src])
        }),
{
    if src_last >= children.len() {
        return None;
    }
    proof {
        lemma_move_within_drop_slot(children@, src_last as int, dst_idx as int);
    }
    let node = children.remove(src_last);
    let adjusted = if dst_idx > src_last { dst_idx - 1 } else { dst_idx };
    let at = if adjusted < children.len() { adjusted } else { children.len() };
    children.insert(at, node);
    Some(at)
}

impl NodePath {
    /// `MoveTo` refuses to drop this node under `dst_parent` when that is
    /// the node itself or lies below it: the node would be cut off from the
    /// tree.
    pub fn move_into_own_subtree(&self, dst_parent: &NodePath) -> (r: bool)
        ensures
            r == (dst_parent@ == self@ || spec_descendant(dst_parent@, self@)),
    {
        self.same_as(dst_parent) || path_is_descendant_of(dst_parent, self)
    }
}

/// Adding a child and deleting the child just added gives back the children
/// as they were.
pub proof fn lemma_delete_after_add<T>(s: Seq<T>, node: T)
    ensures
        s.push(node).remove(s.len() as int) == s,
{
    assert(s.push(node).remove(s.len() as int) =~= s);
}

/// Deleting the copy that `Duplicate` made gives back the children as they
/// were.
pub proof fn lemma_delete_after_duplicate<T>(s: Seq<T>, last: int, copy: T)
    requires
        0 <= last < s.len(),
    ensures
        s.insert(last + 1, copy).remove(last + 1) == s,
{
    assert(s.insert(last + 1, copy).remove(last + 1) =~= s);
}

/// A move keeps every child, each as often as before, and the moved child
/// sits where the move put it.
pub proof fn lemma_move_keeps_children<T>(s: Seq<T>, from: int, to: int)
    requires
        0 <= from < s.len(),
        0 <= to < s.len(),
    ensures
        spec_move(s, from, to).len() == s.len(),
        spec_move(s, from, to).to_multiset() == s.to_multiset(),
        spec_move(s, from, to)[to] == s[from],
{
    broadcast use vstd::multiset::group_multiset_axioms;
    assert(s.to_multiset().remove(s[from]).insert(s[from]) =~= s.to_multiset());
}

/// Where a drag-and-drop within one parent leaves the children `s`: the
/// child at `src` is taken out and lands in the slot that the drop index
/// `dst` named among the children before the move. A drop past the child
/// itself lands one place lower (the child no longer counts), so the
/// child sits right before the child that was at `dst`; a drop at or past
/// the end lands last; a drop at or before the child lands at `dst`.
pub proof fn lemma_move_within_drop_slot<T>(s: Seq<T>, src: int, dst: int)
    requires
        0 <= src < s.len(),
        0 <= dst,
    ensures
        ({
            let n = move_within_target(src, dst, s.len() as int);
            let moved = spec_move(s, src, n);
            &&& src < dst <= s.len() ==> n == dst - 1 && moved == s.remove(src).insert(dst - 1, s[src])
            &&& dst <= src ==> n == dst && moved == s.remove(src).insert(dst, s[src])
            &&& dst > s.len() ==> n == s.len() - 1 && moved == s.remove(src).push(s[src])
            &&& moved.len() == s.len()
            &&& moved[n] == s[src]
            &&& moved.remove(n) == s.remove(src)
            &&& dst < s.len() && dst != src && dst != src + 1 ==> moved[n + 1] == s[dst]
            &&& 0 < dst <= s.len() && dst != src && dst != src + 1 ==> moved[n - 1] == s[dst - 1]
        }),
{
    let n = move_within_target(src, dst, s.len() as int);
    let r = s.remove(src);
    let moved = r.insert(n, s[src]);
    assert(moved.remove(n) =~= r);
    if dst > s.len() {
        assert(moved =~= r.push(s[src]));
    }
    if dst < s.len() && dst != src && dst != src + 1 {
        if dst > src {
            assert(moved[n + 1] == r[dst - 1]);
        } else {
            assert(moved[n + 1] == r[dst]);
        }
    }
    if 0 < dst <= s.len() && dst != src && dst != src + 1 {
        if dst > src {
            assert(moved[n - 1] == r[dst - 2]);
        } else {
            assert(moved[n - 1] == r[dst - 1]);
        }
    }
}

/// A child added at `idx` (clamped to the end) sits there, right before the
/// child that was at `idx`, with every other child as it was.
pub proof fn lemma_insert_clamped_slot<T>(s: Seq<T>, idx: int, node: T)
    requires
        0 <= idx,
    ensures
        ({
            let at = if idx < s.len() { idx } else { s.len() as int };
            let r = spec_insert_clamped(s, idx, node);
            &&& r.len() == s.len() + 1
            &&& r[at] == node
            &&& r.remove(at) == s
            &&& idx < s.len() ==> r[idx + 1] == s[idx]
            &&& idx >= s.len() ==> r == s.push(node)
        }),
{
    let at = if idx < s.len() { idx } else { s.len() as int };
    let r = spec_insert_clamped(s, idx, node);
    assert(r.remove(at) =~= s);
    if idx >= s.len() {
        assert(r =~= s.push(node));
    }
}

/// `MoveSibling` moves a child by `delta` places, stopping at the first or
/// the last place.
pub proof fn lemma_sibling_target_clamps(last: int, delta: int, len: int)
    requires
        0 <= last < len,
    ensures
        0 <= sibling_target(last, delta, len) < len,
        0 <= last + delta < len ==> sibling_target(last, delta, len) == last + delta,
        last + delta < 0 ==> sibling_target(last, delta, len) == 0,
        last + delta >= len ==> sibling_target(last, delta, len) == len - 1,
{
}

/// Moving a child by some places and then moving it back by as many places
/// from where it landed restores the order of the children.
pub proof fn lemma_move_sibling_back<T>(s: Seq<T>, last: int, delta: int)
    requires
        0 <= last < s.len(),
        sibling_target(last, delta, s.len() as int) != last,
    ensures
        ({
            let n = sibling_target(last, delta, s.len() as int);
            let moved = spec_move(s, last, n);
            &&& sibling_target(n, last - n, s.len() as int) == last
            &&& spec_move(moved, n, last) == s
        }),
{
    let n = sibling_target(last, delta, s.len() as int);
    let moved = spec_move(s, last, n);
    assert(moved[n] == s[last]);
    assert(moved.remove(n) =~= s.remove(last));
    assert(s.remove(last).insert(last, s[last]) =~= s);
}

// ---------------------------------------------------------------------------
// Vertices of one polygon

/// `PolygonVertex { idx, value }`: vertex `idx` becomes `value`; nothing
/// changes when there is no vertex `idx`.
pub open spec fn spec_set_vertex<V>(s: Seq<V>, idx: int, value: V) -> Seq<V> {
    if 0 <= idx < s.len() { s.update(idx, value) } else { s }
}

/// `PolygonAddVertex`: a copy of the last vertex goes at the end, or
/// `origin` when there is none.
pub open spec fn spec_add_vertex<V>(s: Seq<V>, origin: V) -> Seq<V> {
    s.push(if s.len() > 0 { s.last() } else { origin })
}

/// `PolygonInsertVertex { idx, value }`: `value` goes in at `idx`, or at
/// the end when `idx` lies past it.
pub open spec fn spec_insert_vertex<V>(s: Seq<V>, idx: int, value: V) -> Seq<V> {
    spec_insert_clamped(s, idx, value)
}

/// `PolygonRemoveVertex(idx)`: vertex `idx` goes, unless there is none or
/// only a triangle is left.
pub open spec fn spec_remove_vertex<V>(s: Seq<V>, idx: int) -> Seq<V> {
    if 0 <= idx < s.len() && s.len() > 3 { s.remove(idx) } else { s }
}

/// Replace vertex `idx` of a polygon.
pub fn set_vertex<V>(vertices: &mut Vec<V>, idx: usize, value: V)
    ensures
        final(vertices)@ == spec_set_vertex(old(vertices)@, idx as int, value),
{
    if idx < vertices.len() {
        vertices.set(idx, value);
    }
}

/// Append a copy of a polygon's last vertex (`origin` for an empty one).
pub fn add_vertex<V: Copy>(vertices: &mut Vec<V>, origin: V)
    ensures
        final(vertices)@ == spec_add_vertex(old(vertices)@, origin),
{
    let n = vertices.len();
    let last = if n > 0 { vertices[n - 1] } else { origin };
    vertices.push(last);
}

/// Insert a vertex into a polygon. The explicit triangle list, whose
/// indices no longer fit, is dropped: the polygon falls back to ear
/// clipping until new triangles are authored.
pub fn insert_vertex<V>(vertices: &mut Vec<V>, triangles: &mut Option<Vec<u16>>, idx: usize, value: V)
    ensures
        final(vertices)@ == spec_insert_vertex(old(vertices)@, idx as int, value),
        *final(triangles) is None,
{
    insert_clamped(vertices, idx, value);
    *triangles = None;
}

/// Remove a vertex from a polygon that keeps at least a triangle.
pub fn remove_vertex<V>(vertices: &mut Vec<V>, idx: usize)
    ensures
        final(vertices)@ == spec_remove_vertex(old(vertices)@, idx as int),
{
    if idx < vertices.len() && vertices.len() > 3 {
        vertices.remove(idx);
    }
}

/// A polygon with at least three vertices keeps at least three through
/// every vertex edit.
pub proof fn lemma_vertex_edits_keep_a_triangle<V>(s: Seq<V>, idx: int, value: V)
    requires
        s.len() >= 3,
        idx >= 0,
    ensures
        spec_set_vertex(s, idx, value).len() >= 3,
        spec_add_vertex(s, value).len() >= 3,
        spec_insert_vertex(s, idx, value).len() >= 3,
        spec_remove_vertex(s, idx).len() >= 3,
{
}

/// Removing a vertex just inserted gives back the vertices, when the
/// polygon had at least a triangle.
pub proof fn lemma_remove_after_insert_vertex<V>(s: Seq<V>, idx: int, value: V)
    requires
        s.len() >= 3,
        idx >= 0,
    ensures
        ({
            let at = if idx < s.len() { idx } else { s.len() as int };
            spec_remove_vertex(spec_insert_vertex(s, idx, value), at) == s
        }),
{
    let at = if idx < s.len() { idx } else { s.len() as int };
    assert(s.insert(at, value).remove(at) =~= s);
}

} // verus!
