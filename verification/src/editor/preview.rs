//! Integer side of the preview canvas: the perimeter of a part's triangle
//! range, and the 9-way (+ rotate) rect handles.

use vstd::prelude::*;

verus! {

/// The edge `{u, v}` with its endpoints in increasing order.
pub open spec fn norm_edge(u: int, v: int) -> (int, int) {
    if u < v {
        (u, v)
    } else {
        (v, u)
    }
}

/// Triangle `t` (indices `3t .. 3t+3`) belongs to the part: its first
/// vertex lies in `[start, end)`.
pub open spec fn tri_in_range(tris: Seq<u16>, start: int, end: int, t: int) -> bool {
    start <= tris[3 * t] < end
}

/// How many of triangle `t`'s three edges are `e`.
pub open spec fn tri_edge_hits(tris: Seq<u16>, t: int, e: (int, int)) -> nat {
    let a = tris[3 * t] as int;
    let b = tris[3 * t + 1] as int;
    let c = tris[3 * t + 2] as int;
    (if norm_edge(a, b) == e { 1nat } else { 0nat }) + (if norm_edge(b, c) == e { 1nat } else { 0nat })
        + (if norm_edge(c, a) == e { 1nat } else { 0nat })
}

/// Incidence count of `e` over the part's triangles among the first `n`.
pub open spec fn edge_count(tris: Seq<u16>, start: int, end: int, n: nat, e: (int, int)) -> nat
    decreases n,
{
    if n == 0 {
        0
    } else {
        edge_count(tris, start, end, (n - 1) as nat, e) + if tri_in_range(
            tris,
            start,
            end,
            n - 1,
        ) {
            tri_edge_hits(tris, n - 1, e)
        } else {
            0
        }
    }
}

/// An edge as integers.
pub open spec fn ekey(k: (usize, usize)) -> (int, int) {
    (k.0 as int, k.1 as int)
}

/// Total count that the list `m` of `(edge, count)` gives edge `e`.
pub open spec fn cnt(m: Seq<((usize, usize), usize)>, e: (int, int)) -> int
    decreases m.len(),
{
    if m.len() == 0 {
        0
    } else {
        cnt(m.drop_last(), e) + if ekey(m.last().0) == e {
            m.last().1 as int
        } else {
            0
        }
    }
}

/// No edge is listed twice.
pub open spec fn keys_unique(m: Seq<((usize, usize), usize)>) -> bool {
    forall|i: int, j: int| 0 <= i < m.len() && 0 <= j < m.len() && i != j ==> m[i].0 != m[j].0
}

proof fn lemma_cnt_update(m: Seq<((usize, usize), usize)>, i: int, v: usize, e: (int, int))
    requires
        0 <= i < m.len(),
    ensures
        cnt(m.update(i, (m[i].0, v)), e) == cnt(m, e) + if ekey(m[i].0) == e {
            v - m[i].1
        } else {
            0
        },
    decreases m.len(),
{
    let u = m.update(i, (m[i].0, v));
    if i < m.len() - 1 {
        assert(u.drop_last() =~= m.drop_last().update(i, (m[i].0, v)));
        lemma_cnt_update(m.drop_last(), i, v, e);
    } else {
        assert(u.drop_last() =~= m.drop_last());
    }
}

proof fn lemma_cnt_unique(m: Seq<((usize, usize), usize)>, e: (int, int))
    requires
        keys_unique(m),
    ensures
        forall|i: int| 0 <= i < m.len() && ekey(m[i].0) == e ==> cnt(m, e) == m[i].1,
        !(exists|i: int| 0 <= i < m.len() && ekey(m[i].0) == e) ==> cnt(m, e) == 0,
    decreases m.len(),
{
    if m.len() > 0 {
        let p = m.drop_last();
        assert(keys_unique(p)) by {
            assert forall|i: int, j: int| 0 <= i < p.len() && 0 <= j < p.len() && i != j implies p[i].0
                != p[j].0 by {
                assert(p[i] == m[i] && p[j] == m[j]);
            }
        }
        lemma_cnt_unique(p, e);
        if ekey(m.last().0) == e {
            assert forall|i: int| 0 <= i < p.len() implies ekey(p[i].0) != e by {
                assert(p[i] == m[i]);
                assert(m[i].0 != m[m.len() - 1].0);
            }
        }
        assert forall|i: int| 0 <= i < m.len() && ekey(m[i].0) == e implies cnt(m, e) == m[i].1 by {
            if i < p.len() {
                assert(p[i] == m[i]);
            }
        }
        if !(exists|i: int| 0 <= i < m.len() && ekey(m[i].0) == e) {
            assert forall|i: int| 0 <= i < p.len() implies ekey(p[i].0) != e by {
                assert(p[i] == m[i]);
            }
        }
    }
}

/// Bump the count of edge `{u, v}` by one (adding it at 1 if new).
fn bump(m: &mut Vec<((usize, usize), usize)>, u: usize, v: usize)
    requires
        keys_unique(old(m)@),
        old(m)@.len() < usize::MAX,
        forall|i: int| 0 <= i < old(m)@.len() ==> (#[trigger] old(m)@[i]).1 < usize::MAX,
    ensures
        keys_unique(final(m)@),
        final(m)@.len() <= old(m)@.len() + 1,
        forall|e: (int, int)| #[trigger] cnt(final(m)@, e) == cnt(old(m)@, e) + if e == norm_edge(
            u as int,
            v as int,
        ) {
            1int
        } else {
            0
        },
        forall|i: int| 0 <= i < final(m)@.len() ==> (#[trigger] final(m)@[i]).1 <= (if i < old(
            m,
        )@.len() {
            old(m)@[i].1 + 1
        } else {
            1
        }),
        forall|i: int| 0 <= i < final(m)@.len() ==> (#[trigger] final(m)@[i]).0 == (if i < old(
            m,
        )@.len() {
            old(m)@[i].0
        } else if u < v {
            (u, v)
        } else {
            (v, u)
        }),
{
    let key = if u < v {
        (u, v)
    } else {
        (v, u)
    };
    let mut i: usize = 0;
    while i < m.len()
        invariant
            i <= m@.len(),
            m@ == old(m)@,
            keys_unique(old(m)@),
            old(m)@.len() < usize::MAX,
            forall|j: int| 0 <= j < old(m)@.len() ==> (#[trigger] old(m)@[j]).1 < usize::MAX,
            key == (if u < v { (u, v) } else { (v, u) }),
            forall|j: int| 0 <= j < i ==> (#[trigger] m@[j]).0 != key,
        decreases m@.len() - i,
    {
        let cur = m[i].0;
        if cur.0 == key.0 && cur.1 == key.1 {
            assert(old(m)@[i as int].0 == key);
            assert(ekey(key) == norm_edge(u as int, v as int));
            let c = m[i].1;
            m.set(i, (key, c + 1));
            proof {
                assert(m@ == old(m)@.update(i as int, (old(m)@[i as int].0, (c + 1) as usize)));
                assert forall|e: (int, int)| #[trigger] cnt(m@, e) == cnt(old(m)@, e) + if e
                    == norm_edge(u as int, v as int) {
                    1int
                } else {
                    0
                } by {
                    lemma_cnt_update(old(m)@, i as int, (c + 1) as usize, e);
                }
                assert(keys_unique(m@)) by {
                    assert forall|a: int, b: int| 0 <= a < m@.len() && 0 <= b < m@.len() && a != b implies m@[a].0
                        != m@[b].0 by {
                        assert(m@[a].0 == old(m)@[a].0 && m@[b].0 == old(m)@[b].0);
                    }
                }
            }
            return;
        }
        i = i + 1;
    }
    m.push((key, 1));
    proof {
        assert(m@.drop_last() =~= old(m)@);
        assert(keys_unique(m@)) by {
            assert forall|a: int, b: int| 0 <= a < m@.len() && 0 <= b < m@.len() && a != b implies m@[a].0
                != m@[b].0 by {
                if a < old(m)@.len() && b < old(m)@.len() {
                    assert(m@[a] == old(m)@[a] && m@[b] == old(m)@[b]);
                } else if a < old(m)@.len() {
                    assert(m@[a] == old(m)@[a]);
                } else {
                    assert(m@[b] == old(m)@[b]);
                }
            }
        }
    }
}

/// Boundary edges of the part's triangles: edges with an odd incidence
/// count (for a clean 2D mesh, the perimeter: edges of exactly one
/// triangle; an edge shared by two triangles cancels out). A triangle belongs to the part when its first index
/// lies in `range`; a trailing partial triangle is ignored. Each edge is
/// reported once, low index first; the order of the edges is unspecified.
pub fn boundary_edges(tris: &[u16], range: (usize, usize)) -> (r: Vec<(usize, usize)>)
    ensures
        forall|i: int, j: int| 0 <= i < r@.len() && 0 <= j < r@.len() && i != j ==> r@[i] != r@[j],
        forall|i: int| 0 <= i < r@.len() ==> (#[trigger] r@[i]).0 <= r@[i].1,
        forall|e: (usize, usize)| e.0 <= e.1 ==> (r@.contains(e) <==> edge_count(
            tris@,
            range.0 as int,
            range.1 as int,
            (tris@.len() / 3) as nat,
            (e.0 as int, e.1 as int),
        ) % 2 == 1),
{
    let (start, end) = range;
    let n = tris.len() / 3;
    let mut counts: Vec<((usize, usize), usize)> = Vec::new();
    let mut t: usize = 0;
    while t < n
        invariant
            n == tris@.len() / 3,
            n == tris.len() / 3,
            t <= n,
            counts@.len() <= 3 * t,
            keys_unique(counts@),
            forall|i: int| 0 <= i < counts@.len() ==> (#[trigger] counts@[i]).1 <= 3 * t,
            forall|i: int| 0 <= i < counts@.len() ==> (#[trigger] counts@[i]).0.0 <= counts@[i].0.1,
            forall|e: (int, int)| #[trigger] cnt(counts@, e) == edge_count(
                tris@,
                start as int,
                end as int,
                t as nat,
                e,
            ),
        decreases n - t,
    {
        assert(3 * t + 2 < tris.len()) by (nonlinear_arith)
            requires
                t < n,
                n == tris.len() / 3,
        ;
        let a = tris[3 * t] as usize;
        let ghost m0 = counts@;
        if a >= start && a < end {
            let b = tris[3 * t + 1] as usize;
            let c = tris[3 * t + 2] as usize;
            bump(&mut counts, a, b);
            let ghost m1 = counts@;
            bump(&mut counts, b, c);
            let ghost m2 = counts@;
            bump(&mut counts, c, a);
            proof {
                assert forall|e: (int, int)| #[trigger] cnt(counts@, e) == edge_count(
                    tris@,
                    start as int,
                    end as int,
                    (t + 1) as nat,
                    e,
                ) by {
                    assert(cnt(m1, e) == cnt(m0, e) + if e == norm_edge(a as int, b as int) {
                        1int
                    } else {
                        0
                    });
                    assert(cnt(m2, e) == cnt(m1, e) + if e == norm_edge(b as int, c as int) {
                        1int
                    } else {
                        0
                    });
                    assert(cnt(counts@, e) == cnt(m2, e) + if e == norm_edge(c as int, a as int) {
                        1int
                    } else {
                        0
                    });
                    assert(tri_in_range(tris@, start as int, end as int, t as int));
                }
                assert forall|i: int| 0 <= i < counts@.len() implies (#[trigger] counts@[i]).1 <= 3 * (t
                    + 1) by {
                    if i < m1.len() {
                        assert(m1[i].1 <= 3 * t + 1);
                    }
                    if i < m2.len() {
                        assert(m2[i].1 <= 3 * t + 2);
                    }
                }
                assert forall|i: int| 0 <= i < counts@.len() implies (#[trigger] counts@[i]).0.0
                    <= counts@[i].0.1 by {
                    if i < m1.len() {
                        assert(m1[i].0.0 <= m1[i].0.1);
                    }
                    if i < m2.len() {
                        assert(m2[i].0.0 <= m2[i].0.1);
                    }
                }
            }
        } else {
            proof {
                assert forall|e: (int, int)| #[trigger] cnt(counts@, e) == edge_count(
                    tris@,
                    start as int,
                    end as int,
                    (t + 1) as nat,
                    e,
                ) by {
                    assert(!tri_in_range(tris@, start as int, end as int, t as int));
                }
            }
        }
        t = t + 1;
    }
    let mut out: Vec<(usize, usize)> = Vec::new();
    let mut i: usize = 0;
    while i < counts.len()
        invariant
            i <= counts@.len(),
            keys_unique(counts@),
            forall|k: int| 0 <= k < counts@.len() ==> (#[trigger] counts@[k]).0.0 <= counts@[k].0.1,
            forall|k: int| 0 <= k < out@.len() ==> (#[trigger] out@[k]).0 <= out@[k].1,
            forall|e: (usize, usize)| out@.contains(e) <==> exists|k: int| 0 <= k < i && (#[trigger] counts@[k]).0
                == e && counts@[k].1 % 2 == 1,
            forall|k: int, j: int| 0 <= k < out@.len() && 0 <= j < out@.len() && k != j ==> out@[k] != out@[j],
        decreases counts@.len() - i,
    {
        if counts[i].1 % 2 == 1 {
            let e = counts[i].0;
            proof {
                if out@.contains(e) {
                    let k = choose|k: int| 0 <= k < i && (#[trigger] counts@[k]).0 == e && counts@[k].1 % 2 == 1;
                    assert(counts@[k].0 == counts@[i as int].0);
                }
            }
            let ghost before = out@;
            out.push(e);
            proof {
                assert forall|x: (usize, usize)| out@.contains(x) <==> exists|k: int| 0 <= k < i + 1 && (#[trigger] counts@[k]).0
                    == x && counts@[k].1 % 2 == 1 by {
                    if out@.contains(x) && x != e {
                        let j = choose|j: int| 0 <= j < out@.len() && out@[j] == x;
                        assert(before[j] == x);
                        assert(before.contains(x));
                    }
                    if exists|k: int| 0 <= k < i && (#[trigger] counts@[k]).0 == x && counts@[k].1 % 2 == 1 {
                        assert(before.contains(x));
                        let j = choose|j: int| 0 <= j < before.len() && before[j] == x;
                        assert(out@[j] == x);
                    }
                    if x == e {
                        assert(out@[before.len() as int] == x);
                    }
                }
                assert forall|k: int, j: int| 0 <= k < out@.len() && 0 <= j < out@.len() && k != j implies out@[k]
                    != out@[j] by {
                    if k < before.len() && j < before.len() {
                    } else if k < before.len() {
                        assert(before.contains(out@[k]));
                    } else {
                        assert(before.contains(out@[j]));
                    }
                }
            }
        }
        i = i + 1;
    }
    proof {
        assert forall|e: (usize, usize)| e.0 <= e.1 implies (out@.contains(e) <==> edge_count(
            tris@,
            range.0 as int,
            range.1 as int,
            (tris@.len() / 3) as nat,
            (e.0 as int, e.1 as int),
        ) % 2 == 1) by {
            lemma_cnt_unique(counts@, (e.0 as int, e.1 as int));
            if exists|k: int| 0 <= k < counts@.len() && ekey(counts@[k].0) == (e.0 as int, e.1 as int) {
                let k = choose|k: int| 0 <= k < counts@.len() && ekey(counts@[k].0) == (e.0 as int, e.1 as int);
                assert(counts@[k].0 == e);
                if out@.contains(e) {
                    let k2 = choose|k2: int| 0 <= k2 < counts@.len() && (#[trigger] counts@[k2]).0 == e && counts@[k2].1 % 2 == 1;
                    assert(ekey(counts@[k2].0) == (e.0 as int, e.1 as int));
                }
            } else {
                if out@.contains(e) {
                    let k2 = choose|k2: int| 0 <= k2 < counts@.len() && (#[trigger] counts@[k2]).0 == e && counts@[k2].1 % 2 == 1;
                    assert(ekey(counts@[k2].0) == (e.0 as int, e.1 as int));
                }
            }
        }
    }
    out
}

/// The 9-way rect handles plus the rotation handle above the top centre.
#[derive(Debug, Clone, Copy, PartialEq, Eq, Structural)]
pub enum SizeHandle {
    Nw,
    N,
    Ne,
    W,
    Mid,
    E,
    Sw,
    S,
    Se,
    /// Dragging rotates the leaf about its pivot.
    Rotate,
}

/// Handle `i` in row-major order (NW, N, NE, W, MID, E, SW, S, SE), then
/// the rotation handle at 9.
pub open spec fn spec_handle(i: int) -> SizeHandle {
    if i == 0 {
        SizeHandle::Nw
    } else if i == 1 {
        SizeHandle::N
    } else if i == 2 {
        SizeHandle::Ne
    } else if i == 3 {
        SizeHandle::W
    } else if i == 4 {
        SizeHandle::Mid
    } else if i == 5 {
        SizeHandle::E
    } else if i == 6 {
        SizeHandle::Sw
    } else if i == 7 {
        SizeHandle::S
    } else if i == 8 {
        SizeHandle::Se
    } else {
        SizeHandle::Rotate
    }
}

/// `(left, top, right, bottom)`: the edges that a handle drags.
pub open spec fn spec_edge_mask(h: SizeHandle) -> (bool, bool, bool, bool) {
    match h {
        SizeHandle::Nw => (true, true, false, false),
        SizeHandle::N => (false, true, false, false),
        SizeHandle::Ne => (false, true, true, false),
        SizeHandle::W => (true, false, false, false),
        SizeHandle::Mid => (false, false, false, false),
        SizeHandle::E => (false, false, true, false),
        SizeHandle::Sw => (true, false, false, true),
        SizeHandle::S => (false, false, false, true),
        SizeHandle::Se => (false, false, true, true),
        SizeHandle::Rotate => (false, false, false, false),
    }
}

impl SizeHandle {
    /// The handle at index `i` (`i < 10`).
    pub fn from_idx(i: usize) -> (h: SizeHandle)
        requires
            i < 10,
        ensures
            h == spec_handle(i as int),
    {
        if i == 0 {
            SizeHandle::Nw
        } else if i == 1 {
            SizeHandle::N
        } else if i == 2 {
            SizeHandle::Ne
        } else if i == 3 {
            SizeHandle::W
        } else if i == 4 {
            SizeHandle::Mid
        } else if i == 5 {
            SizeHandle::E
        } else if i == 6 {
            SizeHandle::Sw
        } else if i == 7 {
            SizeHandle::S
        } else if i == 8 {
            SizeHandle::Se
        } else {
            SizeHandle::Rotate
        }
    }

    /// `(left, top, right, bottom)` edge mask: which edges this handle
    /// drags. `Mid` and `Rotate` drag none.
    pub fn edge_mask(self) -> (r: (bool, bool, bool, bool))
        ensures
            r == spec_edge_mask(self),
    {
        match self {
            SizeHandle::Nw => (true, true, false, false),
            SizeHandle::N => (false, true, false, false),
            SizeHandle::Ne => (false, true, true, false),
            SizeHandle::W => (true, false, false, false),
            SizeHandle::Mid => (false, false, false, false),
            SizeHandle::E => (false, false, true, false),
            SizeHandle::Sw => (true, false, false, true),
            SizeHandle::S => (false, false, false, true),
            SizeHandle::Se => (false, false, true, true),
            SizeHandle::Rotate => (false, false, false, false),
        }
    }
}

/// Corner handles drag two edges, side handles one, the centre and the
/// rotation handle none; opposite handles drag opposite edges.
pub proof fn lemma_edge_mask_shape(i: int)
    requires
        0 <= i < 10,
    ensures
        ({
            let m = spec_edge_mask(spec_handle(i));
            let n = (if m.0 { 1int } else { 0 }) + (if m.1 { 1int } else { 0 }) + (if m.2 { 1int } else { 0 })
                + (if m.3 { 1int } else { 0 });
            &&& (i == 0 || i == 2 || i == 6 || i == 8) ==> n == 2
            &&& (i == 1 || i == 3 || i == 5 || i == 7) ==> n == 1
            &&& (i == 4 || i == 9) ==> n == 0
            &&& !(m.0 && m.2)
            &&& !(m.1 && m.3)
        }),
        i < 9 ==> ({
            let m = spec_edge_mask(spec_handle(i));
            let o = spec_edge_mask(spec_handle(8 - i));
            m.0 == o.2 && m.1 == o.3 && m.2 == o.0 && m.3 == o.1
        }),
{
}

} // verus!
