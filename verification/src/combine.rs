//! The integer side of building fabricated combined sprites: source-rect /
//! border constraints of the slice methods, and the index buffers of the
//! grid, strap and no-centre-fill layouts.

use vstd::prelude::*;
use crate::fab::Method;
use crate::text::{chars_of, string_of};

verus! {

broadcast use vstd::string::group_string_axioms;

/// Atlas texture dimensions (pixels).
#[derive(Debug, Clone, Copy, PartialEq, Eq, Structural)]
pub struct AtlasSize {
    pub width: u32,
    pub height: u32,
}

/// A sprite's rect on the atlas, in pixels.
#[derive(Debug, Clone, Copy, PartialEq, Eq, Structural)]
pub struct Rect {
    pub x: u32,
    pub y: u32,
    pub w: u32,
    pub h: u32,
}

/// A sprite's 9-slice border, in pixels.
#[derive(Debug, Clone, Copy, PartialEq, Eq, Structural)]
pub struct Border {
    pub left: i32,
    pub bottom: i32,
    pub right: i32,
    pub top: i32,
}

/// Errors of the combine pass: a part naming a sprite the sheet lacks, or a
/// slice method whose source border does not have the layout it expects.
#[derive(Debug)]
pub enum CombineError {
    SpriteNotFound { combined: String, sprite: String },
    SliceConstraint { combined: String, sprite: String, method: Method, reason: &'static str },
}

/// `x as u32` for an `i32`.
pub open spec fn as_u32(x: i32) -> int {
    if x >= 0 {
        x as int
    } else {
        x + 0x1_0000_0000
    }
}

/// `x as i32` for a `u32`.
pub open spec fn as_i32(x: u32) -> int {
    if x < 0x8000_0000 {
        x as int
    } else {
        x - 0x1_0000_0000
    }
}

/// The border sums that some methods compute fit in `i32`.
pub open spec fn constraint_sums_fit(method: Method, b: Border) -> bool {
    &&& (method == Method::R1c3 || method == Method::MyR2c3) ==> i32::MIN <= b.left + b.right
        <= i32::MAX
    &&& method == Method::MxR3c2 ==> i32::MIN <= b.bottom + b.top <= i32::MAX
}

/// The first source-rect / border requirement of `method` that the sprite
/// breaks, as its message; `None` when all hold. ID, MX/MY/MXY, TX and TY
/// have none.
pub open spec fn spec_constraint_violation(method: Method, r: Rect, b: Border) -> Option<Seq<char>> {
    match method {
        Method::TxMc3 => if b.left != 0 {
            Some("left border must be 0 (TX_MC3 expects mirrored edges)"@)
        } else if b.right <= 0 {
            Some("right border must be > 0 (TX_MC3 needs edge width)"@)
        } else {
            None
        },
        Method::R1c3 => if b.left + b.right != as_i32(r.w) {
            Some("R1C3 requires border.left + border.right == sprite.rect.width"@)
        } else {
            None
        },
        Method::MxR1c4 => if b.left != 0 || b.bottom != 0 || b.top != 0 {
            Some("MX_R1C4 requires border.{left, bottom, top} == 0"@)
        } else if b.right <= 0 {
            Some("MX_R1C4 requires border.right > 0"@)
        } else {
            None
        },
        Method::MxR3c2 => if b.left != 0 || as_u32(b.right) != r.w {
            Some("MX_R3C2 requires border.left == 0 AND border.right == sprite.rect.width"@)
        } else if b.bottom + b.top != as_i32(r.h) {
            Some("MX_R3C2 requires border.bottom + border.top == sprite.rect.height"@)
        } else {
            None
        },
        Method::MxR3c4 => if b.left != 0 || b.right <= 0 {
            Some("MX_R3C4 requires border.left == 0 AND border.right > 0"@)
        } else {
            None
        },
        Method::MxR3c6 => if b.right <= 0 {
            Some("MX_R3C6 requires border.right > 0"@)
        } else {
            None
        },
        Method::MxR1c3 | Method::MxR3c3 => if b.left != 0 {
            Some("MX_R1C3 / MX_R3C3 require border.left == 0"@)
        } else if as_u32(b.right) != r.w {
            Some("MX_R1C3 / MX_R3C3 require border.right == sprite.rect.width"@)
        } else {
            None
        },
        Method::MyR3c3 => if b.bottom != 0 {
            Some("MY_R3C3 requires border.bottom == 0"@)
        } else if as_u32(b.top) != r.h {
            Some("MY_R3C3 requires border.top == sprite.rect.height"@)
        } else {
            None
        },
        Method::MyR3c1 => if b.left != 0 || b.right != 0 {
            Some("MY_R3C1 requires border.left == 0 AND border.right == 0"@)
        } else if b.bottom != 0 || as_u32(b.top) != r.h {
            Some("MY_R3C1 requires border.bottom == 0 AND border.top == sprite.rect.height"@)
        } else {
            None
        },
        Method::MyR3c2 | Method::MyR2c2 => if b.left != 0 || as_u32(b.right) != r.w {
            Some("requires border.left == 0 AND border.right == sprite.rect.width"@)
        } else if b.bottom != 0 || as_u32(b.top) != r.h {
            Some("requires border.bottom == 0 AND border.top == sprite.rect.height"@)
        } else {
            None
        },
        Method::MyR2c3 => if b.left + b.right != as_i32(r.w) {
            Some("MY_R2C3 requires border.left + border.right == sprite.rect.width"@)
        } else if b.bottom != 0 || as_u32(b.top) != r.h {
            Some("MY_R2C3 requires border.bottom == 0 AND border.top == sprite.rect.height"@)
        } else {
            None
        },
        Method::MxyR3c3 | Method::MxyR3c3Nf => if b.left != 0 {
            Some("MXY_R3C3 / MXY_R3C3_NF require border.left == 0"@)
        } else if b.right <= 0 {
            Some("MXY_R3C3 / MXY_R3C3_NF require border.right > 0"@)
        } else if b.bottom != 0 {
            Some("MXY_R3C3 / MXY_R3C3_NF require border.bottom == 0"@)
        } else if b.top <= 0 {
            Some("MXY_R3C3 / MXY_R3C3_NF require border.top > 0"@)
        } else {
            None
        },
        _ => None,
    }
}

fn u32_of(x: i32) -> (r: i64)
    ensures
        r == as_u32(x),
{
    if x >= 0 {
        x as i64
    } else {
        x as i64 + 0x1_0000_0000i64
    }
}

fn i32_of(x: u32) -> (r: i64)
    ensures
        r == as_i32(x),
{
    if x < 0x8000_0000 {
        x as i64
    } else {
        x as i64 - 0x1_0000_0000i64
    }
}

/// Check the source-rect / border layout that `method` expects of the
/// sprite (`rect`, `border`) used by part `sprite` of combined entry
/// `combined`.
pub fn check_method_constraints(
    method: Method,
    rect: Rect,
    border: Border,
    combined: &str,
    sprite: &str,
) -> (res: Result<(), CombineError>)
    requires
        constraint_sums_fit(method, border),
    ensures
        match spec_constraint_violation(method, rect, border) {
            None => res is Ok,
            Some(msg) => res matches Err(CombineError::SliceConstraint { combined: c, sprite: s, method: m, reason })
                && c@ == combined@ && s@ == sprite@ && m == method && reason@ == msg,
        },
{
    let b = border;
    let reason: Option<&'static str> = match method {
        Method::TxMc3 => if b.left != 0 {
            Some("left border must be 0 (TX_MC3 expects mirrored edges)")
        } else if b.right <= 0 {
            Some("right border must be > 0 (TX_MC3 needs edge width)")
        } else {
            None
        },
        Method::R1c3 => if b.left as i64 + b.right as i64 != i32_of(rect.w) {
            Some("R1C3 requires border.left + border.right == sprite.rect.width")
        } else {
            None
        },
        Method::MxR1c4 => if b.left != 0 || b.bottom != 0 || b.top != 0 {
            Some("MX_R1C4 requires border.{left, bottom, top} == 0")
        } else if b.right <= 0 {
            Some("MX_R1C4 requires border.right > 0")
        } else {
            None
        },
        Method::MxR3c2 => if b.left != 0 || u32_of(b.right) != rect.w as i64 {
            Some("MX_R3C2 requires border.left == 0 AND border.right == sprite.rect.width")
        } else if b.bottom as i64 + b.top as i64 != i32_of(rect.h) {
            Some("MX_R3C2 requires border.bottom + border.top == sprite.rect.height")
        } else {
            None
        },
        Method::MxR3c4 => if b.left != 0 || b.right <= 0 {
            Some("MX_R3C4 requires border.left == 0 AND border.right > 0")
        } else {
            None
        },
        Method::MxR3c6 => if b.right <= 0 {
            Some("MX_R3C6 requires border.right > 0")
        } else {
            None
        },
        Method::MxR1c3 | Method::MxR3c3 => if b.left != 0 {
            Some("MX_R1C3 / MX_R3C3 require border.left == 0")
        } else if u32_of(b.right) != rect.w as i64 {
            Some("MX_R1C3 / MX_R3C3 require border.right == sprite.rect.width")
        } else {
            None
        },
        Method::MyR3c3 => if b.bottom != 0 {
            Some("MY_R3C3 requires border.bottom == 0")
        } else if u32_of(b.top) != rect.h as i64 {
            Some("MY_R3C3 requires border.top == sprite.rect.height")
        } else {
            None
        },
        Method::MyR3c1 => if b.left != 0 || b.right != 0 {
            Some("MY_R3C1 requires border.left == 0 AND border.right == 0")
        } else if b.bottom != 0 || u32_of(b.top) != rect.h as i64 {
            Some("MY_R3C1 requires border.bottom == 0 AND border.top == sprite.rect.height")
        } else {
            None
        },
        Method::MyR3c2 | Method::MyR2c2 => if b.left != 0 || u32_of(b.right) != rect.w as i64 {
            Some("requires border.left == 0 AND border.right == sprite.rect.width")
        } else if b.bottom != 0 || u32_of(b.top) != rect.h as i64 {
            Some("requires border.bottom == 0 AND border.top == sprite.rect.height")
        } else {
            None
        },
        Method::MyR2c3 => if b.left as i64 + b.right as i64 != i32_of(rect.w) {
            Some("MY_R2C3 requires border.left + border.right == sprite.rect.width")
        } else if b.bottom != 0 || u32_of(b.top) != rect.h as i64 {
            Some("MY_R2C3 requires border.bottom == 0 AND border.top == sprite.rect.height")
        } else {
            None
        },
        Method::MxyR3c3 | Method::MxyR3c3Nf => if b.left != 0 {
            Some("MXY_R3C3 / MXY_R3C3_NF require border.left == 0")
        } else if b.right <= 0 {
            Some("MXY_R3C3 / MXY_R3C3_NF require border.right > 0")
        } else if b.bottom != 0 {
            Some("MXY_R3C3 / MXY_R3C3_NF require border.bottom == 0")
        } else if b.top <= 0 {
            Some("MXY_R3C3 / MXY_R3C3_NF require border.top > 0")
        } else {
            None
        },
        _ => None,
    };
    match reason {
        None => Ok(()),
        Some(reason) => Err(CombineError::SliceConstraint {
            combined: string_of(chars_of(combined).as_slice()),
            sprite: string_of(chars_of(sprite).as_slice()),
            method,
            reason,
        }),
    }
}

// ---------------------------------------------------------------------------
// Index buffers

/// A quad `(a, b, c, d)` as two triangles `a b d`, `a d c`.
pub open spec fn quad(a: int, b: int, c: int, d: int) -> Seq<int> {
    seq![a, b, d, a, d, c]
}

/// Indices as integers.
pub open spec fn ints(v: Seq<u16>) -> Seq<int> {
    v.map_values(|x: u16| x as int)
}

/// Append the two triangles of quad `(a, b, c, d)`.
pub fn push_quad(tris: &mut Vec<u16>, a: u16, b: u16, c: u16, d: u16)
    ensures
        final(tris)@ == old(tris)@ + seq![a, b, d, a, d, c],
{
    tris.push(a);
    tris.push(b);
    tris.push(d);
    tris.push(a);
    tris.push(d);
    tris.push(c);
    proof {
        assert(tris@ =~= old(tris)@ + seq![a, b, d, a, d, c]);
    }
}

/// Quad `k` of the strap layout over `n` columns per side: the forward
/// strap (`k < n`), the centre seam (`k == n`), the backward strap.
pub open spec fn strap_quad(n: int, k: int) -> Seq<int> {
    let o = 2 * n + 2;
    if k < n {
        quad(2 * k, 2 * k + 1, 2 * k + 2, 2 * k + 3)
    } else if k == n {
        quad(o, o + 1, 0, 1)
    } else {
        let i = k - n;
        quad(o + 2 * i, o + 2 * i + 1, o + 2 * i - 2, o + 2 * i - 1)
    }
}

/// Number of quads in the strap layout: `n` forward, the seam, `n - 1`
/// backward; the seam alone when there are no columns.
pub open spec fn strap_quads(n: int) -> int {
    if n == 0 {
        1
    } else {
        2 * n
    }
}

/// The strap index buffer: quad `k` at indices `6k .. 6k+6`.
pub open spec fn is_strap(n: int, v: Seq<int>) -> bool {
    &&& v.len() == 6 * strap_quads(n)
    &&& forall|k: int| 0 <= k < strap_quads(n) ==> #[trigger] v.subrange(6 * k, 6 * k + 6) == strap_quad(n, k)
}

/// Strap indices (forward strap, centre join, backward strap) for a tiler
/// with `cols_half` columns on each side of the centre.
pub fn build_strap_indices(cols_half: usize) -> (tris: Vec<u16>)
    requires
        cols_half <= 16383,
    ensures
        is_strap(cols_half as int, ints(tris@)),
{
    let n = cols_half;
    let mut tris: Vec<u16> = Vec::with_capacity(cols_half * 2 * 6);
    let mut i: usize = 0;
    while i < n
        invariant
            n == cols_half,
            n <= 16383,
            i <= n,
            tris@.len() == 6 * i,
            forall|k: int| 0 <= k < i ==> #[trigger] ints(tris@).subrange(6 * k, 6 * k + 6) == strap_quad(
                n as int,
                k,
            ),
        decreases n - i,
    {
        let a = (i * 2) as u16;
        let b = a + 1;
        let c = a + 2;
        let d = a + 3;
        let ghost old_t = tris@;
        push_quad(&mut tris, a, b, c, d);
        proof {
            assert forall|k: int| 0 <= k < i + 1 implies #[trigger] ints(tris@).subrange(
                6 * k,
                6 * k + 6,
            ) == strap_quad(n as int, k) by {
                if k < i {
                    assert(ints(tris@).subrange(6 * k, 6 * k + 6) =~= ints(old_t).subrange(6 * k, 6 * k + 6));
                } else {
                    assert(ints(tris@).subrange(6 * k, 6 * k + 6) =~= strap_quad(n as int, k));
                }
            }
        }
        i = i + 1;
    }
    let offset = (cols_half * 2 + 2) as u16;
    let ghost old_t = tris@;
    push_quad(&mut tris, offset, offset + 1, 0, 1);
    proof {
        assert forall|k: int| 0 <= k < n + 1 implies #[trigger] ints(tris@).subrange(6 * k, 6 * k + 6)
            == strap_quad(n as int, k) by {
            if k < n {
                assert(ints(tris@).subrange(6 * k, 6 * k + 6) =~= ints(old_t).subrange(6 * k, 6 * k + 6));
            } else {
                assert(ints(tris@).subrange(6 * k, 6 * k + 6) =~= strap_quad(n as int, k));
            }
        }
    }
    if n == 0 {
        return tris;
    }
    let mut i: usize = 1;
    while i < n
        invariant
            n == cols_half,
            1 <= n <= 16383,
            1 <= i <= n,
            offset == 2 * n + 2,
            tris@.len() == 6 * (n + i),
            forall|k: int| 0 <= k < n + i ==> #[trigger] ints(tris@).subrange(6 * k, 6 * k + 6)
                == strap_quad(n as int, k),
        decreases n - i,
    {
        let a = offset + (i * 2) as u16;
        let b = a + 1;
        let c = a - 2;
        let d = a - 1;
        let ghost old_t = tris@;
        push_quad(&mut tris, a, b, c, d);
        proof {
            assert forall|k: int| 0 <= k < n + i + 1 implies #[trigger] ints(tris@).subrange(
                6 * k,
                6 * k + 6,
            ) == strap_quad(n as int, k) by {
                if k < n + i {
                    assert(ints(tris@).subrange(6 * k, 6 * k + 6) =~= ints(old_t).subrange(6 * k, 6 * k + 6));
                } else {
                    assert(ints(tris@).subrange(6 * k, 6 * k + 6) =~= strap_quad(n as int, k));
                }
            }
        }
        i = i + 1;
    }
    tris
}

/// Quad `q` (row-major) of a `rows × cols` grid: vertex `vl` at row `r`,
/// column `x`, and `vu` one row up, emitted clockwise.
pub open spec fn grid_quad(cols: int, q: int) -> Seq<int> {
    let r = q / cols;
    let x = q % cols;
    let vl = r * (cols + 1) + x;
    let vu = vl + cols + 1;
    seq![vl, vu, vu + 1, vu + 1, vl + 1, vl]
}

/// The grid index buffer: quad `q` at indices `6q .. 6q+6`.
pub open spec fn is_grid(rows: int, cols: int, v: Seq<int>) -> bool {
    &&& v.len() == 6 * (rows * cols)
    &&& forall|q: int| 0 <= q < rows * cols ==> #[trigger] v.subrange(6 * q, 6 * q + 6) == grid_quad(cols, q)
}

proof fn lemma_grid_row_col(cols: int, r: int, x: int)
    requires
        cols > 0,
        r >= 0,
        0 <= x < cols,
    ensures
        (r * cols + x) / cols == r,
        (r * cols + x) % cols == x,
{
    vstd::arithmetic::div_mod::lemma_fundamental_div_mod_converse(r * cols + x, cols, r, x);
}

/// Index buffer of a `rows × cols` quad grid, clockwise per quad (upper-left
/// triangle, then lower-right).
pub fn create_grid_indices(rows: usize, cols: usize) -> (out: Vec<u16>)
    requires
        rows == 0 || (rows + 1) * (cols + 1) <= 65536,
    ensures
        is_grid(rows as int, cols as int, ints(out@)),
{
    if rows == 0 || cols == 0 {
        let out: Vec<u16> = Vec::new();
        proof {
            assert(rows * cols == 0) by (nonlinear_arith)
                requires
                    rows == 0 || cols == 0,
            ;
        }
        return out;
    }
    proof {
        assert(rows * cols <= (rows + 1) * (cols + 1)) by (nonlinear_arith)
            requires
                rows >= 1,
                cols >= 1,
        ;
    }
    proof {
        assert(cols + 1 <= (rows + 1) * (cols + 1)) by (nonlinear_arith)
            requires
                rows >= 1,
        ;
        assert(6 * rows * cols == 6 * (rows * cols)) by (nonlinear_arith);
    }
    let c16: u16 = cols as u16;
    let mut out: Vec<u16> = Vec::with_capacity(rows * cols * 6);
    let mut vr: u16 = 0;
    let mut r: usize = 0;
    while r < rows
        invariant
            1 <= rows,
            1 <= cols,
            (rows + 1) * (cols + 1) <= 65536,
            r <= rows,
            vr as int == r * (cols + 1),
            c16 as int == cols,
            out@.len() == 6 * (r * cols),
            forall|q: int| 0 <= q < r * cols ==> #[trigger] ints(out@).subrange(6 * q, 6 * q + 6)
                == grid_quad(cols as int, q),
        decreases rows - r,
    {
        proof {
            assert((r + 1) * (cols + 1) <= (rows + 1) * (cols + 1)) by (nonlinear_arith)
                requires
                    r < rows,
            ;
            assert((r + 1) * (cols + 1) == r * (cols + 1) + cols + 1) by (nonlinear_arith);
            assert((r + 2) * (cols + 1) <= (rows + 1) * (cols + 1)) by (nonlinear_arith)
                requires
                    r + 1 <= rows,
            ;
            assert((r + 2) * (cols + 1) == r * (cols + 1) + 2 * cols + 2) by (nonlinear_arith);
        }
        let mut x: u16 = 0;
        while (x as usize) < cols
            invariant
                1 <= cols,
                r < rows,
                (r + 1) * (cols + 1) <= 65536,
                (r + 1) * (cols + 1) == r * (cols + 1) + cols + 1,
                r * (cols + 1) + 2 * cols + 2 <= 65536,
                vr as int == r * (cols + 1),
                c16 as int == cols,
                x as int <= cols,
                out@.len() == 6 * (r * cols + x),
                forall|q: int| 0 <= q < r * cols + x ==> #[trigger] ints(out@).subrange(6 * q, 6 * q + 6)
                    == grid_quad(cols as int, q),
            decreases cols - x,
        {
            let vl = vr + x;
            let vu = vl + c16 + 1;
            let ghost old_o = out@;
            out.push(vl);
            out.push(vu);
            out.push(vu + 1);
            out.push(vu + 1);
            out.push(vl + 1);
            out.push(vl);
            proof {
                let q0 = r * cols + x;
                lemma_grid_row_col(cols as int, r as int, x as int);
                assert forall|q: int| 0 <= q < q0 + 1 implies #[trigger] ints(out@).subrange(
                    6 * q,
                    6 * q + 6,
                ) == grid_quad(cols as int, q) by {
                    if q < q0 {
                        assert(ints(out@).subrange(6 * q, 6 * q + 6) =~= ints(old_o).subrange(6 * q, 6 * q + 6));
                    } else {
                        assert(ints(out@).subrange(6 * q, 6 * q + 6) =~= grid_quad(cols as int, q));
                    }
                }
            }
            x = x + 1;
        }
        vr = vr + c16 + 1;
        proof {
            assert((r + 1) * cols == r * cols + cols) by (nonlinear_arith);
        }
        r = r + 1;
    }
    out
}

/// R3C3_NF: the R3C3 grid minus the centre quad (verts 5, 6, 9, 10).
pub fn r3c3_nf_indices() -> (v: Vec<u16>)
    ensures
        v@ == seq![
            0u16, 4, 5, 5, 1, 0,
            1, 5, 6, 6, 2, 1,
            2, 6, 7, 7, 3, 2,
            4, 8, 9, 9, 5, 4,
            6, 10, 11, 11, 7, 6,
            8, 12, 13, 13, 9, 8,
            9, 13, 14, 14, 10, 9,
            10, 14, 15, 15, 11, 10,
        ],
{
    let v: Vec<u16> = vec![
        0, 4, 5, 5, 1, 0,
        1, 5, 6, 6, 2, 1,
        2, 6, 7, 7, 3, 2,
        4, 8, 9, 9, 5, 4,
        6, 10, 11, 11, 7, 6,
        8, 12, 13, 13, 9, 8,
        9, 13, 14, 14, 10, 9,
        10, 14, 15, 15, 11, 10,
    ];
    v
}

/// The no-centre-fill layout is the R3C3 grid with the centre quad (grid
/// quad 4) left out: its eight quads are grid quads 0..4 and 5..9 in order.
pub proof fn lemma_r3c3_nf_is_grid_without_centre(v: Seq<u16>)
    requires
        v == seq![
            0u16, 4, 5, 5, 1, 0,
            1, 5, 6, 6, 2, 1,
            2, 6, 7, 7, 3, 2,
            4, 8, 9, 9, 5, 4,
            6, 10, 11, 11, 7, 6,
            8, 12, 13, 13, 9, 8,
            9, 13, 14, 14, 10, 9,
            10, 14, 15, 15, 11, 10,
        ],
    ensures
        forall|k: int| 0 <= k < 8 ==> #[trigger] ints(v).subrange(6 * k, 6 * k + 6) == grid_quad(
            3,
            if k < 4 { k } else { k + 1 },
        ),
{
    assert forall|k: int| 0 <= k < 8 implies #[trigger] ints(v).subrange(6 * k, 6 * k + 6) == grid_quad(
        3,
        if k < 4 { k } else { k + 1 },
    ) by {
        let q = if k < 4 { k } else { k + 1 };
        assert(0 <= q < 9);
        assert(ints(v).subrange(6 * k, 6 * k + 6) =~= grid_quad(3, q));
    }
}

} // verus!
