//! Text pieces of a Unity Mesh `.asset` (the SpriteMeshAuthor output): the
//! vertex-channel table of the two vertex layouts and the hex-encoded index
//! buffer.

use vstd::prelude::*;
use vstd::string::StringExecFns;
use crate::meta::{dec_digits, hex_lower};
use crate::text::string_of;

verus! {

broadcast use vstd::string::group_string_axioms;

/// Errors of building a Mesh asset.
#[derive(Debug)]
pub enum BuildMeshError {
    UnresolvedSprite { combined: String, sprite: String },
    TiledNonQuad { combined: String, sprite: String, vert_count: usize },
    EmptyMesh(String),
}

/// One entry of the 14-channel table.
pub open spec fn channel_text(off: nat, fmt: nat, dim: nat) -> Seq<char> {
    "    - stream: 0\n"@ + "      offset: "@ + dec_digits(off) + "\n"@ + "      format: "@
        + dec_digits(fmt) + "\n"@ + "      dimension: "@ + dec_digits(dim) + "\n"@
}

/// `(offset, format, dimension)` of channel `i` in the CanvasRenderer
/// layout: position f32x3 at 0, color u8x4 at 12, uv0 f32x2 at 16.
pub open spec fn canvas_channel(i: int) -> (nat, nat, nat) {
    if i == 0 {
        (0, 0, 3)
    } else if i == 3 {
        (12, 2, 4)
    } else if i == 4 {
        (16, 0, 2)
    } else {
        (0, 0, 0)
    }
}

/// `(offset, format, dimension)` of channel `i` in the SpriteRenderer
/// layout: position f32x3 at 0, uv0 half2 at 12.
pub open spec fn sprite_channel(i: int) -> (nat, nat, nat) {
    if i == 0 {
        (0, 0, 3)
    } else if i == 4 {
        (12, 1, 2)
    } else {
        (0, 0, 0)
    }
}

/// The channel table for the first `n` channels of a layout.
pub open spec fn channels_text(layout: spec_fn(int) -> (nat, nat, nat), n: nat) -> Seq<char>
    decreases n,
{
    if n == 0 {
        Seq::empty()
    } else {
        let (o, f, d) = layout(n - 1);
        channels_text(layout, (n - 1) as nat) + channel_text(o, f, d)
    }
}

fn dec_u32(n: u32) -> (s: String)
    ensures
        s@ == dec_digits(n as nat),
    decreases n,
{
    let mut v: Vec<char> = Vec::new();
    push_dec(n, &mut v);
    string_of(v.as_slice())
}

fn push_dec(n: u32, out: &mut Vec<char>)
    ensures
        final(out)@ == old(out)@ + dec_digits(n as nat),
    decreases n,
{
    if n < 10 {
        out.push(((n as u8) + 48) as char);
        proof {
            assert(out@ =~= old(out)@ + dec_digits(n as nat));
        }
    } else {
        push_dec(n / 10, out);
        out.push((((n % 10) as u8) + 48) as char);
        proof {
            assert(out@ =~= old(out)@ + dec_digits(n as nat));
        }
    }
}

fn emit_channel(s: &mut String, off: u32, fmt: u32, dim: u32)
    ensures
        final(s)@ == old(s)@ + channel_text(off as nat, fmt as nat, dim as nat),
{
    s.append("    - stream: 0\n");
    s.append("      offset: ");
    s.append(dec_u32(off).as_str());
    s.append("\n");
    s.append("      format: ");
    s.append(dec_u32(fmt).as_str());
    s.append("\n");
    s.append("      dimension: ");
    s.append(dec_u32(dim).as_str());
    s.append("\n");
    proof {
        assert(s@ =~= old(s)@ + channel_text(off as nat, fmt as nat, dim as nat));
    }
}

/// Append the 14-entry channel table of the CanvasRenderer vertex layout.
pub fn emit_channels_canvas(s: &mut String)
    ensures
        final(s)@ == old(s)@ + channels_text(|i: int| canvas_channel(i), 14),
{
    let ghost layout = |i: int| canvas_channel(i);
    let mut i: u32 = 0;
    while i < 14
        invariant
            i <= 14,
            layout == (|i: int| canvas_channel(i)),
            s@ == old(s)@ + channels_text(layout, i as nat),
        decreases 14 - i,
    {
        let (off, fmt, dim): (u32, u32, u32) = if i == 0 {
            (0, 0, 3)
        } else if i == 3 {
            (12, 2, 4)
        } else if i == 4 {
            (16, 0, 2)
        } else {
            (0, 0, 0)
        };
        let ghost before = s@;
        emit_channel(s, off, fmt, dim);
        proof {
            assert(layout(i as int) == (off as nat, fmt as nat, dim as nat));
            assert(channels_text(layout, (i + 1) as nat) == channels_text(layout, i as nat)
                + channel_text(off as nat, fmt as nat, dim as nat));
            assert(s@ =~= old(s)@ + channels_text(layout, (i + 1) as nat));
        }
        i = i + 1;
    }
}

/// Append the 14-entry channel table of the SpriteRenderer vertex layout.
pub fn emit_channels_sprite(s: &mut String)
    ensures
        final(s)@ == old(s)@ + channels_text(|i: int| sprite_channel(i), 14),
{
    let ghost layout = |i: int| sprite_channel(i);
    let mut i: u32 = 0;
    while i < 14
        invariant
            i <= 14,
            layout == (|i: int| sprite_channel(i)),
            s@ == old(s)@ + channels_text(layout, i as nat),
        decreases 14 - i,
    {
        let (off, fmt, dim): (u32, u32, u32) = if i == 0 {
            (0, 0, 3)
        } else if i == 4 {
            (12, 1, 2)
        } else {
            (0, 0, 0)
        };
        let ghost before = s@;
        emit_channel(s, off, fmt, dim);
        proof {
            assert(layout(i as int) == (off as nat, fmt as nat, dim as nat));
            assert(channels_text(layout, (i + 1) as nat) == channels_text(layout, i as nat)
                + channel_text(off as nat, fmt as nat, dim as nat));
            assert(s@ =~= old(s)@ + channels_text(layout, (i + 1) as nat));
        }
        i = i + 1;
    }
}

/// The bytes of an index buffer: each index little-endian.
pub open spec fn index_bytes(indices: Seq<u16>) -> Seq<u8>
    decreases indices.len(),
{
    if indices.len() == 0 {
        Seq::empty()
    } else {
        index_bytes(indices.drop_last()) + seq![indices.last() as u8, (indices.last() >> 8) as u8]
    }
}

fn hex_nibble(n: u8) -> (c: char)
    requires
        n < 16,
    ensures
        c == crate::meta::hex_digit_lower(n as int),
{
    if n < 10 {
        (n + 48) as char
    } else {
        (n + 87) as char
    }
}

proof fn lemma_hex_lower_one(b: u8)
    ensures
        hex_lower(seq![b]) == seq![
            crate::meta::hex_digit_lower((b / 16) as int),
            crate::meta::hex_digit_lower((b % 16) as int),
        ],
{
    let e: Seq<u8> = Seq::empty();
    assert(seq![b].drop_last() =~= e);
    assert(seq![b].last() == b);
    assert(hex_lower(e) == Seq::<char>::empty());
    assert(hex_lower(seq![b]) =~= seq![
        crate::meta::hex_digit_lower((b / 16) as int),
        crate::meta::hex_digit_lower((b % 16) as int),
    ]);
}

proof fn lemma_hex_lower_append(a: Seq<u8>, b: u8, c: u8)
    ensures
        hex_lower(a + seq![b, c]) == hex_lower(a) + hex_lower(seq![b]) + hex_lower(seq![c]),
{
    let ab = a + seq![b];
    assert((a + seq![b, c]).drop_last() =~= ab);
    assert((a + seq![b, c]).last() == c);
    assert(ab.drop_last() =~= a);
    assert(ab.last() == b);
    lemma_hex_lower_one(b);
    lemma_hex_lower_one(c);
    assert(hex_lower(ab) =~= hex_lower(a) + hex_lower(seq![b]));
    assert(hex_lower(a + seq![b, c]) =~= hex_lower(ab) + hex_lower(seq![c]));
}

/// Append the index buffer as lowercase hex, two bytes per index, low byte
/// first (`{:02x}{:02x}`).
pub fn encode_index_buffer(indices: &[u16], s: &mut String)
    ensures
        final(s)@ == old(s)@ + hex_lower(index_bytes(indices@)),
{
    let mut i: usize = 0;
    while i < indices.len()
        invariant
            i <= indices@.len(),
            s@ == old(s)@ + hex_lower(index_bytes(indices@.take(i as int))),
        decreases indices@.len() - i,
    {
        let x = indices[i];
        let lo = #[verifier::truncate] (x as u8);
        let hi = #[verifier::truncate] ((x >> 8) as u8);
        let mut v: Vec<char> = Vec::new();
        v.push(hex_nibble(lo / 16));
        v.push(hex_nibble(lo % 16));
        v.push(hex_nibble(hi / 16));
        v.push(hex_nibble(hi % 16));
        let piece = string_of(v.as_slice());
        s.append(piece.as_str());
        proof {
            let t = indices@.take(i + 1);
            assert(t.drop_last() =~= indices@.take(i as int));
            assert(index_bytes(t) == index_bytes(indices@.take(i as int)) + seq![lo, hi]);
            lemma_hex_lower_append(index_bytes(indices@.take(i as int)), lo, hi);
            lemma_hex_lower_one(lo);
            lemma_hex_lower_one(hi);
            assert(s@ =~= old(s)@ + hex_lower(index_bytes(t)));
        }
        i = i + 1;
    }
    proof {
        assert(indices@.take(indices@.len() as int) =~= indices@);
    }
}

/// `index` finds, by name, the entry of `names` that a name → entry map
/// built in order keeps: the last entry of each name.
pub open spec fn sprite_index_ok(names: Seq<String>, index: Seq<(String, usize)>) -> bool {
    &&& forall|a: int, b: int| 0 <= a < index.len() && 0 <= b < index.len() && a != b ==> index[a].0@ != index[b].0@
    &&& forall|a: int|
        0 <= a < index.len() ==> (#[trigger] index[a]).1 < names.len() && names[index[a].1 as int]@ == index[a].0@
    &&& forall|a: int, j: int|
        0 <= a < index.len() && index[a].1 < j < names.len() ==> (#[trigger] names[j])@ != (#[trigger] index[a]).0@
    &&& forall|i: int| 0 <= i < names.len() ==> #[trigger] indexed(index, names[i]@)
}

/// Some entry of `index` has the name `n`.
pub open spec fn indexed(index: Seq<(String, usize)>, n: Seq<char>) -> bool {
    exists|a: int| 0 <= a < index.len() && (#[trigger] index[a]).0@ == n
}

/// Look up sheet entries by name: each distinct name with the position of
/// its last entry. The order of the pairs carries no meaning.
pub fn sprite_index(names: &[String]) -> (r: Vec<(String, usize)>)
    ensures
        sprite_index_ok(names@, r@),
{
    let mut idx: Vec<(String, usize)> = Vec::new();
    let mut i: usize = 0;
    while i < names.len()
        invariant
            i <= names@.len(),
            sprite_index_ok(names@.take(i as int), idx@),
        decreases names@.len() - i,
    {
        let n = &names[i];
        let ghost before = idx@;
        let ghost pre = names@.take(i as int);
        let ghost post = names@.take(i + 1);
        assert forall|j: int| 0 <= j < i implies post[j] == pre[j] by {}
        assert(post[i as int] == *n);
        let mut k: usize = 0;
        while k < idx.len() && !(idx[k].0 == *n)
            invariant
                k <= idx@.len(),
                forall|a: int| 0 <= a < k ==> (#[trigger] idx@[a]).0@ != n@,
            decreases idx@.len() - k,
        {
            k = k + 1;
        }
        if k < idx.len() {
            let key = idx[k].0.clone();
            idx.set(k, (key, i));
            proof {
                assert forall|a: int| 0 <= a < post.len() implies #[trigger] indexed(idx@, post[a]@) by {
                    if a < i {
                        assert(indexed(before, pre[a]@));
                        let b = choose|b: int| 0 <= b < before.len() && (#[trigger] before[b]).0@ == pre[a]@;
                        assert(idx@[b].0@ == pre[a]@);
                    } else {
                        assert(idx@[k as int].0@ == n@);
                    }
                }
                assert forall|a: int, j: int|
                    0 <= a < idx@.len() && idx@[a].1 < j < post.len() implies (#[trigger] post[j])@
                    != (#[trigger] idx@[a]).0@ by {
                    if a != k {
                        assert(idx@[a] == before[a]);
                        if j == i {
                            assert(before[a].0@ != before[k as int].0@);
                        } else {
                            assert(post[j] == pre[j]);
                        }
                    }
                }
                assert forall|a: int| 0 <= a < idx@.len() implies (#[trigger] idx@[a]).1 < post.len()
                    && post[idx@[a].1 as int]@ == idx@[a].0@ by {
                    if a != k {
                        assert(idx@[a] == before[a]);
                        assert(post[before[a].1 as int] == pre[before[a].1 as int]);
                    }
                }
            }
        } else {
            idx.push((n.clone(), i));
            proof {
                assert forall|a: int| 0 <= a < post.len() implies #[trigger] indexed(idx@, post[a]@) by {
                    if a < i {
                        assert(indexed(before, pre[a]@));
                        let b = choose|b: int| 0 <= b < before.len() && (#[trigger] before[b]).0@ == pre[a]@;
                        assert(idx@[b].0@ == pre[a]@);
                    } else {
                        assert(idx@[before.len() as int].0@ == n@);
                    }
                }
                assert forall|a: int, j: int|
                    0 <= a < idx@.len() && idx@[a].1 < j < post.len() implies (#[trigger] post[j])@
                    != (#[trigger] idx@[a]).0@ by {
                    if a < before.len() {
                        assert(idx@[a] == before[a]);
                        if j == i {
                        } else {
                            assert(post[j] == pre[j]);
                        }
                    }
                }
                assert forall|a: int| 0 <= a < idx@.len() implies (#[trigger] idx@[a]).1 < post.len()
                    && post[idx@[a].1 as int]@ == idx@[a].0@ by {
                    if a < before.len() {
                        assert(idx@[a] == before[a]);
                        assert(post[before[a].1 as int] == pre[before[a].1 as int]);
                    }
                }
            }
        }
        i = i + 1;
    }
    assert(names@.take(names@.len() as int) =~= names@);
    idx
}

// ---------------------------------------------------------------------------
// Half-precision conversion

/// `2^n`.
pub open spec fn pow2(n: nat) -> nat
    decreases n,
{
    if n == 0 {
        1
    } else {
        2 * pow2((n - 1) as nat)
    }
}

/// Round the quotient `q` of a division up when the remainder `rem` is
/// above half the divisor (`half`), or exactly half and `q` odd: round to
/// nearest, ties to even.
pub open spec fn round_even(q: int, rem: int, half: int) -> int {
    if rem > half || (rem == half && q % 2 == 1) {
        q + 1
    } else {
        q
    }
}

/// The IEEE 754 binary16 bit pattern nearest to the single-precision
/// number whose bit pattern is `x` (round to nearest, ties to even), as
/// Unity's `Mathf.FloatToHalf` gives it: sign kept; infinities stay
/// infinite; a NaN stays a NaN with the top ten mantissa bits (at least
/// one set); exponents too large become infinity; those below the half
/// subnormal range become a signed zero.
pub open spec fn spec_float_to_half(x: u32) -> int {
    let sign: int = if x >= 0x8000_0000 {
        0x8000
    } else {
        0
    };
    let mant: int = (x % 0x80_0000) as int;
    let exp_raw: int = ((x / 0x80_0000) % 0x100) as int;
    let exp: int = exp_raw - 112;
    if exp_raw == 0xff {
        if mant == 0 {
            sign + 0x7c00
        } else if mant / 0x2000 == 0 {
            sign + 0x7c00 + 1
        } else {
            sign + 0x7c00 + mant / 0x2000
        }
    } else if exp >= 31 {
        sign + 0x7c00
    } else if exp <= 0 {
        if exp < -10 {
            sign
        } else {
            let full = mant + 0x80_0000;
            let d = pow2((14 - exp) as nat) as int;
            sign + round_even(full / d, full % d, d / 2)
        }
    } else {
        let m = round_even(mant / 0x2000, mant % 0x2000, 0x1000);
        if m == 0x400 {
            if exp + 1 >= 31 {
                sign + 0x7c00
            } else {
                sign + (exp + 1) * 0x400
            }
        } else {
            sign + exp * 0x400 + m
        }
    }
}

fn pow2_u32(n: u32) -> (d: u32)
    requires
        n <= 31,
    ensures
        d as int == pow2(n as nat),
{
    let mut d: u32 = 1;
    let mut k: u32 = 0;
    while k < n
        invariant
            k <= n <= 31,
            d as int == pow2(k as nat),
        decreases n - k,
    {
        proof {
            lemma_pow2_split((k + 1) as nat, (30 - k) as nat);
            lemma_pow2_split(0, (30 - k) as nat);
            reveal_with_fuel(pow2, 32);
            assert(pow2(31) == 0x8000_0000);
            assert(pow2((k + 1) as nat) <= pow2(31)) by (nonlinear_arith)
                requires
                    pow2(31) == pow2((k + 1) as nat) * pow2((30 - k) as nat),
                    pow2((30 - k) as nat) >= 1,
            ;
        }
        d = d * 2;
        k = k + 1;
    }
    d
}

proof fn lemma_pow2_split(a: nat, b: nat)
    ensures
        pow2(a + b) == pow2(a) * pow2(b),
        pow2(a) >= 1,
    decreases a,
{
    if a == 0 {
        assert(a + b == b);
        assert(pow2(a) == 1);
        assert(pow2(a) * pow2(b) == pow2(b)) by (nonlinear_arith)
            requires
                pow2(a) == 1,
        ;
    } else {
        lemma_pow2_split((a - 1) as nat, b);
        assert((a - 1) as nat + b == (a + b - 1) as nat);
        assert(pow2(a + b) == 2 * pow2((a + b - 1) as nat));
        assert(pow2(a) * pow2(b) == 2 * (pow2((a - 1) as nat) * pow2(b))) by (nonlinear_arith)
            requires
                pow2(a) == 2 * pow2((a - 1) as nat),
        ;
    }
}

/// IEEE 754 binary16 (half) from a single-precision bit pattern, round to
/// nearest even, as Unity's `Mathf.FloatToHalf` computes it.
pub fn float_to_half(x: u32) -> (r: u16)
    ensures
        r as int == spec_float_to_half(x),
{
    let sign: u32 = if x >= 0x8000_0000 {
        0x8000
    } else {
        0
    };
    let mant: u32 = x % 0x80_0000;
    let exp_raw: u32 = (x / 0x80_0000) % 0x100;
    if exp_raw == 0xff {
        if mant == 0 {
            return (sign + 0x7c00) as u16;
        }
        let m16: u32 = mant / 0x2000;
        let m: u32 = if m16 == 0 {
            1
        } else {
            m16
        };
        return (sign + 0x7c00 + m) as u16;
    }
    if exp_raw >= 143 {
        return (sign + 0x7c00) as u16;
    }
    if exp_raw <= 112 {
        if exp_raw < 102 {
            return sign as u16;
        }
        let shift: u32 = 126 - exp_raw;
        let full: u32 = mant + 0x80_0000;
        let d: u32 = pow2_u32(shift);
        proof {
            lemma_pow2_split(14, (shift - 14) as nat);
            reveal_with_fuel(pow2, 15);
            assert(pow2(14) == 0x4000);
            assert(full / d < 0x400) by (nonlinear_arith)
                requires
                    full < 0x100_0000,
                    d >= 0x4000,
            ;
        }
        let q: u32 = full / d;
        let rem: u32 = full % d;
        let half: u32 = d / 2;
        let m: u32 = if rem > half || (rem == half && q % 2 == 1) {
            q + 1
        } else {
            q
        };
        return (sign + m) as u16;
    }
    let exp: u32 = exp_raw - 112;
    let q: u32 = mant / 0x2000;
    let rem: u32 = mant % 0x2000;
    let m: u32 = if rem > 0x1000 || (rem == 0x1000 && q % 2 == 1) {
        q + 1
    } else {
        q
    };
    if m == 0x400 {
        let e: u32 = exp + 1;
        if e >= 31 {
            return (sign + 0x7c00) as u16;
        }
        return (sign + e * 0x400) as u16;
    }
    (sign + exp * 0x400 + m) as u16
}

// ---------------------------------------------------------------------------
// Combining renderers into one mesh: the integer decisions

/// One renderer of a combined mesh as the build sees it: the sheet sprite
/// it names, whether it tiles, and the vertex count of that sprite in the
/// sheet (`None`: the sheet has no such sprite).
pub struct RendererSource {
    pub sprite: String,
    pub tiled: bool,
    pub vert_count: Option<usize>,
}

/// A renderer the build refuses: its sprite is not in the sheet, or it
/// tiles a sprite that is not a quad.
pub open spec fn renderer_fails(r: RendererSource) -> bool {
    match r.vert_count {
        None => true,
        Some(n) => r.tiled && n != 4,
    }
}

/// `e` is the error the build reports for the failing renderer `r` of the
/// combined mesh named `combined`.
pub open spec fn renderer_error(combined: Seq<char>, r: RendererSource, e: BuildMeshError) -> bool {
    match r.vert_count {
        None => e matches BuildMeshError::UnresolvedSprite { combined: c, sprite: s } && c@ == combined
            && s@ == r.sprite@,
        Some(n) => e matches BuildMeshError::TiledNonQuad { combined: c, sprite: s, vert_count: k } && c@
            == combined && s@ == r.sprite@ && k == n,
    }
}

/// The first renderer, in order, that the build refuses, with its error;
/// `None` when every renderer resolves (and each tiled one is a quad).
pub fn first_renderer_error(combined: &str, rs: &[RendererSource]) -> (r: Option<BuildMeshError>)
    ensures
        match r {
            None => forall|i: int| 0 <= i < rs@.len() ==> !renderer_fails(#[trigger] rs@[i]),
            Some(e) => exists|i: int|
                0 <= i < rs@.len() && renderer_fails(#[trigger] rs@[i]) && renderer_error(combined@, rs@[i], e)
                    && forall|j: int| 0 <= j < i ==> !renderer_fails(#[trigger] rs@[j]),
        },
{
    let mut i: usize = 0;
    while i < rs.len()
        invariant
            i <= rs@.len(),
            forall|j: int| 0 <= j < i ==> !renderer_fails(#[trigger] rs@[j]),
        decreases rs@.len() - i,
    {
        let r = &rs[i];
        match r.vert_count {
            None => {
                let e = BuildMeshError::UnresolvedSprite { combined: combined.to_owned(), sprite: r.sprite.clone() };
                assert(renderer_fails(rs@[i as int]));
                return Some(e);
            },
            Some(n) => {
                if r.tiled && n != 4 {
                    let e = BuildMeshError::TiledNonQuad {
                        combined: combined.to_owned(),
                        sprite: r.sprite.clone(),
                        vert_count: n,
                    };
                    assert(renderer_fails(rs@[i as int]));
                    return Some(e);
                }
            },
        }
        i = i + 1;
    }
    None
}

/// Triangle `k` of a tiled sprite's index list: tile `k / 6` is the quad
/// `0 1 2, 2 1 3` over its own four vertices, which follow those of the
/// tiles before it.
pub open spec fn tile_index(k: int) -> int {
    let corner = seq![0int, 1, 2, 2, 1, 3][k % 6];
    4 * (k / 6) + corner
}

/// The index list of `tiles` tiles, each a two-triangle quad.
pub fn tile_indices(tiles: usize) -> (r: Vec<u16>)
    requires
        tiles < 200,
    ensures
        r@.len() == 6 * tiles,
        forall|k: int| 0 <= k < r@.len() ==> (#[trigger] r@[k]) as int == tile_index(k),
{
    let mut r: Vec<u16> = Vec::new();
    let mut t: usize = 0;
    let mut offset: u16 = 0;
    while t < tiles
        invariant
            t <= tiles < 200,
            offset as int == 4 * t,
            r@.len() == 6 * t,
            forall|k: int| 0 <= k < r@.len() ==> (#[trigger] r@[k]) as int == tile_index(k),
        decreases tiles - t,
    {
        let ghost before = r@;
        r.push(offset);
        r.push(offset + 1);
        r.push(offset + 2);
        r.push(offset + 2);
        r.push(offset + 1);
        r.push(offset + 3);
        proof {
            assert forall|k: int| 0 <= k < r@.len() implies (#[trigger] r@[k]) as int == tile_index(k) by {
                if k < before.len() {
                    assert(r@[k] == before[k]);
                } else {
                    let c = k - 6 * t;
                    assert(0 <= c < 6);
                    assert(k / 6 == t) by (nonlinear_arith)
                        requires
                            k == 6 * t + c,
                            0 <= c < 6,
                    ;
                    assert(k % 6 == c) by (nonlinear_arith)
                        requires
                            k == 6 * t + c,
                            0 <= c < 6,
                    ;
                }
            }
        }
        offset = offset + 4;
        t = t + 1;
    }
    r
}

/// Vertex count of the first renderers' parts.
pub open spec fn parts_verts(parts: Seq<(usize, Vec<u16>)>) -> int
    decreases parts.len(),
{
    if parts.len() == 0 {
        0
    } else {
        parts_verts(parts.drop_last()) + parts.last().0
    }
}

/// Every index of every part, moved past the vertices of the parts before
/// it (that count taken in 16 bits, as the index type holds it), fits in 16
/// bits.
pub open spec fn parts_fit(parts: Seq<(usize, Vec<u16>)>) -> bool
    decreases parts.len(),
{
    if parts.len() == 0 {
        true
    } else {
        &&& parts_fit(parts.drop_last())
        &&& forall|i: int|
            0 <= i < parts.last().1@.len() ==> (#[trigger] parts.last().1@[i]) + parts_verts(parts.drop_last())
                % 0x1_0000 < 0x1_0000
    }
}

/// The combined index list: each part's indices moved past the vertices of
/// the parts before it (counted in 16 bits), in order.
pub open spec fn merged_indices(parts: Seq<(usize, Vec<u16>)>) -> Seq<int>
    decreases parts.len(),
{
    if parts.len() == 0 {
        Seq::empty()
    } else {
        let base = parts_verts(parts.drop_last()) % 0x1_0000;
        merged_indices(parts.drop_last()) + parts.last().1@.map_values(|t: u16| t + base)
    }
}

proof fn lemma_parts_verts_nonneg(parts: Seq<(usize, Vec<u16>)>)
    ensures
        parts_verts(parts) >= 0,
    decreases parts.len(),
{
    if parts.len() > 0 {
        lemma_parts_verts_nonneg(parts.drop_last());
    }
}

/// Merge the renderers' parts (vertex count, local triangle indices) of a
/// combined mesh into its index list; a mesh with no vertex at all is
/// refused with `EmptyMesh`.
pub fn merge_parts(combined: &str, parts: &[(usize, Vec<u16>)]) -> (r: Result<Vec<u16>, BuildMeshError>)
    requires
        parts_fit(parts@),
        parts_verts(parts@) <= usize::MAX,
    ensures
        parts_verts(parts@) == 0 ==> (r matches Err(BuildMeshError::EmptyMesh(n)) && n@ == combined@),
        parts_verts(parts@) > 0 ==> (r is Ok && r->Ok_0@.map_values(|t: u16| t as int) == merged_indices(parts@)),
{
    let mut all: Vec<u16> = Vec::new();
    let mut verts: usize = 0;
    let mut k: usize = 0;
    proof {
        assert(parts@.take(0) =~= Seq::<(usize, Vec<u16>)>::empty());
    }
    while k < parts.len()
        invariant
            k <= parts@.len(),
            verts as int == parts_verts(parts@.take(k as int)),
            parts_fit(parts@),
            parts_verts(parts@) <= usize::MAX,
            all@.map_values(|t: u16| t as int) == merged_indices(parts@.take(k as int)),
        decreases parts@.len() - k,
    {
        let ghost pre = parts@.take(k as int);
        let ghost cur = parts@.take(k + 1);
        proof {
            assert(cur.drop_last() =~= pre);
            assert(cur.last() == parts@[k as int]);
            lemma_fit_prefix(parts@, k + 1);
            lemma_verts_prefix(parts@, k + 1);
            lemma_parts_verts_nonneg(pre);
        }
        let tris = &parts[k].1;
        let base: u16 = (verts % 0x1_0000) as u16;
        let ghost before = all@;
        let mut i: usize = 0;
        while i < tris.len()
            invariant
                i <= tris@.len(),
                tris@ == parts@[k as int].1@,
                base as int == parts_verts(pre) % 0x1_0000,
                forall|j: int| 0 <= j < tris@.len() ==> (#[trigger] tris@[j]) + parts_verts(pre) % 0x1_0000
                    < 0x1_0000,
                all@.map_values(|t: u16| t as int) == before.map_values(|t: u16| t as int) + tris@.take(
                    i as int,
                ).map_values(|t: u16| t + parts_verts(pre) % 0x1_0000),
            decreases tris@.len() - i,
        {
            let ghost b2 = all@;
            all.push(tris[i] + base);
            proof {
                assert(tris@.take(i + 1) =~= tris@.take(i as int).push(tris@[i as int]));
                assert(all@.map_values(|t: u16| t as int) =~= b2.map_values(|t: u16| t as int).push(
                    (tris@[i as int] + base) as int,
                ));
                assert(tris@.take(i + 1).map_values(|t: u16| t + parts_verts(pre) % 0x1_0000) =~= tris@.take(
                    i as int,
                ).map_values(|t: u16| t + parts_verts(pre) % 0x1_0000).push(
                    tris@[i as int] + parts_verts(pre) % 0x1_0000,
                ));
            }
            i = i + 1;
        }
        proof {
            assert(tris@.take(tris@.len() as int) =~= tris@);
        }
        verts = verts + parts[k].0;
        k = k + 1;
    }
    proof {
        assert(parts@.take(parts@.len() as int) =~= parts@);
    }
    if verts == 0 {
        return Err(BuildMeshError::EmptyMesh(combined.to_owned()));
    }
    Ok(all)
}

proof fn lemma_fit_prefix(parts: Seq<(usize, Vec<u16>)>, n: int)
    requires
        parts_fit(parts),
        0 <= n <= parts.len(),
    ensures
        parts_fit(parts.take(n)),
    decreases parts.len(),
{
    if n < parts.len() {
        assert(parts.drop_last().take(n) =~= parts.take(n));
        lemma_fit_prefix(parts.drop_last(), n);
    } else {
        assert(parts.take(n) =~= parts);
    }
}

proof fn lemma_verts_prefix(parts: Seq<(usize, Vec<u16>)>, n: int)
    requires
        0 <= n <= parts.len(),
    ensures
        parts_verts(parts.take(n)) <= parts_verts(parts),
    decreases parts.len(),
{
    if n < parts.len() {
        assert(parts.drop_last().take(n) =~= parts.take(n));
        lemma_verts_prefix(parts.drop_last(), n);
    } else {
        assert(parts.take(n) =~= parts);
    }
}

} // verus!
