//! The `.tps.fab.json` manifest: the authored trees of combined sprites and
//! meshes, and the rules that check them.
//!
//! Each tree has a `mode` (`ui` → a CSA sprite, `sma-canvas` /
//! `sma-renderer` → an SMA mesh) and a list of nodes; a node carries at most
//! one graphic (`sprite`, `polygon` or `spriteRenderer`). The JSON text is
//! read elsewhere into [`RawManifest`]; everything the manifest rules decide
//! happens here, in the order the authored file lists it, and the first rule
//! broken is the error reported.

use vstd::prelude::*;
use crate::fab::{spec_method_name, spec_native_scale, Method};
use crate::text::{chars_of, has_prefix, starts_with, string_of, strip_prefix, sub_chars};

verus! {

broadcast use vstd::string::group_string_axioms;

// ---------------------------------------------------------------------------
// Methods

/// A sprite leaf's slice / tile / mirror method, as authored.
#[derive(Debug, Clone, Copy, PartialEq, Eq, Hash, Structural)]
pub enum SpriteMethod {
    Id,
    Mx,
    My,
    Mxy,
    Tx,
    Ty,
    TxMc3,
    R1c3,
    R3c3,
    R3c3Nf,
    MxR1c3,
    MxR1c4,
    MxR3c2,
    MxR3c3,
    MxR3c4,
    MxR3c6,
    MyR2c2,
    MyR2c3,
    MyR3c1,
    MyR3c2,
    MyR3c3,
    MxyR3c3,
    MxyR3c3Nf,
}

/// The combine method that an authored method lowers to (one for one).
pub open spec fn spec_map_method(m: SpriteMethod) -> Method {
    match m {
        SpriteMethod::Id => Method::Id,
        SpriteMethod::Mx => Method::Mx,
        SpriteMethod::My => Method::My,
        SpriteMethod::Mxy => Method::Mxy,
        SpriteMethod::Tx => Method::Tx,
        SpriteMethod::Ty => Method::Ty,
        SpriteMethod::TxMc3 => Method::TxMc3,
        SpriteMethod::R1c3 => Method::R1c3,
        SpriteMethod::R3c3 => Method::R3c3,
        SpriteMethod::R3c3Nf => Method::R3c3Nf,
        SpriteMethod::MxR1c3 => Method::MxR1c3,
        SpriteMethod::MxR1c4 => Method::MxR1c4,
        SpriteMethod::MxR3c2 => Method::MxR3c2,
        SpriteMethod::MxR3c3 => Method::MxR3c3,
        SpriteMethod::MxR3c4 => Method::MxR3c4,
        SpriteMethod::MxR3c6 => Method::MxR3c6,
        SpriteMethod::MyR2c2 => Method::MyR2c2,
        SpriteMethod::MyR2c3 => Method::MyR2c3,
        SpriteMethod::MyR3c1 => Method::MyR3c1,
        SpriteMethod::MyR3c2 => Method::MyR3c2,
        SpriteMethod::MyR3c3 => Method::MyR3c3,
        SpriteMethod::MxyR3c3 => Method::MxyR3c3,
        SpriteMethod::MxyR3c3Nf => Method::MxyR3c3Nf,
    }
}

/// The authored name of a method (`ID`, `MX_R1C3`, …).
pub open spec fn sprite_method_name(m: SpriteMethod) -> Seq<char> {
    spec_method_name(spec_map_method(m))
}

impl SpriteMethod {
    /// True iff omitting `size` is an error: slice grids and tilers need a
    /// target rect; identity and the mirror duplicators do not.
    pub fn requires_size(self) -> (r: bool)
        ensures
            r == !(self == SpriteMethod::Id || self == SpriteMethod::Mx || self == SpriteMethod::My
                || self == SpriteMethod::Mxy),
    {
        !matches!(self, SpriteMethod::Id | SpriteMethod::Mx | SpriteMethod::My | SpriteMethod::Mxy)
    }
}

/// Lower an authored method to the combine method of the same name.
pub fn map_method(m: SpriteMethod) -> (r: Method)
    ensures
        r == spec_map_method(m),
{
    match m {
        SpriteMethod::Id => Method::Id,
        SpriteMethod::Mx => Method::Mx,
        SpriteMethod::My => Method::My,
        SpriteMethod::Mxy => Method::Mxy,
        SpriteMethod::Tx => Method::Tx,
        SpriteMethod::Ty => Method::Ty,
        SpriteMethod::TxMc3 => Method::TxMc3,
        SpriteMethod::R1c3 => Method::R1c3,
        SpriteMethod::R3c3 => Method::R3c3,
        SpriteMethod::R3c3Nf => Method::R3c3Nf,
        SpriteMethod::MxR1c3 => Method::MxR1c3,
        SpriteMethod::MxR1c4 => Method::MxR1c4,
        SpriteMethod::MxR3c2 => Method::MxR3c2,
        SpriteMethod::MxR3c3 => Method::MxR3c3,
        SpriteMethod::MxR3c4 => Method::MxR3c4,
        SpriteMethod::MxR3c6 => Method::MxR3c6,
        SpriteMethod::MyR2c2 => Method::MyR2c2,
        SpriteMethod::MyR2c3 => Method::MyR2c3,
        SpriteMethod::MyR3c1 => Method::MyR3c1,
        SpriteMethod::MyR3c2 => Method::MyR3c2,
        SpriteMethod::MyR3c3 => Method::MyR3c3,
        SpriteMethod::MxyR3c3 => Method::MxyR3c3,
        SpriteMethod::MxyR3c3Nf => Method::MxyR3c3Nf,
    }
}

/// Lowering keeps whether a method needs a target rect.
pub proof fn lemma_map_method_keeps_requires_size(m: SpriteMethod)
    ensures
        !spec_native_scale(spec_map_method(m)) == !(m == SpriteMethod::Id || m == SpriteMethod::Mx
            || m == SpriteMethod::My || m == SpriteMethod::Mxy),
{
}

/// Lowering is one to one.
pub proof fn lemma_map_method_injective(a: SpriteMethod, b: SpriteMethod)
    ensures
        spec_map_method(a) == spec_map_method(b) ==> a == b,
{
}

/// A few characters that already tell the method names apart.
spec fn name_print(s: Seq<char>) -> (nat, char, char, char, char) {
    (s.len(), s[0], s[1], s[4], s[6])
}

/// Distinct methods have distinct names.
pub proof fn lemma_sprite_method_names_distinct(a: SpriteMethod, b: SpriteMethod)
    ensures
        sprite_method_name(a) == sprite_method_name(b) ==> a == b,
{
    reveal_strlit("ID");
    reveal_strlit("MX");
    reveal_strlit("MY");
    reveal_strlit("MXY");
    reveal_strlit("TX");
    reveal_strlit("TY");
    reveal_strlit("TX_MC3");
    reveal_strlit("R1C3");
    reveal_strlit("R3C3");
    reveal_strlit("R3C3_NF");
    reveal_strlit("MX_R1C3");
    reveal_strlit("MX_R1C4");
    reveal_strlit("MX_R3C2");
    reveal_strlit("MX_R3C3");
    reveal_strlit("MX_R3C4");
    reveal_strlit("MX_R3C6");
    reveal_strlit("MY_R2C2");
    reveal_strlit("MY_R2C3");
    reveal_strlit("MY_R3C1");
    reveal_strlit("MY_R3C2");
    reveal_strlit("MY_R3C3");
    reveal_strlit("MXY_R3C3");
    reveal_strlit("MXY_R3C3_NF");
    if sprite_method_name(a) == sprite_method_name(b) {
        assert(name_print(sprite_method_name(a)) == name_print(sprite_method_name(b)));
    }
}

/// Position of a method in declaration order.
pub open spec fn method_index(m: SpriteMethod) -> int {
    match m {
        SpriteMethod::Id => 0,
        SpriteMethod::Mx => 1,
        SpriteMethod::My => 2,
        SpriteMethod::Mxy => 3,
        SpriteMethod::Tx => 4,
        SpriteMethod::Ty => 5,
        SpriteMethod::TxMc3 => 6,
        SpriteMethod::R1c3 => 7,
        SpriteMethod::R3c3 => 8,
        SpriteMethod::R3c3Nf => 9,
        SpriteMethod::MxR1c3 => 10,
        SpriteMethod::MxR1c4 => 11,
        SpriteMethod::MxR3c2 => 12,
        SpriteMethod::MxR3c3 => 13,
        SpriteMethod::MxR3c4 => 14,
        SpriteMethod::MxR3c6 => 15,
        SpriteMethod::MyR2c2 => 16,
        SpriteMethod::MyR2c3 => 17,
        SpriteMethod::MyR3c1 => 18,
        SpriteMethod::MyR3c2 => 19,
        SpriteMethod::MyR3c3 => 20,
        SpriteMethod::MxyR3c3 => 21,
        SpriteMethod::MxyR3c3Nf => 22,
    }
}

/// Two char sequences are equal.
fn same_chars(a: &[char], b: &[char]) -> (r: bool)
    ensures
        r == (a@ == b@),
{
    if a.len() != b.len() {
        return false;
    }
    let mut i: usize = 0;
    while i < a.len()
        invariant
            a@.len() == b@.len(),
            i <= a@.len(),
            forall|k: int| 0 <= k < i ==> a@[k] == b@[k],
        decreases a@.len() - i,
    {
        if a[i] != b[i] {
            return false;
        }
        i = i + 1;
    }
    assert(a@ =~= b@);
    true
}

/// The method with the authored name `s`, if any.
pub fn parse_method(s: &str) -> (r: Option<SpriteMethod>)
    ensures
        match r {
            Some(m) => sprite_method_name(m) == s@,
            None => forall|m: SpriteMethod| sprite_method_name(m) != s@,
        },
{
    let all: [SpriteMethod; 23] = [
        SpriteMethod::Id,
        SpriteMethod::Mx,
        SpriteMethod::My,
        SpriteMethod::Mxy,
        SpriteMethod::Tx,
        SpriteMethod::Ty,
        SpriteMethod::TxMc3,
        SpriteMethod::R1c3,
        SpriteMethod::R3c3,
        SpriteMethod::R3c3Nf,
        SpriteMethod::MxR1c3,
        SpriteMethod::MxR1c4,
        SpriteMethod::MxR3c2,
        SpriteMethod::MxR3c3,
        SpriteMethod::MxR3c4,
        SpriteMethod::MxR3c6,
        SpriteMethod::MyR2c2,
        SpriteMethod::MyR2c3,
        SpriteMethod::MyR3c1,
        SpriteMethod::MyR3c2,
        SpriteMethod::MyR3c3,
        SpriteMethod::MxyR3c3,
        SpriteMethod::MxyR3c3Nf,
    ];
    assert(forall|m: SpriteMethod| 0 <= #[trigger] method_index(m) < 23 && all@[method_index(m)] == m);
    let want = chars_of(s);
    let mut k: usize = 0;
    while k < 23
        invariant
            k <= 23,
            want@ == s@,
            forall|m: SpriteMethod| 0 <= #[trigger] method_index(m) < 23 && all@[method_index(m)] == m,
            forall|j: int| 0 <= j < k ==> sprite_method_name(#[trigger] all@[j]) != s@,
        decreases 23 - k,
    {
        let m = all[k];
        let name = chars_of(map_method(m).name());
        if same_chars(&name, &want) {
            return Some(m);
        }
        k = k + 1;
    }
    assert forall|m: SpriteMethod| sprite_method_name(m) != s@ by {
        assert(all@[method_index(m)] == m);
    }
    None
}

/// Reading back the name of a method gives that method.
pub proof fn lemma_parse_method_of_name(m: SpriteMethod, r: Option<SpriteMethod>)
    requires
        r is Some ==> sprite_method_name(r->0) == sprite_method_name(m),
        r is None ==> forall|x: SpriteMethod| #[trigger] sprite_method_name(x) != sprite_method_name(m),
    ensures
        r == Some(m),
{
    if r is Some {
        let x = r->0;
        assert(sprite_method_name(x) == sprite_method_name(m));
        lemma_sprite_method_names_distinct(x, m);
        assert(x == m);
    } else {
        let nm = sprite_method_name(m);
        assert(nm != sprite_method_name(m));
    }
}

/// How a SpriteRenderer leaf draws its sprite.
#[derive(Debug, Clone, Copy, PartialEq, Eq, Structural)]
pub enum DrawMode {
    Simple,
    Tiled,
}

// ---------------------------------------------------------------------------
// Colors

/// An ASCII hex digit byte.
pub open spec fn is_hex_byte(b: u8) -> bool {
    (0x30 <= b <= 0x39) || (0x41 <= b <= 0x46) || (0x61 <= b <= 0x66)
}

/// `char::to_ascii_uppercase`.
pub open spec fn upper_char(c: char) -> char {
    if 'a' <= c <= 'z' {
        ((c as u32) - 32) as char
    } else {
        c
    }
}

/// `str::to_ascii_uppercase`.
pub open spec fn ascii_upper(s: Seq<char>) -> Seq<char> {
    s.map_values(|c: char| upper_char(c))
}

/// A polygon color is 6 or 8 bytes of ASCII hex digits.
pub open spec fn color_valid(c: Seq<char>) -> bool {
    let b = vstd::utf8::encode_utf8(c);
    &&& (b.len() == 6 || b.len() == 8)
    &&& forall|i: int| 0 <= i < b.len() ==> is_hex_byte(#[trigger] b[i])
}

/// The tpsheet entry that a polygon color names: `Color_` and the digits in
/// upper case, as authored (6 digits stay 6).
pub open spec fn color_sprite_name(c: Seq<char>) -> Seq<char> {
    "Color_"@ + ascii_upper(c)
}

fn upper_char_exec(c: char) -> (r: char)
    ensures
        r == upper_char(c),
{
    if 'a' <= c && c <= 'z' {
        let b: u8 = c as u8;
        assert(b as u32 == c as u32);
        ((b - 32) as u8) as char
    } else {
        c
    }
}

/// Push the upper-cased `s` onto `out`.
pub(crate) fn push_upper(out: &mut Vec<char>, s: &str)
    ensures
        final(out)@ == old(out)@ + ascii_upper(s@),
{
    let cs = chars_of(s);
    let mut i: usize = 0;
    while i < cs.len()
        invariant
            cs@ == s@,
            i <= cs@.len(),
            out@ == old(out)@ + ascii_upper(s@.take(i as int)),
        decreases cs@.len() - i,
    {
        let u = upper_char_exec(cs[i]);
        let ghost before = out@;
        out.push(u);
        proof {
            assert(ascii_upper(s@.take(i + 1)) =~= ascii_upper(s@.take(i as int)).push(u));
            assert(out@ =~= before.push(u));
        }
        i = i + 1;
    }
    assert(s@.take(cs@.len() as int) =~= s@);
}

/// Every byte of `b` is an ASCII hex digit.
fn all_hex(b: &[u8]) -> (r: bool)
    ensures
        r == forall|k: int| 0 <= k < b@.len() ==> is_hex_byte(#[trigger] b@[k]),
{
    let mut i: usize = 0;
    while i < b.len()
        invariant
            i <= b@.len(),
            forall|k: int| 0 <= k < i ==> is_hex_byte(#[trigger] b@[k]),
        decreases b@.len() - i,
    {
        let x = b[i];
        if !((0x30 <= x && x <= 0x39) || (0x41 <= x && x <= 0x46) || (0x61 <= x && x <= 0x66)) {
            assert(!is_hex_byte(b@[i as int]));
            return false;
        }
        i = i + 1;
    }
    true
}

/// The polygon color `c` of tree `tree`, as the name of its atlas entry.
fn resolve_color(tree: &str, c: &str) -> (r: Result<String, ManifestError>)
    ensures
        color_valid(c@) ==> r is Ok && r->Ok_0@ == color_sprite_name(c@),
        !color_valid(c@) ==> (r matches Err(ManifestError::BadColor { tree: t, color: cc }) && t@ == tree@
            && cc@ == c@),
{
    let b = c.as_bytes();
    proof {
        assert(b@ == vstd::utf8::encode_utf8(c@));
    }
    let len = b.len();
    let valid = (len == 6 || len == 8) && all_hex(b);
    if !valid {
        return Err(ManifestError::BadColor { tree: tree.to_owned(), color: c.to_owned() });
    }
    let mut out = chars_of("Color_");
    push_upper(&mut out, c);
    Ok(string_of(&out))
}

/// `s` and the literal `lit` are the same text.
fn str_is(s: &str, lit: &str) -> (r: bool)
    ensures
        r == (s@ == lit@),
{
    let a = chars_of(s);
    let b = chars_of(lit);
    same_chars(&a, &b)
}

// ---------------------------------------------------------------------------
// Errors

/// A broken manifest rule; `tree` names the offending tree.
#[derive(Debug)]
pub enum ManifestError {
    /// The text is not a manifest (its parser's message).
    Json(String),
    UnsupportedVersion(u32),
    EmptyName,
    DuplicateName(String),
    BadColor { tree: String, color: String },
    UnknownMethod { tree: String, method: String },
    UnknownDrawMode { tree: String, mode: String },
    PolygonTooFewVertices { tree: String, n: usize },
    GraphicShape { tree: String, reason: &'static str },
    OutputShape { tree: String, reason: &'static str },
}

/// [`ManifestError`] with its texts as character sequences.
pub enum ManifestErrorV {
    Json(Seq<char>),
    UnsupportedVersion(u32),
    EmptyName,
    DuplicateName(Seq<char>),
    BadColor { tree: Seq<char>, color: Seq<char> },
    UnknownMethod { tree: Seq<char>, method: Seq<char> },
    UnknownDrawMode { tree: Seq<char>, mode: Seq<char> },
    PolygonTooFewVertices { tree: Seq<char>, n: usize },
    GraphicShape { tree: Seq<char>, reason: Seq<char> },
    OutputShape { tree: Seq<char>, reason: Seq<char> },
}

impl View for ManifestError {
    type V = ManifestErrorV;

    open spec fn view(&self) -> ManifestErrorV {
        match self {
            ManifestError::Json(m) => ManifestErrorV::Json(m@),
            ManifestError::UnsupportedVersion(v) => ManifestErrorV::UnsupportedVersion(*v),
            ManifestError::EmptyName => ManifestErrorV::EmptyName,
            ManifestError::DuplicateName(n) => ManifestErrorV::DuplicateName(n@),
            ManifestError::BadColor { tree, color } => ManifestErrorV::BadColor { tree: tree@, color: color@ },
            ManifestError::UnknownMethod { tree, method } => ManifestErrorV::UnknownMethod {
                tree: tree@,
                method: method@,
            },
            ManifestError::UnknownDrawMode { tree, mode } => ManifestErrorV::UnknownDrawMode {
                tree: tree@,
                mode: mode@,
            },
            ManifestError::PolygonTooFewVertices { tree, n } => ManifestErrorV::PolygonTooFewVertices {
                tree: tree@,
                n: *n,
            },
            ManifestError::GraphicShape { tree, reason } => ManifestErrorV::GraphicShape {
                tree: tree@,
                reason: reason@,
            },
            ManifestError::OutputShape { tree, reason } => ManifestErrorV::OutputShape {
                tree: tree@,
                reason: reason@,
            },
        }
    }
}

// ---------------------------------------------------------------------------
// Graphics

/// The graphic fields of one authored node, as read from the file. Only
/// the number of polygon vertices matters to the rules.
#[derive(Debug, Clone)]
pub struct RawGraphic {
    /// `type`: absent for a pure container.
    pub kind: Option<String>,
    pub sprite: Option<String>,
    pub method: Option<String>,
    pub flip_x: Option<bool>,
    pub flip_y: Option<bool>,
    pub color: Option<String>,
    /// How many `vertices` the node lists (0 when absent).
    pub vertex_count: usize,
    pub draw_mode: Option<String>,
}

/// A node's checked graphic.
#[derive(Debug, Clone, PartialEq, Eq)]
pub enum LeafGraphic {
    Sprite { sprite: String, method: SpriteMethod, flip_x: bool, flip_y: bool },
    /// A color quad drawn with the atlas entry `polygon_sprite`.
    Polygon { polygon_sprite: String },
    SpriteRenderer { sprite: String, draw_mode: DrawMode },
}

/// [`LeafGraphic`] with its texts as character sequences.
pub enum LeafGraphicV {
    Sprite { sprite: Seq<char>, method: SpriteMethod, flip_x: bool, flip_y: bool },
    Polygon { polygon_sprite: Seq<char> },
    SpriteRenderer { sprite: Seq<char>, draw_mode: DrawMode },
}

impl View for LeafGraphic {
    type V = LeafGraphicV;

    open spec fn view(&self) -> LeafGraphicV {
        match self {
            LeafGraphic::Sprite { sprite, method, flip_x, flip_y } => LeafGraphicV::Sprite {
                sprite: sprite@,
                method: *method,
                flip_x: *flip_x,
                flip_y: *flip_y,
            },
            LeafGraphic::Polygon { polygon_sprite } => LeafGraphicV::Polygon { polygon_sprite: polygon_sprite@ },
            LeafGraphic::SpriteRenderer { sprite, draw_mode } => LeafGraphicV::SpriteRenderer {
                sprite: sprite@,
                draw_mode: *draw_mode,
            },
        }
    }
}

pub open spec fn leaf_view(g: Option<LeafGraphic>) -> Option<LeafGraphicV> {
    match g {
        Some(x) => Some(x@),
        None => None,
    }
}

pub open spec fn graphic_result_view(r: Result<Option<LeafGraphic>, ManifestError>) -> Result<
    Option<LeafGraphicV>,
    ManifestErrorV,
> {
    match r {
        Ok(g) => Ok(leaf_view(g)),
        Err(e) => Err(e@),
    }
}

pub open spec fn opt_or(o: Option<bool>, d: bool) -> bool {
    match o {
        Some(b) => b,
        None => d,
    }
}

/// What the rules make of one node's graphic in tree `tree`.
pub open spec fn graphic_outcome(tree: Seq<char>, g: RawGraphic) -> Result<Option<LeafGraphicV>, ManifestErrorV> {
    match g.kind {
        None => Ok(None),
        Some(k) => if k@ == "sprite"@ {
            match g.sprite {
                None => Err(ManifestErrorV::GraphicShape { tree, reason: "type=sprite requires `sprite`"@ }),
                Some(sp) => {
                    let ms = match g.method {
                        Some(m) => m@,
                        None => "ID"@,
                    };
                    if exists|m: SpriteMethod| sprite_method_name(m) == ms {
                        Ok(
                            Some(
                                LeafGraphicV::Sprite {
                                    sprite: sp@,
                                    method: choose|m: SpriteMethod| sprite_method_name(m) == ms,
                                    flip_x: opt_or(g.flip_x, false),
                                    flip_y: opt_or(g.flip_y, false),
                                },
                            ),
                        )
                    } else {
                        Err(ManifestErrorV::UnknownMethod { tree, method: ms })
                    }
                },
            }
        } else if k@ == "polygon"@ {
            match g.color {
                None => Err(ManifestErrorV::GraphicShape { tree, reason: "type=polygon requires `color`"@ }),
                Some(c) => if !color_valid(c@) {
                    Err(ManifestErrorV::BadColor { tree, color: c@ })
                } else if g.vertex_count < 3 {
                    Err(ManifestErrorV::PolygonTooFewVertices { tree, n: g.vertex_count })
                } else {
                    Ok(Some(LeafGraphicV::Polygon { polygon_sprite: color_sprite_name(c@) }))
                },
            }
        } else if k@ == "spriteRenderer"@ || k@ == "sprite-renderer"@ {
            match g.sprite {
                None => Err(
                    ManifestErrorV::GraphicShape { tree, reason: "type=spriteRenderer requires `sprite`"@ },
                ),
                Some(sp) => {
                    let dm = match g.draw_mode {
                        Some(d) => d@,
                        None => "simple"@,
                    };
                    if dm == "simple"@ {
                        Ok(Some(LeafGraphicV::SpriteRenderer { sprite: sp@, draw_mode: DrawMode::Simple }))
                    } else if dm == "tiled"@ {
                        Ok(Some(LeafGraphicV::SpriteRenderer { sprite: sp@, draw_mode: DrawMode::Tiled }))
                    } else {
                        Err(ManifestErrorV::UnknownDrawMode { tree, mode: dm })
                    }
                },
            }
        } else {
            Err(
                ManifestErrorV::GraphicShape {
                    tree,
                    reason: "type must be \"sprite\" | \"polygon\" | \"spriteRenderer\""@,
                },
            )
        },
    }
}

/// Check one node's graphic in tree `tree`.
pub fn translate_graphic(tree: &str, g: &RawGraphic) -> (r: Result<Option<LeafGraphic>, ManifestError>)
    ensures
        graphic_result_view(r) == graphic_outcome(tree@, *g),
{
    let kind = match &g.kind {
        None => return Ok(None),
        Some(k) => k.as_str(),
    };
    if str_is(kind, "sprite") {
        let sprite = match &g.sprite {
            None => {
                return Err(
                    ManifestError::GraphicShape { tree: tree.to_owned(), reason: "type=sprite requires `sprite`" },
                )
            },
            Some(s) => s.clone(),
        };
        let method_str: &str = match &g.method {
            Some(m) => m.as_str(),
            None => "ID",
        };
        match parse_method(method_str) {
            None => Err(ManifestError::UnknownMethod { tree: tree.to_owned(), method: method_str.to_owned() }),
            Some(method) => {
                proof {
                    let c = choose|m: SpriteMethod| sprite_method_name(m) == method_str@;
                    lemma_sprite_method_names_distinct(c, method);
                }
                let flip_x = match g.flip_x {
                    Some(b) => b,
                    None => false,
                };
                let flip_y = match g.flip_y {
                    Some(b) => b,
                    None => false,
                };
                Ok(Some(LeafGraphic::Sprite { sprite, method, flip_x, flip_y }))
            },
        }
    } else if str_is(kind, "polygon") {
        let color: &str = match &g.color {
            None => {
                return Err(
                    ManifestError::GraphicShape { tree: tree.to_owned(), reason: "type=polygon requires `color`" },
                )
            },
            Some(c) => c.as_str(),
        };
        let polygon_sprite = match resolve_color(tree, color) {
            Ok(p) => p,
            Err(e) => return Err(e),
        };
        if g.vertex_count < 3 {
            return Err(ManifestError::PolygonTooFewVertices { tree: tree.to_owned(), n: g.vertex_count });
        }
        Ok(Some(LeafGraphic::Polygon { polygon_sprite }))
    } else if str_is(kind, "spriteRenderer") || str_is(kind, "sprite-renderer") {
        let sprite = match &g.sprite {
            None => {
                return Err(
                    ManifestError::GraphicShape {
                        tree: tree.to_owned(),
                        reason: "type=spriteRenderer requires `sprite`",
                    },
                )
            },
            Some(s) => s.clone(),
        };
        let dm: &str = match &g.draw_mode {
            Some(d) => d.as_str(),
            None => "simple",
        };
        if str_is(dm, "simple") {
            Ok(Some(LeafGraphic::SpriteRenderer { sprite, draw_mode: DrawMode::Simple }))
        } else if str_is(dm, "tiled") {
            Ok(Some(LeafGraphic::SpriteRenderer { sprite, draw_mode: DrawMode::Tiled }))
        } else {
            Err(ManifestError::UnknownDrawMode { tree: tree.to_owned(), mode: dm.to_owned() })
        }
    } else {
        Err(
            ManifestError::GraphicShape {
                tree: tree.to_owned(),
                reason: "type must be \"sprite\" | \"polygon\" | \"spriteRenderer\"",
            },
        )
    }
}

// ---------------------------------------------------------------------------
// Trees

/// What a tree publishes.
#[derive(Debug, Clone, PartialEq, Eq)]
pub enum Output {
    /// A CSA-published Sprite; its output path and GUID come from the
    /// sprite it replaces.
    Csa,
    /// An SMA-published Mesh: where it goes, its sub-asset fileID and
    /// canvas-vs-sprite-renderer layout.
    Sma { file_id: i64, output_path: String, used_in_canvas: bool, keep_vertices: bool, keep_indices: bool },
}

/// [`Output`] with its path as a character sequence.
pub enum OutputV {
    Csa,
    Sma { file_id: i64, output_path: Seq<char>, used_in_canvas: bool, keep_vertices: bool, keep_indices: bool },
}

impl View for Output {
    type V = OutputV;

    open spec fn view(&self) -> OutputV {
        match self {
            Output::Csa => OutputV::Csa,
            Output::Sma { file_id, output_path, used_in_canvas, keep_vertices, keep_indices } => OutputV::Sma {
                file_id: *file_id,
                output_path: output_path@,
                used_in_canvas: *used_in_canvas,
                keep_vertices: *keep_vertices,
                keep_indices: *keep_indices,
            },
        }
    }
}

/// One authored tree as read from the file: its name, mode, the SMA
/// fields, and its nodes' graphics in depth-first order (parent before
/// children, children in order).
#[derive(Debug, Clone)]
pub struct RawTree {
    pub name: String,
    pub mode: String,
    pub file_id: Option<i64>,
    pub output_path: Option<String>,
    pub keep_vertices: Option<bool>,
    pub keep_indices: Option<bool>,
    pub nodes: Vec<RawGraphic>,
}

/// A manifest as read from the file.
#[derive(Debug, Clone)]
pub struct RawManifest {
    pub version: u32,
    pub trees: Vec<RawTree>,
}

/// A tree that passed every rule: its output and each node's graphic, in
/// the order of [`RawTree::nodes`].
#[derive(Debug, Clone)]
pub struct CheckedTree {
    pub name: String,
    pub output: Output,
    pub graphics: Vec<Option<LeafGraphic>>,
}

/// [`CheckedTree`] as values.
pub struct CheckedTreeV {
    pub name: Seq<char>,
    pub output: OutputV,
    pub graphics: Seq<Option<LeafGraphicV>>,
}

impl View for CheckedTree {
    type V = CheckedTreeV;

    open spec fn view(&self) -> CheckedTreeV {
        CheckedTreeV {
            name: self.name@,
            output: self.output@,
            graphics: self.graphics@.map_values(|g: Option<LeafGraphic>| leaf_view(g)),
        }
    }
}

/// What the rules make of a tree's `mode` and SMA fields.
pub open spec fn mode_outcome(t: RawTree) -> Result<OutputV, ManifestErrorV> {
    let sma_fields = t.file_id is Some || t.output_path is Some || t.keep_vertices is Some || t.keep_indices is Some;
    if t.mode@ == "ui"@ {
        if sma_fields {
            Err(
                ManifestErrorV::OutputShape {
                    tree: t.name@,
                    reason: "mode=ui must not carry fileId/outputPath/keepVertices/keepIndices"@,
                },
            )
        } else {
            Ok(OutputV::Csa)
        }
    } else if t.mode@ == "sma-canvas"@ || t.mode@ == "sma-renderer"@ {
        match t.file_id {
            None => Err(ManifestErrorV::OutputShape { tree: t.name@, reason: "mode=sma-* requires `fileId`"@ }),
            Some(f) => match t.output_path {
                None => Err(
                    ManifestErrorV::OutputShape { tree: t.name@, reason: "mode=sma-* requires `outputPath`"@ },
                ),
                Some(p) => Ok(
                    OutputV::Sma {
                        file_id: f,
                        output_path: p@,
                        used_in_canvas: t.mode@ == "sma-canvas"@,
                        keep_vertices: opt_or(t.keep_vertices, true),
                        keep_indices: opt_or(t.keep_indices, true),
                    },
                ),
            },
        }
    } else {
        Err(
            ManifestErrorV::OutputShape {
                tree: t.name@,
                reason: "mode must be \"ui\" | \"sma-canvas\" | \"sma-renderer\""@,
            },
        )
    }
}

pub open spec fn output_result_view(r: Result<Output, ManifestError>) -> Result<OutputV, ManifestErrorV> {
    match r {
        Ok(o) => Ok(o@),
        Err(e) => Err(e@),
    }
}

/// Check a tree's `mode` against its SMA fields.
pub fn translate_mode(t: &RawTree) -> (r: Result<Output, ManifestError>)
    ensures
        output_result_view(r) == mode_outcome(*t),
{
    let sma_fields_present = t.file_id.is_some() || t.output_path.is_some() || t.keep_vertices.is_some()
        || t.keep_indices.is_some();
    let mode = t.mode.as_str();
    if str_is(mode, "ui") {
        if sma_fields_present {
            return Err(
                ManifestError::OutputShape {
                    tree: t.name.clone(),
                    reason: "mode=ui must not carry fileId/outputPath/keepVertices/keepIndices",
                },
            );
        }
        Ok(Output::Csa)
    } else if str_is(mode, "sma-canvas") || str_is(mode, "sma-renderer") {
        let file_id = match t.file_id {
            None => {
                return Err(
                    ManifestError::OutputShape { tree: t.name.clone(), reason: "mode=sma-* requires `fileId`" },
                )
            },
            Some(f) => f,
        };
        let output_path = match &t.output_path {
            None => {
                return Err(
                    ManifestError::OutputShape { tree: t.name.clone(), reason: "mode=sma-* requires `outputPath`" },
                )
            },
            Some(p) => p.clone(),
        };
        let keep_vertices = match t.keep_vertices {
            Some(b) => b,
            None => true,
        };
        let keep_indices = match t.keep_indices {
            Some(b) => b,
            None => true,
        };
        Ok(
            Output::Sma {
                file_id,
                output_path,
                used_in_canvas: str_is(mode, "sma-canvas"),
                keep_vertices,
                keep_indices,
            },
        )
    } else {
        Err(
            ManifestError::OutputShape {
                tree: t.name.clone(),
                reason: "mode must be \"ui\" | \"sma-canvas\" | \"sma-renderer\"",
            },
        )
    }
}

/// The graphics of the nodes `gs` of tree `tree`: each node's, or the
/// first node's error.
pub open spec fn graphics_outcome(tree: Seq<char>, gs: Seq<RawGraphic>) -> Result<
    Seq<Option<LeafGraphicV>>,
    ManifestErrorV,
>
    decreases gs.len(),
{
    if gs.len() == 0 {
        Ok(Seq::empty())
    } else {
        match graphics_outcome(tree, gs.drop_last()) {
            Err(e) => Err(e),
            Ok(xs) => match graphic_outcome(tree, gs.last()) {
                Err(e) => Err(e),
                Ok(x) => Ok(xs.push(x)),
            },
        }
    }
}

/// Check the graphics of a tree's nodes, in order.
pub fn translate_graphics(tree: &str, gs: &[RawGraphic]) -> (r: Result<Vec<Option<LeafGraphic>>, ManifestError>)
    ensures
        match r {
            Ok(v) => graphics_outcome(tree@, gs@) == Ok::<Seq<Option<LeafGraphicV>>, ManifestErrorV>(
                v@.map_values(|g: Option<LeafGraphic>| leaf_view(g)),
            ),
            Err(e) => graphics_outcome(tree@, gs@) == Err::<Seq<Option<LeafGraphicV>>, ManifestErrorV>(e@),
        },
{
    let mut out: Vec<Option<LeafGraphic>> = Vec::new();
    let mut i: usize = 0;
    assert(gs@.take(0) =~= Seq::<RawGraphic>::empty());
    assert(out@.map_values(|g: Option<LeafGraphic>| leaf_view(g)) =~= Seq::<Option<LeafGraphicV>>::empty());
    while i < gs.len()
        invariant
            i <= gs@.len(),
            graphics_outcome(tree@, gs@.take(i as int)) == Ok::<Seq<Option<LeafGraphicV>>, ManifestErrorV>(
                out@.map_values(|g: Option<LeafGraphic>| leaf_view(g)),
            ),
        decreases gs@.len() - i,
    {
        let ghost prev = out@;
        proof {
            assert(gs@.take(i + 1).drop_last() =~= gs@.take(i as int));
            assert(gs@.take(i + 1).last() == gs@[i as int]);
        }
        match translate_graphic(tree, &gs[i]) {
            Err(e) => {
                proof {
                    lemma_graphics_outcome_err_extends(tree@, gs@, i as int + 1, e@);
                }
                return Err(e);
            },
            Ok(g) => {
                out.push(g);
                proof {
                    assert(out@.map_values(|g: Option<LeafGraphic>| leaf_view(g)) =~= prev.map_values(
                        |g: Option<LeafGraphic>| leaf_view(g),
                    ).push(leaf_view(g)));
                }
            },
        }
        i = i + 1;
    }
    assert(gs@.take(gs@.len() as int) =~= gs@);
    Ok(out)
}

/// An error among the first `k` nodes is the error of all of them.
proof fn lemma_graphics_outcome_err_extends(tree: Seq<char>, gs: Seq<RawGraphic>, k: int, e: ManifestErrorV)
    requires
        0 <= k <= gs.len(),
        graphics_outcome(tree, gs.take(k)) == Err::<Seq<Option<LeafGraphicV>>, ManifestErrorV>(e),
    ensures
        graphics_outcome(tree, gs) == Err::<Seq<Option<LeafGraphicV>>, ManifestErrorV>(e),
    decreases gs.len() - k,
{
    if k < gs.len() {
        assert(gs.take(k + 1).drop_last() =~= gs.take(k));
        lemma_graphics_outcome_err_extends(tree, gs, k + 1, e);
    } else {
        assert(gs.take(k) =~= gs);
    }
}

/// What the rules make of tree `t`, given the trees before it.
pub open spec fn tree_outcome(t: RawTree, earlier: Seq<RawTree>) -> Result<CheckedTreeV, ManifestErrorV> {
    if t.name@.len() == 0 {
        Err(ManifestErrorV::EmptyName)
    } else if exists|i: int| 0 <= i < earlier.len() && (#[trigger] earlier[i]).name@ == t.name@ {
        Err(ManifestErrorV::DuplicateName(t.name@))
    } else {
        match mode_outcome(t) {
            Err(e) => Err(e),
            Ok(o) => match graphics_outcome(t.name@, t.nodes@) {
                Err(e) => Err(e),
                Ok(gs) => Ok(CheckedTreeV { name: t.name@, output: o, graphics: gs }),
            },
        }
    }
}

/// Each tree of `ts` checked in turn, or the first tree's error.
pub open spec fn trees_outcome(ts: Seq<RawTree>) -> Result<Seq<CheckedTreeV>, ManifestErrorV>
    decreases ts.len(),
{
    if ts.len() == 0 {
        Ok(Seq::empty())
    } else {
        match trees_outcome(ts.drop_last()) {
            Err(e) => Err(e),
            Ok(xs) => match tree_outcome(ts.last(), ts.drop_last()) {
                Err(e) => Err(e),
                Ok(x) => Ok(xs.push(x)),
            },
        }
    }
}

/// What the rules make of a whole manifest: only version 1 is read; tree
/// names are non-empty and distinct.
pub open spec fn manifest_outcome(m: RawManifest) -> Result<Seq<CheckedTreeV>, ManifestErrorV> {
    if m.version != 1 {
        Err(ManifestErrorV::UnsupportedVersion(m.version))
    } else {
        trees_outcome(m.trees@)
    }
}

proof fn lemma_trees_outcome_err_extends(ts: Seq<RawTree>, k: int, e: ManifestErrorV)
    requires
        0 <= k <= ts.len(),
        trees_outcome(ts.take(k)) == Err::<Seq<CheckedTreeV>, ManifestErrorV>(e),
    ensures
        trees_outcome(ts) == Err::<Seq<CheckedTreeV>, ManifestErrorV>(e),
    decreases ts.len() - k,
{
    if k < ts.len() {
        assert(ts.take(k + 1).drop_last() =~= ts.take(k));
        lemma_trees_outcome_err_extends(ts, k + 1, e);
    } else {
        assert(ts.take(k) =~= ts);
    }
}

/// Is `name` among `seen`?
fn name_seen(seen: &Vec<String>, name: &String) -> (r: bool)
    ensures
        r == exists|i: int| 0 <= i < seen@.len() && (#[trigger] seen@[i])@ == name@,
{
    let mut i: usize = 0;
    while i < seen.len()
        invariant
            i <= seen@.len(),
            forall|k: int| 0 <= k < i ==> (#[trigger] seen@[k])@ != name@,
        decreases seen@.len() - i,
    {
        if seen[i] == *name {
            return true;
        }
        i = i + 1;
    }
    false
}

/// Check a manifest, tree by tree in file order, each tree's nodes in
/// order; the first broken rule is the error.
pub fn check_manifest(m: &RawManifest) -> (r: Result<Vec<CheckedTree>, ManifestError>)
    ensures
        match r {
            Ok(v) => manifest_outcome(*m) == Ok::<Seq<CheckedTreeV>, ManifestErrorV>(
                v@.map_values(|t: CheckedTree| t@),
            ),
            Err(e) => manifest_outcome(*m) == Err::<Seq<CheckedTreeV>, ManifestErrorV>(e@),
        },
{
    if m.version != 1 {
        return Err(ManifestError::UnsupportedVersion(m.version));
    }
    let ts = &m.trees;
    let mut seen: Vec<String> = Vec::new();
    let mut out: Vec<CheckedTree> = Vec::new();
    let mut i: usize = 0;
    assert(ts@.take(0) =~= Seq::<RawTree>::empty());
    assert(out@.map_values(|t: CheckedTree| t@) =~= Seq::<CheckedTreeV>::empty());
    while i < ts.len()
        invariant
            i <= ts@.len(),
            ts == m.trees,
            m.version == 1,
            seen@.len() == i,
            forall|k: int| 0 <= k < i ==> (#[trigger] seen@[k])@ == ts@[k].name@,
            trees_outcome(ts@.take(i as int)) == Ok::<Seq<CheckedTreeV>, ManifestErrorV>(
                out@.map_values(|t: CheckedTree| t@),
            ),
        decreases ts@.len() - i,
    {
        let t = &ts[i];
        let ghost prev = out@;
        proof {
            assert(ts@.take(i + 1).drop_last() =~= ts@.take(i as int));
            assert(ts@.take(i + 1).last() == ts@[i as int]);
        }
        let dup = name_seen(&seen, &t.name);
        proof {
            let earlier = ts@.take(i as int);
            assert(dup == exists|j: int| 0 <= j < earlier.len() && (#[trigger] earlier[j]).name@ == t.name@) by {
                if dup {
                    let j = choose|j: int| 0 <= j < seen@.len() && (#[trigger] seen@[j])@ == t.name@;
                    assert(earlier[j] == ts@[j]);
                }
                if exists|j: int| 0 <= j < earlier.len() && (#[trigger] earlier[j]).name@ == t.name@ {
                    let j = choose|j: int| 0 <= j < earlier.len() && (#[trigger] earlier[j]).name@ == t.name@;
                    assert(seen@[j]@ == t.name@);
                }
            }
        }
        let step: Result<CheckedTree, ManifestError> = if t.name.as_str().is_empty() {
            Err(ManifestError::EmptyName)
        } else if dup {
            Err(ManifestError::DuplicateName(t.name.clone()))
        } else {
            match translate_mode(t) {
                Err(e) => Err(e),
                Ok(output) => match translate_graphics(t.name.as_str(), t.nodes.as_slice()) {
                    Err(e) => Err(e),
                    Ok(graphics) => Ok(CheckedTree { name: t.name.clone(), output, graphics }),
                },
            }
        };
        match step {
            Err(e) => {
                proof {
                    assert(tree_outcome(ts@[i as int], ts@.take(i as int)) == Err::<CheckedTreeV, ManifestErrorV>(e@));
                    lemma_trees_outcome_err_extends(ts@, i as int + 1, e@);
                }
                return Err(e);
            },
            Ok(ct) => {
                proof {
                    assert(tree_outcome(ts@[i as int], ts@.take(i as int)) == Ok::<CheckedTreeV, ManifestErrorV>(ct@));
                }
                seen.push(t.name.clone());
                out.push(ct);
                proof {
                    assert(out@.map_values(|t: CheckedTree| t@) =~= prev.map_values(|t: CheckedTree| t@).push(ct@));
                }
            },
        }
        i = i + 1;
    }
    assert(ts@.take(ts@.len() as int) =~= ts@);
    Ok(out)
}

// ---------------------------------------------------------------------------
// Lowering

/// Why a checked tree cannot be lowered to the runtime form it was asked
/// for.
#[derive(Debug)]
pub enum BridgeError {
    /// The tree publishes the other output (`expected` is `csa` or `sma`).
    OutputMismatch { tree: String, expected: &'static str },
    /// A graphic the requested output cannot draw.
    GraphicMismatch { tree: String, reason: &'static str },
    /// A size-fitted method with an explicit zero width or height.
    ZeroSizeForSliceMethod { tree: String, sprite: String },
}

/// [`BridgeError`] with its texts as character sequences.
pub enum BridgeErrorV {
    OutputMismatch { tree: Seq<char>, expected: Seq<char> },
    GraphicMismatch { tree: Seq<char>, reason: Seq<char> },
    ZeroSizeForSliceMethod { tree: Seq<char>, sprite: Seq<char> },
}

impl View for BridgeError {
    type V = BridgeErrorV;

    open spec fn view(&self) -> BridgeErrorV {
        match self {
            BridgeError::OutputMismatch { tree, expected } => BridgeErrorV::OutputMismatch {
                tree: tree@,
                expected: expected@,
            },
            BridgeError::GraphicMismatch { tree, reason } => BridgeErrorV::GraphicMismatch {
                tree: tree@,
                reason: reason@,
            },
            BridgeError::ZeroSizeForSliceMethod { tree, sprite } => BridgeErrorV::ZeroSizeForSliceMethod {
                tree: tree@,
                sprite: sprite@,
            },
        }
    }
}

pub open spec fn bridge_view(r: Result<(), BridgeError>) -> Option<BridgeErrorV> {
    match r {
        Ok(_) => None,
        Err(e) => Some(e@),
    }
}

/// Why leaf `g` of tree `tree` cannot go into a CSA sprite. `zero`: the
/// node gives a size with a zero width or height.
pub open spec fn csa_leaf_error(tree: Seq<char>, g: Option<LeafGraphicV>, zero: bool) -> Option<BridgeErrorV> {
    match g {
        Some(LeafGraphicV::Sprite { sprite, method, .. }) => if zero && !spec_native_scale(spec_map_method(method)) {
            Some(BridgeErrorV::ZeroSizeForSliceMethod { tree, sprite })
        } else {
            None
        },
        Some(LeafGraphicV::SpriteRenderer { .. }) => Some(
            BridgeErrorV::GraphicMismatch { tree, reason: "sprite-renderer graphic incompatible with CSA output"@ },
        ),
        _ => None,
    }
}

/// Why leaf `g` of tree `tree` cannot go into an SMA mesh.
pub open spec fn sma_leaf_error(tree: Seq<char>, g: Option<LeafGraphicV>) -> Option<BridgeErrorV> {
    match g {
        Some(LeafGraphicV::Sprite { .. }) => Some(
            BridgeErrorV::GraphicMismatch {
                tree,
                reason: "sma output rejects CSA `sprite` graphics; use `spriteRenderer`"@,
            },
        ),
        _ => None,
    }
}

/// The first leaf error from node `k` on (`csa` picks the rule set).
pub open spec fn leaf_error_from(
    tree: Seq<char>,
    gs: Seq<Option<LeafGraphicV>>,
    zero: Seq<bool>,
    csa: bool,
    k: int,
) -> Option<BridgeErrorV>
    decreases gs.len() - k,
{
    if k < 0 || k >= gs.len() {
        None
    } else {
        let e = if csa {
            csa_leaf_error(tree, gs[k], zero[k])
        } else {
            sma_leaf_error(tree, gs[k])
        };
        match e {
            Some(x) => Some(x),
            None => leaf_error_from(tree, gs, zero, csa, k + 1),
        }
    }
}

/// What lowering a checked tree to a CSA sprite (`csa`) or an SMA mesh
/// refuses: the wrong output, else the first leaf the output cannot draw.
pub open spec fn lowering_error(t: CheckedTreeV, zero: Seq<bool>, csa: bool) -> Option<BridgeErrorV> {
    if csa && !(t.output is Csa) {
        Some(BridgeErrorV::OutputMismatch { tree: t.name, expected: "csa"@ })
    } else if !csa && !(t.output is Sma) {
        Some(BridgeErrorV::OutputMismatch { tree: t.name, expected: "sma"@ })
    } else {
        leaf_error_from(t.name, t.graphics, zero, csa, 0)
    }
}

fn leaf_error(tree: &String, g: &Option<LeafGraphic>, zero: bool, csa: bool) -> (r: Result<(), BridgeError>)
    ensures
        bridge_view(r) == (if csa {
            csa_leaf_error(tree@, leaf_view(*g), zero)
        } else {
            sma_leaf_error(tree@, leaf_view(*g))
        }),
{
    match g {
        Some(LeafGraphic::Sprite { sprite, method, .. }) => {
            if csa && zero && map_method(*method).requires_size() {
                Err(BridgeError::ZeroSizeForSliceMethod { tree: tree.clone(), sprite: sprite.clone() })
            } else if !csa {
                Err(
                    BridgeError::GraphicMismatch {
                        tree: tree.clone(),
                        reason: "sma output rejects CSA `sprite` graphics; use `spriteRenderer`",
                    },
                )
            } else {
                Ok(())
            }
        },
        Some(LeafGraphic::SpriteRenderer { .. }) => {
            if csa {
                Err(
                    BridgeError::GraphicMismatch {
                        tree: tree.clone(),
                        reason: "sprite-renderer graphic incompatible with CSA output",
                    },
                )
            } else {
                Ok(())
            }
        },
        _ => Ok(()),
    }
}

/// Can `t` be lowered to a CSA sprite (`csa`) or an SMA mesh? `zero[k]`:
/// node `k` gives a size with a zero width or height (only size-fitted
/// sprite methods refuse that).
pub fn check_lowering(t: &CheckedTree, zero: &[bool], csa: bool) -> (r: Result<(), BridgeError>)
    requires
        zero@.len() == t.graphics@.len(),
    ensures
        bridge_view(r) == lowering_error(t@, zero@, csa),
{
    let is_csa = match &t.output {
        Output::Csa => true,
        _ => false,
    };
    if csa && !is_csa {
        return Err(BridgeError::OutputMismatch { tree: t.name.clone(), expected: "csa" });
    }
    if !csa && is_csa {
        return Err(BridgeError::OutputMismatch { tree: t.name.clone(), expected: "sma" });
    }
    let ghost gs = t@.graphics;
    let mut k: usize = 0;
    while k < t.graphics.len()
        invariant
            k <= t.graphics@.len(),
            zero@.len() == t.graphics@.len(),
            gs == t@.graphics,
            gs.len() == t.graphics@.len(),
            lowering_error(t@, zero@, csa) == leaf_error_from(t.name@, gs, zero@, csa, k as int),
        decreases t.graphics@.len() - k,
    {
        assert(gs[k as int] == leaf_view(t.graphics@[k as int]));
        match leaf_error(&t.name, &t.graphics[k], zero[k], csa) {
            Err(e) => return Err(e),
            Ok(()) => {},
        }
        k = k + 1;
    }
    Ok(())
}

// ---------------------------------------------------------------------------
// Polygon colors

/// `a` sorts strictly before `b` (`String`'s order: UTF-8 bytes compare in
/// the order of the characters they encode).
pub open spec fn lex_lt(a: Seq<char>, b: Seq<char>) -> bool
    decreases a.len(),
{
    if a.len() == 0 {
        b.len() > 0
    } else if b.len() == 0 {
        false
    } else if a[0] != b[0] {
        a[0] < b[0]
    } else {
        lex_lt(a.drop_first(), b.drop_first())
    }
}

pub proof fn lemma_lex_irreflexive(a: Seq<char>)
    ensures
        !lex_lt(a, a),
    decreases a.len(),
{
    if a.len() > 0 {
        lemma_lex_irreflexive(a.drop_first());
    }
}

pub proof fn lemma_lex_total(a: Seq<char>, b: Seq<char>)
    ensures
        a != b ==> lex_lt(a, b) || lex_lt(b, a),
        !(lex_lt(a, b) && lex_lt(b, a)),
    decreases a.len(),
{
    if a.len() > 0 && b.len() > 0 {
        lemma_lex_total(a.drop_first(), b.drop_first());
        if a[0] == b[0] && a != b {
            assert(a =~= seq![a[0]] + a.drop_first());
            assert(b =~= seq![b[0]] + b.drop_first());
        }
    } else if a.len() == 0 && b.len() == 0 {
        assert(a =~= b);
    }
}

pub proof fn lemma_lex_transitive(a: Seq<char>, b: Seq<char>, c: Seq<char>)
    requires
        lex_lt(a, b),
        lex_lt(b, c),
    ensures
        lex_lt(a, c),
    decreases a.len(),
{
    if a.len() > 0 && b.len() > 0 && c.len() > 0 {
        if a[0] == b[0] && b[0] == c[0] {
            lemma_lex_transitive(a.drop_first(), b.drop_first(), c.drop_first());
        }
    }
}

/// `lex_lt` reads on past a common character.
proof fn lemma_lex_skip(a: Seq<char>, b: Seq<char>, i: int)
    requires
        0 <= i < a.len(),
        i < b.len(),
        a[i] == b[i],
    ensures
        lex_lt(a.skip(i), b.skip(i)) == lex_lt(a.skip(i + 1), b.skip(i + 1)),
{
    assert(a.skip(i).drop_first() =~= a.skip(i + 1));
    assert(b.skip(i).drop_first() =~= b.skip(i + 1));
}

fn lex_less(a: &[char], b: &[char]) -> (r: bool)
    ensures
        r == lex_lt(a@, b@),
{
    let mut i: usize = 0;
    assert(a@.skip(0) =~= a@);
    assert(b@.skip(0) =~= b@);
    while i < a.len() && i < b.len() && a[i] == b[i]
        invariant
            i <= a@.len(),
            i <= b@.len(),
            lex_lt(a@, b@) == lex_lt(a@.skip(i as int), b@.skip(i as int)),
        decreases a@.len() - i,
    {
        proof {
            lemma_lex_skip(a@, b@, i as int);
        }
        i = i + 1;
    }
    if i == a.len() {
        i < b.len()
    } else if i == b.len() {
        false
    } else {
        assert(a@.skip(i as int)[0] == a@[i as int]);
        assert(b@.skip(i as int)[0] == b@[i as int]);
        a[i] < b[i]
    }
}

/// Some polygon leaf of `trees` is drawn with the atlas entry `n`.
pub open spec fn polygon_named(trees: Seq<CheckedTree>, n: Seq<char>) -> bool {
    exists|t: int, k: int|
        0 <= t < trees.len() && 0 <= k < trees[t].graphics@.len() && #[trigger] polygon_of(trees[t].graphics@[k])
            == Some(n)
}

pub open spec fn polygon_of(g: Option<LeafGraphic>) -> Option<Seq<char>> {
    match g {
        Some(LeafGraphic::Polygon { polygon_sprite }) => Some(polygon_sprite@),
        _ => None,
    }
}

/// Strictly increasing, so also free of repeats.
pub open spec fn sorted_strict(v: Seq<String>) -> bool {
    forall|i: int, j: int| 0 <= i < j < v.len() ==> lex_lt(#[trigger] v[i]@, #[trigger] v[j]@)
}

pub open spec fn listed(v: Seq<String>, n: Seq<char>) -> bool {
    exists|i: int| 0 <= i < v.len() && (#[trigger] v[i])@ == n
}

/// Add `x` to the strictly sorted `out`, unless it is there already.
#[verifier::spinoff_prover]
fn insert_sorted(out: &mut Vec<String>, x: &String)
    requires
        sorted_strict(old(out)@),
    ensures
        sorted_strict(final(out)@),
        forall|n: Seq<char>| listed(final(out)@, n) <==> (listed(old(out)@, n) || n == x@),
{
    let xs = chars_of(x.as_str());
    let mut p: usize = 0;
    while p < out.len() && lex_less(chars_of(out[p].as_str()).as_slice(), xs.as_slice())
        invariant
            p <= out@.len(),
            xs@ == x@,
            out@ == old(out)@,
            forall|i: int| 0 <= i < p ==> lex_lt((#[trigger] out@[i])@, x@),
        decreases out@.len() - p,
    {
        p = p + 1;
    }
    if p < out.len() && out[p] == *x {
        assert(out@[p as int]@ == x@);
        return;
    }
    let ghost before = out@;
    proof {
        if p < before.len() {
            lemma_lex_total(before[p as int]@, x@);
        }
    }
    out.insert(p, x.clone());
    proof {
        assert forall|i: int, j: int| 0 <= i < j < out@.len() implies lex_lt(#[trigger] out@[i]@, #[trigger] out@[j]@) by {
            if j < p {
                assert(out@[i] == before[i] && out@[j] == before[j]);
            } else if j == p {
                assert(out@[i] == before[i]);
            } else if i < p {
                assert(out@[i] == before[i] && out@[j] == before[j - 1]);
                assert(lex_lt(x@, before[p as int]@));
                if j - 1 > p {
                    lemma_lex_transitive(x@, before[p as int]@, before[j - 1]@);
                }
                lemma_lex_transitive(before[i]@, x@, before[j - 1]@);
            } else if i == p {
                assert(out@[j] == before[j - 1]);
                assert(lex_lt(x@, before[p as int]@));
                if j - 1 > p {
                    lemma_lex_transitive(x@, before[p as int]@, before[j - 1]@);
                }
            } else {
                assert(out@[i] == before[i - 1] && out@[j] == before[j - 1]);
            }
        }
        assert forall|n: Seq<char>| listed(out@, n) <==> (listed(before, n) || n == x@) by {
            if listed(out@, n) {
                let i = choose|i: int| 0 <= i < out@.len() && (#[trigger] out@[i])@ == n;
                if i < p {
                    assert(out@[i] == before[i]);
                } else if i > p {
                    assert(out@[i] == before[i - 1]);
                }
            }
            if listed(before, n) {
                let i = choose|i: int| 0 <= i < before.len() && (#[trigger] before[i])@ == n;
                if i < p {
                    assert(out@[i] == before[i]);
                } else {
                    assert(out@[i + 1] == before[i]);
                }
            }
            if n == x@ {
                assert(out@[p as int]@ == n);
            }
        }
        assert(before == old(out)@);
        assert(forall|n: Seq<char>| listed(out@, n) <==> (listed(old(out)@, n) || n == x@));
    }
}

/// Every atlas entry drawn by a polygon leaf of `trees`, sorted and
/// without repeats: the `Color_*` swatches the atlas must contain.
pub fn polygon_sprite_names(trees: &[CheckedTree]) -> (r: Vec<String>)
    ensures
        sorted_strict(r@),
        forall|n: Seq<char>| listed(r@, n) <==> polygon_named(trees@, n),
{
    let mut out: Vec<String> = Vec::new();
    let mut t: usize = 0;
    while t < trees.len()
        invariant
            t <= trees@.len(),
            sorted_strict(out@),
            forall|n: Seq<char>| #[trigger] listed(out@, n) <==> polygon_named(trees@.take(t as int), n),
        decreases trees@.len() - t,
    {
        let gs = &trees[t].graphics;
        let ghost pre = trees@.take(t as int);
        let ghost post = trees@.take(t + 1);
        let mut k: usize = 0;
        while k < gs.len()
            invariant
                t < trees@.len(),
                gs == trees@[t as int].graphics,
                pre == trees@.take(t as int),
                post == trees@.take(t + 1),
                k <= gs@.len(),
                sorted_strict(out@),
                forall|n: Seq<char>| #[trigger] listed(out@, n) <==> (polygon_named(pre, n) || exists|j: int|
                    0 <= j < k && #[trigger] polygon_of(gs@[j]) == Some(n)),
            decreases gs@.len() - k,
        {
            let ghost before = out@;
            match &gs[k] {
                Some(LeafGraphic::Polygon { polygon_sprite }) => {
                    insert_sorted(&mut out, polygon_sprite);
                    proof {
                        assert(polygon_of(gs@[k as int]) == Some(polygon_sprite@));
                        assert forall|n: Seq<char>| #[trigger] listed(out@, n) <==> (polygon_named(pre, n) || exists|j: int|
                            0 <= j < k + 1 && #[trigger] polygon_of(gs@[j]) == Some(n)) by {
                            if exists|j: int| 0 <= j < k + 1 && #[trigger] polygon_of(gs@[j]) == Some(n) {
                                let j = choose|j: int| 0 <= j < k + 1 && #[trigger] polygon_of(gs@[j]) == Some(n);
                                if j < k {
                                    assert(listed(before, n));
                                } else {
                                    assert(n == polygon_sprite@);
                                }
                            }
                            if listed(before, n) {
                                if !polygon_named(pre, n) {
                                    let j = choose|j: int| 0 <= j < k && #[trigger] polygon_of(gs@[j]) == Some(n);
                                    assert(0 <= j < k + 1);
                                }
                            }
                            if n == polygon_sprite@ {
                                assert(polygon_of(gs@[k as int]) == Some(n));
                            }
                        }
                    }
                },
                _ => {
                    proof {
                        assert(polygon_of(gs@[k as int]) == None::<Seq<char>>);
                        assert forall|n: Seq<char>| #[trigger] listed(out@, n) <==> (polygon_named(pre, n) || exists|j: int|
                            0 <= j < k + 1 && #[trigger] polygon_of(gs@[j]) == Some(n)) by {
                            if exists|j: int| 0 <= j < k + 1 && #[trigger] polygon_of(gs@[j]) == Some(n) {
                                let j = choose|j: int| 0 <= j < k + 1 && #[trigger] polygon_of(gs@[j]) == Some(n);
                                assert(j < k);
                            }
                            if listed(out@, n) && !polygon_named(pre, n) {
                                let j = choose|j: int| 0 <= j < k && #[trigger] polygon_of(gs@[j]) == Some(n);
                                assert(0 <= j < k + 1);
                            }
                        }
                    }
                },
            }
            k = k + 1;
        }
        proof {
            assert forall|n: Seq<char>| polygon_named(post, n) <==> (polygon_named(pre, n) || exists|j: int|
                0 <= j < gs@.len() && #[trigger] polygon_of(gs@[j]) == Some(n)) by {
                if polygon_named(post, n) {
                    let (a, j) = choose|a: int, j: int|
                        0 <= a < post.len() && 0 <= j < post[a].graphics@.len() && #[trigger] polygon_of(
                            post[a].graphics@[j],
                        ) == Some(n);
                    if a < t {
                        assert(post[a] == pre[a]);
                    } else {
                        assert(post[a] == trees@[t as int]);
                    }
                }
                if polygon_named(pre, n) {
                    let (a, j) = choose|a: int, j: int|
                        0 <= a < pre.len() && 0 <= j < pre[a].graphics@.len() && #[trigger] polygon_of(
                            pre[a].graphics@[j],
                        ) == Some(n);
                    assert(post[a] == pre[a]);
                }
                if exists|j: int| 0 <= j < gs@.len() && #[trigger] polygon_of(gs@[j]) == Some(n) {
                    let j = choose|j: int| 0 <= j < gs@.len() && #[trigger] polygon_of(gs@[j]) == Some(n);
                    assert(post[t as int] == trees@[t as int]);
                    assert(polygon_of(post[t as int].graphics@[j]) == Some(n));
                }
            }
        }
        t = t + 1;
    }
    assert(trees@.take(trees@.len() as int) =~= trees@);
    out
}

// ---------------------------------------------------------------------------
// Writing back

/// The authored name of a method, as the manifest writes it.
pub fn method_str(m: SpriteMethod) -> (s: &'static str)
    ensures
        s@ == sprite_method_name(m),
{
    map_method(m).name()
}

pub open spec fn draw_mode_name(d: DrawMode) -> Seq<char> {
    match d {
        DrawMode::Simple => "simple"@,
        DrawMode::Tiled => "tiled"@,
    }
}

/// The `drawMode` value of a draw mode.
pub fn draw_mode_str(d: DrawMode) -> (s: &'static str)
    ensures
        s@ == draw_mode_name(d),
{
    match d {
        DrawMode::Simple => "simple",
        DrawMode::Tiled => "tiled",
    }
}

pub open spec fn mode_name(o: OutputV) -> Seq<char> {
    match o {
        OutputV::Csa => "ui"@,
        OutputV::Sma { used_in_canvas, .. } => if used_in_canvas {
            "sma-canvas"@
        } else {
            "sma-renderer"@
        },
    }
}

/// The `mode` value that publishes `o`.
pub fn mode_str(o: &Output) -> (s: &'static str)
    ensures
        s@ == mode_name(o@),
{
    match o {
        Output::Csa => "ui",
        Output::Sma { used_in_canvas, .. } => if *used_in_canvas {
            "sma-canvas"
        } else {
            "sma-renderer"
        },
    }
}

pub open spec fn opt_is(o: Option<String>, v: Seq<char>) -> bool {
    o matches Some(x) && x@ == v
}

/// The fields that the manifest writes for graphic `g`: the defaults
/// (`ID`, `simple`, no flip) are left out, and a polygon's color is its
/// entry name without `Color_`.
pub open spec fn raw_describes(r: RawGraphic, g: LeafGraphicV) -> bool {
    match g {
        LeafGraphicV::Sprite { sprite, method, flip_x, flip_y } => {
            &&& opt_is(r.kind, "sprite"@)
            &&& opt_is(r.sprite, sprite)
            &&& if method == SpriteMethod::Id {
                r.method is None
            } else {
                opt_is(r.method, sprite_method_name(method))
            }
            &&& r.flip_x == (if flip_x { Some(true) } else { None::<bool> })
            &&& r.flip_y == (if flip_y { Some(true) } else { None::<bool> })
            &&& r.color is None && r.draw_mode is None
        },
        LeafGraphicV::Polygon { polygon_sprite } => {
            &&& opt_is(r.kind, "polygon"@)
            &&& opt_is(
                r.color,
                match strip_prefix(polygon_sprite, "Color_"@) {
                    Some(c) => c,
                    None => polygon_sprite,
                },
            )
            &&& r.sprite is None && r.method is None && r.flip_x is None && r.flip_y is None && r.draw_mode is None
        },
        LeafGraphicV::SpriteRenderer { sprite, draw_mode } => {
            &&& opt_is(r.kind, "spriteRenderer"@)
            &&& opt_is(r.sprite, sprite)
            &&& if draw_mode == DrawMode::Simple {
                r.draw_mode is None
            } else {
                opt_is(r.draw_mode, draw_mode_name(draw_mode))
            }
            &&& r.method is None && r.flip_x is None && r.flip_y is None && r.color is None
        },
    }
}

fn some_text(s: &str) -> (r: Option<String>)
    ensures
        opt_is(r, s@),
{
    Some(s.to_owned())
}

/// What the manifest writes for a node's graphic (`None`: a container).
/// `vertex_count`: how many vertices a polygon lists.
pub fn raw_graphic_of(g: &Option<LeafGraphic>, vertex_count: usize) -> (r: RawGraphic)
    ensures
        r.vertex_count == vertex_count,
        match g {
            Some(x) => raw_describes(r, x@),
            None => r.kind is None,
        },
{
    let mut r = RawGraphic {
        kind: None,
        sprite: None,
        method: None,
        flip_x: None,
        flip_y: None,
        color: None,
        vertex_count,
        draw_mode: None,
    };
    match g {
        None => {},
        Some(LeafGraphic::Sprite { sprite, method, flip_x, flip_y }) => {
            r.kind = some_text("sprite");
            r.sprite = Some(sprite.clone());
            if *method != SpriteMethod::Id {
                r.method = some_text(method_str(*method));
            }
            if *flip_x {
                r.flip_x = Some(true);
            }
            if *flip_y {
                r.flip_y = Some(true);
            }
        },
        Some(LeafGraphic::Polygon { polygon_sprite }) => {
            r.kind = some_text("polygon");
            let cs = chars_of(polygon_sprite.as_str());
            let pfx = chars_of("Color_");
            if starts_with(cs.as_slice(), pfx.as_slice()) {
                let rest = sub_chars(cs.as_slice(), pfx.len(), cs.len());
                assert(rest@ =~= polygon_sprite@.skip("Color_"@.len() as int));
                r.color = Some(string_of(rest.as_slice()));
            } else {
                r.color = Some(polygon_sprite.clone());
            }
        },
        Some(LeafGraphic::SpriteRenderer { sprite, draw_mode }) => {
            r.kind = some_text("spriteRenderer");
            r.sprite = Some(sprite.clone());
            if *draw_mode != DrawMode::Simple {
                r.draw_mode = some_text(draw_mode_str(*draw_mode));
            }
        },
    }
    r
}

/// A graphic the rules can produce: a polygon's entry is `Color_` and an
/// upper-case valid color.
pub open spec fn graphic_well_formed(g: LeafGraphicV) -> bool {
    match g {
        LeafGraphicV::Polygon { polygon_sprite } => exists|c: Seq<char>|
            color_valid(c) && ascii_upper(c) == c && polygon_sprite == #[trigger] color_sprite_name(c),
        _ => true,
    }
}

/// Every graphic the rules accept is well formed.
pub proof fn lemma_graphic_outcome_well_formed(tree: Seq<char>, g: RawGraphic)
    ensures
        graphic_outcome(tree, g) matches Ok(Some(x)) ==> graphic_well_formed(x),
{
    if graphic_outcome(tree, g) matches Ok(Some(LeafGraphicV::Polygon { .. })) {
        reveal_strlit("sprite");
        reveal_strlit("polygon");
        reveal_strlit("spriteRenderer");
        reveal_strlit("sprite-renderer");
        let c = g.color->0@;
        lemma_upper_idempotent(c);
        lemma_upper_keeps_color_valid(c);
        let u = ascii_upper(c);
        assert(color_valid(u) && ascii_upper(u) == u);
        assert(graphic_outcome(tree, g) == Ok::<Option<LeafGraphicV>, ManifestErrorV>(
            Some(LeafGraphicV::Polygon { polygon_sprite: color_sprite_name(u) }),
        ));
    }
}

proof fn lemma_upper_idempotent(c: Seq<char>)
    ensures
        ascii_upper(ascii_upper(c)) == ascii_upper(c),
{
    assert(ascii_upper(ascii_upper(c)) =~= ascii_upper(c));
}

/// Upper-casing keeps every byte a hex digit (ASCII stays ASCII).
proof fn lemma_upper_keeps_color_valid(c: Seq<char>)
    requires
        color_valid(c),
    ensures
        color_valid(ascii_upper(c)),
{
    lemma_encode_ascii_hex(c);
    assert forall|i: int| 0 <= i < ascii_upper(c).len() implies is_hex_char(#[trigger] ascii_upper(c)[i]) by {
        assert(is_hex_char(c[i]));
    }
    lemma_encode_hex_chars(ascii_upper(c));
}

/// A hex digit character.
pub open spec fn is_hex_char(ch: char) -> bool {
    ('0' <= ch <= '9') || ('A' <= ch <= 'F') || ('a' <= ch <= 'f')
}

proof fn lemma_hex_char_of_byte(ch: char, b: u8)
    requires
        b as u32 == ch as u32,
        is_hex_byte(b),
    ensures
        is_hex_char(ch),
{
    assert('0' as u32 == 0x30 && '9' as u32 == 0x39 && 'A' as u32 == 0x41 && 'F' as u32 == 0x46);
    assert('a' as u32 == 0x61 && 'f' as u32 == 0x66);
}

/// Bytes that are all hex digits are hex-digit characters one for one.
proof fn lemma_encode_ascii_hex(c: Seq<char>)
    requires
        forall|i: int| 0 <= i < vstd::utf8::encode_utf8(c).len() ==> is_hex_byte(#[trigger] vstd::utf8::encode_utf8(c)[i]),
    ensures
        vstd::utf8::encode_utf8(c).len() == c.len(),
        forall|i: int| 0 <= i < c.len() ==> is_hex_char(#[trigger] c[i]),
    decreases c.len(),
{
    if c.len() > 0 {
        let b = vstd::utf8::encode_utf8(c);
        let x = c[0] as u32;
        let e = vstd::utf8::encode_scalar(x);
        let rest = vstd::utf8::encode_utf8(c.drop_first());
        assert(b == e + rest);
        assert(e.len() >= 1);
        assert(b[0] == e[0]);
        assert(is_hex_byte(e[0]));
        assert(vstd::utf8::has_width_1_encoding(x)) by {
            if !vstd::utf8::has_width_1_encoding(x) {
                let e0: u8 = e[0];
                assert(e0 >= 0xC0) by (bit_vector)
                    requires
                        e0 == vstd::utf8::leading_byte_width_2(x) || e0 == vstd::utf8::leading_byte_width_3(x)
                            || e0 == vstd::utf8::leading_byte_width_4(x),
                ;
            }
        }
        assert(e.len() == 1);
        let e0: u8 = e[0];
        assert(e0 as u32 == x) by (bit_vector)
            requires
                e0 == vstd::utf8::leading_byte_width_1(x),
                vstd::utf8::has_width_1_encoding(x),
        ;
        lemma_hex_char_of_byte(c[0], e0);
        assert forall|i: int| 0 <= i < rest.len() implies is_hex_byte(#[trigger] rest[i]) by {
            assert(rest[i] == b[i + 1]);
        }
        lemma_encode_ascii_hex(c.drop_first());
        assert forall|i: int| 0 <= i < c.len() implies is_hex_char(#[trigger] c[i]) by {
            if i > 0 {
                assert(c[i] == c.drop_first()[i - 1]);
            }
        }
    }
}

/// Hex-digit characters encode to themselves, one byte each.
proof fn lemma_encode_hex_chars(c: Seq<char>)
    requires
        forall|i: int| 0 <= i < c.len() ==> is_hex_char(#[trigger] c[i]),
    ensures
        vstd::utf8::encode_utf8(c).len() == c.len(),
        forall|i: int| 0 <= i < c.len() ==> is_hex_byte(#[trigger] vstd::utf8::encode_utf8(c)[i]),
    decreases c.len(),
{
    if c.len() > 0 {
        let x = c[0] as u32;
        assert(is_hex_char(c[0]));
        assert(vstd::utf8::has_width_1_encoding(x));
        assert((x & 0x7F) == x) by (bit_vector)
            requires
                vstd::utf8::has_width_1_encoding(x),
        ;
        let d = c.drop_first();
        assert forall|i: int| 0 <= i < d.len() implies is_hex_char(#[trigger] d[i]) by {
            assert(d[i] == c[i + 1]);
        }
        lemma_encode_hex_chars(d);
        let b = vstd::utf8::encode_utf8(c);
        assert forall|i: int| 0 <= i < c.len() implies is_hex_byte(#[trigger] b[i]) by {
            if i > 0 {
                assert(b[i] == vstd::utf8::encode_utf8(d)[i - 1]);
            }
        }
    }
}

/// Writing a well-formed graphic and reading it back gives the graphic.
pub proof fn lemma_graphic_round_trip(tree: Seq<char>, g: LeafGraphicV, r: RawGraphic)
    requires
        graphic_well_formed(g),
        raw_describes(r, g),
        g is Polygon ==> r.vertex_count >= 3,
    ensures
        graphic_outcome(tree, r) == Ok::<Option<LeafGraphicV>, ManifestErrorV>(Some(g)),
{
    reveal_strlit("sprite");
    reveal_strlit("polygon");
    reveal_strlit("spriteRenderer");
    reveal_strlit("sprite-renderer");
    reveal_strlit("simple");
    reveal_strlit("tiled");
    reveal_strlit("ID");
    assert("sprite"@.len() == 6);
    assert("polygon"@.len() == 7);
    assert("spriteRenderer"@.len() == 14);
    assert("sprite-renderer"@.len() == 15);
    assert("simple"@.len() == 6);
    assert("tiled"@.len() == 5);
    match g {
        LeafGraphicV::Sprite { sprite, method, flip_x, flip_y } => {
            let ms = match r.method {
                Some(m) => m@,
                None => "ID"@,
            };
            assert(ms == sprite_method_name(method));
            assert(exists|m: SpriteMethod| sprite_method_name(m) == ms);
            let c = choose|m: SpriteMethod| sprite_method_name(m) == ms;
            lemma_sprite_method_names_distinct(c, method);
            assert(c == method);
            assert(r.kind->0@ == "sprite"@);
            assert(opt_or(r.flip_x, false) == flip_x);
            assert(opt_or(r.flip_y, false) == flip_y);
            assert(r.sprite->0@ == sprite);
            assert(graphic_outcome(tree, r) == Ok::<Option<LeafGraphicV>, ManifestErrorV>(
                Some(LeafGraphicV::Sprite { sprite: r.sprite->0@, method: c, flip_x: opt_or(r.flip_x, false), flip_y: opt_or(r.flip_y, false) }),
            ));
            assert(LeafGraphicV::Sprite { sprite: r.sprite->0@, method: c, flip_x: opt_or(r.flip_x, false), flip_y: opt_or(r.flip_y, false) } == g);
        },
        LeafGraphicV::Polygon { polygon_sprite } => {
            let c = choose|c: Seq<char>|
                color_valid(c) && ascii_upper(c) == c && polygon_sprite == #[trigger] color_sprite_name(c);
            reveal_strlit("Color_");
            assert(has_prefix(polygon_sprite, "Color_"@)) by {
                assert(polygon_sprite.subrange(0, 6) =~= "Color_"@);
            }
            assert(polygon_sprite.skip(6) =~= c);
            assert(r.color->0@ == c);
        },
        LeafGraphicV::SpriteRenderer { .. } => {},
    }
}

/// The tree-level fields that the manifest writes for output `o`: SMA
/// trees spell out all four SMA fields, CSA trees none.
pub open spec fn raw_mode_describes(t: RawTree, o: OutputV) -> bool {
    &&& t.mode@ == mode_name(o)
    &&& match o {
        OutputV::Csa => t.file_id is None && t.output_path is None && t.keep_vertices is None && t.keep_indices
            is None,
        OutputV::Sma { file_id, output_path, keep_vertices, keep_indices, .. } => {
            &&& t.file_id == Some(file_id)
            &&& opt_is(t.output_path, output_path)
            &&& t.keep_vertices == Some(keep_vertices)
            &&& t.keep_indices == Some(keep_indices)
        },
    }
}

/// Writing an output and reading it back gives the output.
pub proof fn lemma_mode_round_trip(t: RawTree, o: OutputV)
    requires
        raw_mode_describes(t, o),
    ensures
        mode_outcome(t) == Ok::<OutputV, ManifestErrorV>(o),
{
    reveal_strlit("ui");
    reveal_strlit("sma-canvas");
    reveal_strlit("sma-renderer");
    assert("ui"@.len() == 2);
    assert("sma-canvas"@.len() == 10);
    assert("sma-renderer"@.len() == 12);
}

/// What the manifest writes for tree `t`: its name, output fields and
/// one node per graphic.
pub open spec fn raw_tree_describes(r: RawTree, t: CheckedTreeV) -> bool {
    &&& r.name@ == t.name
    &&& raw_mode_describes(r, t.output)
    &&& r.nodes@.len() == t.graphics.len()
    &&& forall|k: int| 0 <= k < t.graphics.len() ==> #[trigger] node_describes(r.nodes@[k], t.graphics[k])
}

pub open spec fn node_describes(r: RawGraphic, g: Option<LeafGraphicV>) -> bool {
    match g {
        Some(x) => raw_describes(r, x) && (x is Polygon ==> r.vertex_count >= 3),
        None => r.kind is None,
    }
}

pub open spec fn tree_well_formed(t: CheckedTreeV) -> bool {
    &&& t.name.len() > 0
    &&& forall|k: int| 0 <= k < t.graphics.len() ==> (#[trigger] t.graphics[k] matches Some(g) ==> graphic_well_formed(g))
}

proof fn lemma_graphics_round_trip(tree: Seq<char>, rs: Seq<RawGraphic>, gs: Seq<Option<LeafGraphicV>>)
    requires
        rs.len() == gs.len(),
        forall|k: int| 0 <= k < gs.len() ==> #[trigger] node_describes(rs[k], gs[k]),
        forall|k: int| 0 <= k < gs.len() ==> (#[trigger] gs[k] matches Some(g) ==> graphic_well_formed(g)),
    ensures
        graphics_outcome(tree, rs) == Ok::<Seq<Option<LeafGraphicV>>, ManifestErrorV>(gs),
    decreases rs.len(),
{
    if rs.len() > 0 {
        let n = rs.len() - 1;
        assert forall|k: int| 0 <= k < gs.drop_last().len() implies #[trigger] node_describes(
            rs.drop_last()[k],
            gs.drop_last()[k],
        ) by {
            assert(node_describes(rs[k], gs[k]));
        }
        assert forall|k: int| 0 <= k < gs.drop_last().len() implies (#[trigger] gs.drop_last()[k] matches Some(g)
            ==> graphic_well_formed(g)) by {
            assert(gs[k] matches Some(g) ==> graphic_well_formed(g));
        }
        lemma_graphics_round_trip(tree, rs.drop_last(), gs.drop_last());
        assert(node_describes(rs[n], gs[n]));
        assert(gs[n] matches Some(g) ==> graphic_well_formed(g));
        match gs[n] {
            Some(g) => lemma_graphic_round_trip(tree, g, rs[n]),
            None => {},
        }
        assert(gs.drop_last().push(gs[n]) =~= gs);
    } else {
        assert(gs =~= Seq::<Option<LeafGraphicV>>::empty());
    }
}

/// Writing well-formed trees with distinct names and reading them back
/// gives the same trees: the editor's save / load round trip.
pub proof fn lemma_manifest_round_trip(m: RawManifest, ts: Seq<CheckedTreeV>)
    requires
        m.version == 1,
        m.trees@.len() == ts.len(),
        forall|i: int| 0 <= i < ts.len() ==> #[trigger] raw_tree_describes(m.trees@[i], ts[i]),
        forall|i: int| 0 <= i < ts.len() ==> #[trigger] tree_well_formed(ts[i]),
        forall|i: int, j: int| 0 <= i < j < ts.len() ==> (#[trigger] ts[i]).name != (#[trigger] ts[j]).name,
    ensures
        manifest_outcome(m) == Ok::<Seq<CheckedTreeV>, ManifestErrorV>(ts),
{
    lemma_trees_round_trip(m.trees@, ts);
}

proof fn lemma_trees_round_trip(rs: Seq<RawTree>, ts: Seq<CheckedTreeV>)
    requires
        rs.len() == ts.len(),
        forall|i: int| 0 <= i < ts.len() ==> #[trigger] raw_tree_describes(rs[i], ts[i]),
        forall|i: int| 0 <= i < ts.len() ==> #[trigger] tree_well_formed(ts[i]),
        forall|i: int, j: int| 0 <= i < j < ts.len() ==> (#[trigger] ts[i]).name != (#[trigger] ts[j]).name,
    ensures
        trees_outcome(rs) == Ok::<Seq<CheckedTreeV>, ManifestErrorV>(ts),
    decreases rs.len(),
{
    if rs.len() > 0 {
        let n = rs.len() - 1;
        let rp = rs.drop_last();
        let tp = ts.drop_last();
        assert forall|i: int| 0 <= i < tp.len() implies #[trigger] raw_tree_describes(rp[i], tp[i]) by {
            assert(raw_tree_describes(rs[i], ts[i]));
        }
        assert forall|i: int| 0 <= i < tp.len() implies #[trigger] tree_well_formed(tp[i]) by {
            assert(tree_well_formed(ts[i]));
        }
        assert forall|i: int, j: int| 0 <= i < j < tp.len() implies (#[trigger] tp[i]).name != (#[trigger] tp[j]).name by {
            assert(ts[i].name != ts[j].name);
        }
        lemma_trees_round_trip(rp, tp);
        let r = rs[n];
        let t = ts[n];
        assert(raw_tree_describes(r, t));
        assert(tree_well_formed(t));
        assert(!exists|i: int| 0 <= i < rp.len() && (#[trigger] rp[i]).name@ == r.name@) by {
            if exists|i: int| 0 <= i < rp.len() && (#[trigger] rp[i]).name@ == r.name@ {
                let i = choose|i: int| 0 <= i < rp.len() && (#[trigger] rp[i]).name@ == r.name@;
                assert(raw_tree_describes(rs[i], ts[i]));
                assert(ts[i].name != ts[n].name);
            }
        }
        lemma_mode_round_trip(r, t.output);
        assert forall|k: int| 0 <= k < t.graphics.len() implies (#[trigger] t.graphics[k] matches Some(g)
            ==> graphic_well_formed(g)) by {}
        lemma_graphics_round_trip(t.name, r.nodes@, t.graphics);
        assert(tree_outcome(r, rp) == Ok::<CheckedTreeV, ManifestErrorV>(
            CheckedTreeV { name: t.name, output: t.output, graphics: t.graphics },
        ));
        assert(tp.push(t) =~= ts);
    } else {
        assert(ts =~= Seq::<CheckedTreeV>::empty());
    }
}

/// What the manifest writes for checked tree `t` (apart from node
/// transforms): `vertex_counts[k]` is how many vertices node `k` lists.
pub fn raw_tree_of(t: &CheckedTree, vertex_counts: &[usize]) -> (r: RawTree)
    requires
        vertex_counts@.len() == t.graphics@.len(),
        forall|k: int|
            0 <= k < t.graphics@.len() ==> (#[trigger] t.graphics@[k] matches Some(LeafGraphic::Polygon { .. })
                ==> vertex_counts@[k] >= 3),
    ensures
        raw_tree_describes(r, t@),
{
    let mut nodes: Vec<RawGraphic> = Vec::new();
    let mut k: usize = 0;
    while k < t.graphics.len()
        invariant
            k <= t.graphics@.len(),
            vertex_counts@.len() == t.graphics@.len(),
            forall|j: int|
                0 <= j < t.graphics@.len() ==> (#[trigger] t.graphics@[j] matches Some(LeafGraphic::Polygon { .. })
                    ==> vertex_counts@[j] >= 3),
            nodes@.len() == k,
            forall|j: int| 0 <= j < k ==> #[trigger] node_describes(nodes@[j], leaf_view(t.graphics@[j])),
        decreases t.graphics@.len() - k,
    {
        let g = raw_graphic_of(&t.graphics[k], vertex_counts[k]);
        proof {
            assert(node_describes(g, leaf_view(t.graphics@[k as int])));
        }
        nodes.push(g);
        k = k + 1;
    }
    let (file_id, output_path, keep_vertices, keep_indices) = match &t.output {
        Output::Csa => (None, None, None, None),
        Output::Sma { file_id, output_path, keep_vertices, keep_indices, .. } => (
            Some(*file_id),
            Some(output_path.clone()),
            Some(*keep_vertices),
            Some(*keep_indices),
        ),
    };
    let r = RawTree {
        name: t.name.clone(),
        mode: mode_str(&t.output).to_owned(),
        file_id,
        output_path,
        keep_vertices,
        keep_indices,
        nodes,
    };
    proof {
        assert forall|j: int| 0 <= j < t@.graphics.len() implies #[trigger] node_describes(r.nodes@[j], t@.graphics[j]) by {
            assert(node_describes(r.nodes@[j], leaf_view(t.graphics@[j])));
        }
    }
    r
}

proof fn lemma_graphics_outcome_well_formed(tree: Seq<char>, gs: Seq<RawGraphic>)
    ensures
        graphics_outcome(tree, gs) matches Ok(xs) ==> xs.len() == gs.len() && forall|k: int|
            0 <= k < xs.len() ==> (#[trigger] xs[k] matches Some(g) ==> graphic_well_formed(g)),
    decreases gs.len(),
{
    if gs.len() > 0 {
        lemma_graphics_outcome_well_formed(tree, gs.drop_last());
        lemma_graphic_outcome_well_formed(tree, gs.last());
        if graphics_outcome(tree, gs) is Ok {
            let xs = graphics_outcome(tree, gs)->Ok_0;
            let ys = graphics_outcome(tree, gs.drop_last())->Ok_0;
            assert forall|k: int| 0 <= k < xs.len() implies (#[trigger] xs[k] matches Some(g) ==> graphic_well_formed(g)) by {
                if k < ys.len() {
                    assert(xs[k] == ys[k]);
                }
            }
        }
    }
}

/// Everything the rules accept can be written back and read again: the
/// trees are well formed and their names distinct.
pub proof fn lemma_manifest_outcome_well_formed(m: RawManifest)
    ensures
        manifest_outcome(m) matches Ok(ts) ==> {
            &&& forall|i: int| 0 <= i < ts.len() ==> #[trigger] tree_well_formed(ts[i])
            &&& forall|i: int, j: int| 0 <= i < j < ts.len() ==> (#[trigger] ts[i]).name != (#[trigger] ts[j]).name
        },
{
    lemma_trees_outcome_well_formed(m.trees@);
}

proof fn lemma_trees_outcome_well_formed(rs: Seq<RawTree>)
    ensures
        trees_outcome(rs) matches Ok(ts) ==> {
            &&& ts.len() == rs.len()
            &&& forall|i: int| 0 <= i < ts.len() ==> (#[trigger] ts[i]).name == rs[i].name@
            &&& forall|i: int| 0 <= i < ts.len() ==> #[trigger] tree_well_formed(ts[i])
            &&& forall|i: int, j: int| 0 <= i < j < ts.len() ==> (#[trigger] ts[i]).name != (#[trigger] ts[j]).name
        },
    decreases rs.len(),
{
    if rs.len() > 0 {
        let rp = rs.drop_last();
        lemma_trees_outcome_well_formed(rp);
        if trees_outcome(rs) is Ok {
            let ts = trees_outcome(rs)->Ok_0;
            let tp = trees_outcome(rp)->Ok_0;
            let r = rs.last();
            let t = ts[ts.len() - 1];
            lemma_graphics_outcome_well_formed(r.name@, r.nodes@);
            assert(tree_well_formed(t));
            assert forall|i: int| 0 <= i < ts.len() implies (#[trigger] ts[i]).name == rs[i].name@ by {
                if i < tp.len() {
                    assert(ts[i] == tp[i]);
                    assert(rp[i] == rs[i]);
                }
            }
            assert forall|i: int| 0 <= i < ts.len() implies #[trigger] tree_well_formed(ts[i]) by {
                if i < tp.len() {
                    assert(ts[i] == tp[i]);
                }
            }
            assert forall|i: int, j: int| 0 <= i < j < ts.len() implies (#[trigger] ts[i]).name != (#[trigger] ts[j]).name by {
                if j < tp.len() {
                    assert(ts[i] == tp[i] && ts[j] == tp[j]);
                } else {
                    assert(ts[i] == tp[i]);
                    assert(tp[i].name == rp[i].name@);
                    if ts[i].name == ts[j].name {
                        assert(rp[i].name@ == r.name@);
                    }
                }
            }
        }
    }
}

} // verus!
