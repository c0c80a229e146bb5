//! The user-facing message of each error of the library, as the tools print
//! it: the C# side and the command line show these texts verbatim.

use vstd::prelude::*;
use crate::combine::CombineError;
use crate::fab::spec_method_name;
use crate::manifest::{BridgeError, ManifestError};
use crate::mesh_emit::BuildMeshError;
use crate::meta::{dec_digits, push_dec_digits, MetaError};
use crate::pipeline::{Error, LayoutError};
use crate::text::{push_text, string_of};

verus! {

/// `format!("{:?}", s)` of a string `s`: quoted, with the characters that
/// `str::escape_debug` escapes escaped.
pub uninterp spec fn debug_str(s: Seq<char>) -> Seq<char>;

/// std's `Debug` of a `str` (`format!("{:?}", s)`): the text in double
/// quotes with quotes, backslashes, control and unprintable characters
/// escaped. Claimed: the result is `debug_str` of the text, a function of
/// the text alone.
#[verifier::external_body]
fn debug_quoted(s: &str) -> (r: String)
    ensures
        r@ == debug_str(s@),
{
    format!("{:?}", s)
}

/// Append `s` quoted as `{:?}` quotes it.
fn push_debug(out: &mut Vec<char>, s: &str)
    ensures
        final(out)@ == old(out)@ + debug_str(s@),
{
    let q = debug_quoted(s);
    push_text(out, q.as_str());
}

/// `tree <name quoted>`, the start of most manifest messages.
pub open spec fn tree_ref(tree: Seq<char>) -> Seq<char> {
    "tree "@ + debug_str(tree)
}

/// The message of a [`MetaError`].
pub open spec fn meta_error_message(e: MetaError) -> Seq<char> {
    match e {
        MetaError::Io(m) => "meta io error: "@ + m@,
        MetaError::InvalidGuid(s) => "invalid guid hex: "@ + debug_str(s@),
        MetaError::NoGuidField => "meta has no `guid:` field"@,
        MetaError::NoAlphaIsTransparencyField => "png.meta has no `alphaIsTransparency:` field"@,
        MetaError::InvalidAlphaIsTransparencyValue(v) => "png.meta `alphaIsTransparency:` value not 0/1: "@
            + debug_str(v@),
    }
}

/// The message of a [`ManifestError`].
pub open spec fn manifest_error_message(e: ManifestError) -> Seq<char> {
    match e {
        ManifestError::Json(m) => "json: "@ + m@,
        ManifestError::UnsupportedVersion(v) => "unsupported version: "@ + dec_digits(v as nat),
        ManifestError::EmptyName => "tree.name must be non-empty"@,
        ManifestError::DuplicateName(n) => "duplicate tree.name: "@ + debug_str(n@),
        ManifestError::BadColor { tree, color } => tree_ref(tree@) + " polygon color "@ + debug_str(color@)
            + ": expected 6 or 8 hex chars"@,
        ManifestError::UnknownMethod { tree, method } => tree_ref(tree@) + ": unknown sprite method "@
            + debug_str(method@),
        ManifestError::UnknownDrawMode { tree, mode } => tree_ref(tree@) + ": unknown drawMode "@
            + debug_str(mode@),
        ManifestError::PolygonTooFewVertices { tree, n } => tree_ref(tree@)
            + " polygon: need \u{2265} 3 vertices, got "@ + dec_digits(n as nat),
        ManifestError::GraphicShape { tree, reason } => tree_ref(tree@) + " graphic: "@ + reason@,
        ManifestError::OutputShape { tree, reason } => tree_ref(tree@) + " output: "@ + reason@,
    }
}

/// The message of a [`BridgeError`].
pub open spec fn bridge_error_message(e: BridgeError) -> Seq<char> {
    match e {
        BridgeError::OutputMismatch { tree, expected } => tree_ref(tree@) + " output mismatch: expected "@
            + expected@,
        BridgeError::GraphicMismatch { tree, reason } => tree_ref(tree@) + " graphic: "@ + reason@,
        BridgeError::ZeroSizeForSliceMethod { tree, sprite } => tree_ref(tree@) + " sprite "@ + debug_str(
            sprite@,
        ) + ": size-fitted method requires non-zero size"@,
    }
}

/// The message of a [`CombineError`].
pub open spec fn combine_error_message(e: CombineError) -> Seq<char> {
    match e {
        CombineError::SpriteNotFound { combined, sprite } => "combined "@ + debug_str(combined@)
            + ": sprite "@ + debug_str(sprite@) + " not found in tpsheet"@,
        CombineError::SliceConstraint { combined, sprite, method, reason } => "combined "@ + debug_str(
            combined@,
        ) + " part "@ + debug_str(sprite@) + " (method "@ + spec_method_name(method) + "): "@ + reason@,
    }
}

/// The message of a [`BuildMeshError`].
pub open spec fn build_mesh_error_message(e: BuildMeshError) -> Seq<char> {
    match e {
        BuildMeshError::UnresolvedSprite { combined, sprite } => "mesh '"@ + combined@
            + "' references unknown sprite '"@ + sprite@ + "'"@,
        BuildMeshError::TiledNonQuad { combined, sprite, vert_count } => "mesh '"@ + combined@
            + "' tiled renderer '"@ + sprite@ + "' has "@ + dec_digits(vert_count as nat)
            + " verts (need 4 for axis-aligned quad)"@,
        BuildMeshError::EmptyMesh(n) => "mesh '"@ + n@ + "' produced zero vertices"@,
    }
}

/// The message of a [`LayoutError`].
pub open spec fn layout_error_message(e: LayoutError) -> Seq<char> {
    match e {
        LayoutError::NoStem(p) => "path has no file stem: "@ + p@,
    }
}

/// The message of a pipeline [`Error`]: what failed, then the message of
/// the error underneath.
pub open spec fn error_message(e: Error) -> Seq<char> {
    match e {
        Error::Io { path, message } => "io error on "@ + debug_str(path@) + ": "@ + message@,
        Error::Tpsheet(m) => "tpsheet parse: "@ + m@,
        Error::Tps(m) => "tps parse: "@ + m@,
        Error::Meta(e) => "meta: "@ + meta_error_message(e),
        Error::Emit(m) => "emit: "@ + m@,
        Error::AtlasSizeUnknown => "atlas size missing from tpsheet header"@,
        Error::EmptySheet => "tpsheet has zero sprites"@,
        Error::DuplicateSpriteName(n) => "duplicate sprite name after prefix application: "@ + debug_str(
            n@,
        ),
        Error::Combine(e) => "fab combine: "@ + combine_error_message(e),
        Error::BuildMesh(e) => "mesh build: "@ + build_mesh_error_message(e),
        Error::Manifest(e) => "manifest: "@ + manifest_error_message(e),
        Error::Bridge(e) => "manifest bridge: "@ + bridge_error_message(e),
    }
}

fn push_meta_error(out: &mut Vec<char>, e: &MetaError)
    ensures
        final(out)@ == old(out)@ + meta_error_message(*e),
{
    match e {
        MetaError::Io(m) => {
            push_text(out, "meta io error: ");
            push_text(out, m.as_str());
        },
        MetaError::InvalidGuid(s) => {
            push_text(out, "invalid guid hex: ");
            push_debug(out, s.as_str());
        },
        MetaError::NoGuidField => push_text(out, "meta has no `guid:` field"),
        MetaError::NoAlphaIsTransparencyField => push_text(out, "png.meta has no `alphaIsTransparency:` field"),
        MetaError::InvalidAlphaIsTransparencyValue(v) => {
            push_text(out, "png.meta `alphaIsTransparency:` value not 0/1: ");
            push_debug(out, v.as_str());
        },
    }
    assert(out@ =~= old(out)@ + meta_error_message(*e));
}

fn push_tree_ref(out: &mut Vec<char>, tree: &str)
    ensures
        final(out)@ == old(out)@ + tree_ref(tree@),
{
    push_text(out, "tree ");
    push_debug(out, tree);
    assert(out@ =~= old(out)@ + tree_ref(tree@));
}

fn push_manifest_error(out: &mut Vec<char>, e: &ManifestError)
    ensures
        final(out)@ == old(out)@ + manifest_error_message(*e),
{
    match e {
        ManifestError::Json(m) => {
            push_text(out, "json: ");
            push_text(out, m.as_str());
        },
        ManifestError::UnsupportedVersion(v) => {
            push_text(out, "unsupported version: ");
            push_dec_digits(*v as u64, out);
        },
        ManifestError::EmptyName => push_text(out, "tree.name must be non-empty"),
        ManifestError::DuplicateName(n) => {
            push_text(out, "duplicate tree.name: ");
            push_debug(out, n.as_str());
        },
        ManifestError::BadColor { tree, color } => {
            push_tree_ref(out, tree.as_str());
            push_text(out, " polygon color ");
            push_debug(out, color.as_str());
            push_text(out, ": expected 6 or 8 hex chars");
        },
        ManifestError::UnknownMethod { tree, method } => {
            push_tree_ref(out, tree.as_str());
            push_text(out, ": unknown sprite method ");
            push_debug(out, method.as_str());
        },
        ManifestError::UnknownDrawMode { tree, mode } => {
            push_tree_ref(out, tree.as_str());
            push_text(out, ": unknown drawMode ");
            push_debug(out, mode.as_str());
        },
        ManifestError::PolygonTooFewVertices { tree, n } => {
            push_tree_ref(out, tree.as_str());
            push_text(out, " polygon: need \u{2265} 3 vertices, got ");
            push_dec_digits(*n as u64, out);
        },
        ManifestError::GraphicShape { tree, reason } => {
            push_tree_ref(out, tree.as_str());
            push_text(out, " graphic: ");
            push_text(out, reason);
        },
        ManifestError::OutputShape { tree, reason } => {
            push_tree_ref(out, tree.as_str());
            push_text(out, " output: ");
            push_text(out, reason);
        },
    }
    assert(out@ =~= old(out)@ + manifest_error_message(*e));
}

fn push_bridge_error(out: &mut Vec<char>, e: &BridgeError)
    ensures
        final(out)@ == old(out)@ + bridge_error_message(*e),
{
    match e {
        BridgeError::OutputMismatch { tree, expected } => {
            push_tree_ref(out, tree.as_str());
            push_text(out, " output mismatch: expected ");
            push_text(out, expected);
        },
        BridgeError::GraphicMismatch { tree, reason } => {
            push_tree_ref(out, tree.as_str());
            push_text(out, " graphic: ");
            push_text(out, reason);
        },
        BridgeError::ZeroSizeForSliceMethod { tree, sprite } => {
            push_tree_ref(out, tree.as_str());
            push_text(out, " sprite ");
            push_debug(out, sprite.as_str());
            push_text(out, ": size-fitted method requires non-zero size");
        },
    }
    assert(out@ =~= old(out)@ + bridge_error_message(*e));
}

fn push_combine_error(out: &mut Vec<char>, e: &CombineError)
    ensures
        final(out)@ == old(out)@ + combine_error_message(*e),
{
    match e {
        CombineError::SpriteNotFound { combined, sprite } => {
            push_text(out, "combined ");
            push_debug(out, combined.as_str());
            push_text(out, ": sprite ");
            push_debug(out, sprite.as_str());
            push_text(out, " not found in tpsheet");
        },
        CombineError::SliceConstraint { combined, sprite, method, reason } => {
            push_text(out, "combined ");
            push_debug(out, combined.as_str());
            push_text(out, " part ");
            push_debug(out, sprite.as_str());
            push_text(out, " (method ");
            push_text(out, method.name());
            push_text(out, "): ");
            push_text(out, reason);
        },
    }
    assert(out@ =~= old(out)@ + combine_error_message(*e));
}

fn push_build_mesh_error(out: &mut Vec<char>, e: &BuildMeshError)
    ensures
        final(out)@ == old(out)@ + build_mesh_error_message(*e),
{
    match e {
        BuildMeshError::UnresolvedSprite { combined, sprite } => {
            push_text(out, "mesh '");
            push_text(out, combined.as_str());
            push_text(out, "' references unknown sprite '");
            push_text(out, sprite.as_str());
            push_text(out, "'");
        },
        BuildMeshError::TiledNonQuad { combined, sprite, vert_count } => {
            push_text(out, "mesh '");
            push_text(out, combined.as_str());
            push_text(out, "' tiled renderer '");
            push_text(out, sprite.as_str());
            push_text(out, "' has ");
            push_dec_digits(*vert_count as u64, out);
            push_text(out, " verts (need 4 for axis-aligned quad)");
        },
        BuildMeshError::EmptyMesh(n) => {
            push_text(out, "mesh '");
            push_text(out, n.as_str());
            push_text(out, "' produced zero vertices");
        },
    }
    assert(out@ =~= old(out)@ + build_mesh_error_message(*e));
}

impl MetaError {
    /// The error's message.
    pub fn message(&self) -> (r: String)
        ensures
            r@ == meta_error_message(*self),
    {
        let mut out: Vec<char> = Vec::new();
        push_meta_error(&mut out, self);
        assert(out@ =~= meta_error_message(*self));
        string_of(&out)
    }
}

impl ManifestError {
    /// The error's message.
    pub fn message(&self) -> (r: String)
        ensures
            r@ == manifest_error_message(*self),
    {
        let mut out: Vec<char> = Vec::new();
        push_manifest_error(&mut out, self);
        assert(out@ =~= manifest_error_message(*self));
        string_of(&out)
    }
}

impl BridgeError {
    /// The error's message.
    pub fn message(&self) -> (r: String)
        ensures
            r@ == bridge_error_message(*self),
    {
        let mut out: Vec<char> = Vec::new();
        push_bridge_error(&mut out, self);
        assert(out@ =~= bridge_error_message(*self));
        string_of(&out)
    }
}

impl CombineError {
    /// The error's message.
    pub fn message(&self) -> (r: String)
        ensures
            r@ == combine_error_message(*self),
    {
        let mut out: Vec<char> = Vec::new();
        push_combine_error(&mut out, self);
        assert(out@ =~= combine_error_message(*self));
        string_of(&out)
    }
}

impl BuildMeshError {
    /// The error's message.
    pub fn message(&self) -> (r: String)
        ensures
            r@ == build_mesh_error_message(*self),
    {
        let mut out: Vec<char> = Vec::new();
        push_build_mesh_error(&mut out, self);
        assert(out@ =~= build_mesh_error_message(*self));
        string_of(&out)
    }
}

impl LayoutError {
    /// The error's message.
    pub fn message(&self) -> (r: String)
        ensures
            r@ == layout_error_message(*self),
    {
        let mut out: Vec<char> = Vec::new();
        match self {
            LayoutError::NoStem(p) => {
                push_text(&mut out, "path has no file stem: ");
                push_text(&mut out, p.as_str());
            },
        }
        assert(out@ =~= layout_error_message(*self));
        string_of(&out)
    }
}

impl Error {
    /// The error's message.
    pub fn message(&self) -> (r: String)
        ensures
            r@ == error_message(*self),
    {
        let mut out: Vec<char> = Vec::new();
        match self {
            Error::Io { path, message } => {
                push_text(&mut out, "io error on ");
                push_debug(&mut out, path.as_str());
                push_text(&mut out, ": ");
                push_text(&mut out, message.as_str());
            },
            Error::Tpsheet(m) => {
                push_text(&mut out, "tpsheet parse: ");
                push_text(&mut out, m.as_str());
            },
            Error::Tps(m) => {
                push_text(&mut out, "tps parse: ");
                push_text(&mut out, m.as_str());
            },
            Error::Meta(e) => {
                push_text(&mut out, "meta: ");
                push_meta_error(&mut out, e);
            },
            Error::Emit(m) => {
                push_text(&mut out, "emit: ");
                push_text(&mut out, m.as_str());
            },
            Error::AtlasSizeUnknown => push_text(&mut out, "atlas size missing from tpsheet header"),
            Error::EmptySheet => push_text(&mut out, "tpsheet has zero sprites"),
            Error::DuplicateSpriteName(n) => {
                push_text(&mut out, "duplicate sprite name after prefix application: ");
                push_debug(&mut out, n.as_str());
            },
            Error::Combine(e) => {
                push_text(&mut out, "fab combine: ");
                push_combine_error(&mut out, e);
            },
            Error::BuildMesh(e) => {
                push_text(&mut out, "mesh build: ");
                push_build_mesh_error(&mut out, e);
            },
            Error::Manifest(e) => {
                push_text(&mut out, "manifest: ");
                push_manifest_error(&mut out, e);
            },
            Error::Bridge(e) => {
                push_text(&mut out, "manifest bridge: ");
                push_bridge_error(&mut out, e);
            },
        }
        assert(out@ =~= error_message(*self));
        string_of(&out)
    }
}

} // verus!
