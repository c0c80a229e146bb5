//! Which node edits reach a node: a field of the node itself always; a
//! field of its graphic only when the node holds that kind of graphic,
//! otherwise the edit is ignored and the node stays as it was.

use vstd::prelude::*;
use crate::editor::picker::GraphicKind;
use crate::manifest::{DrawMode, LeafGraphic, LeafGraphicV, SpriteMethod};

verus! {

/// The field a node edit sets.
#[derive(Debug, Clone, Copy, PartialEq, Eq, Structural)]
pub enum NodeEditKind {
    Name,
    Pos,
    Size,
    Pivot,
    Scale,
    Rot,
    SpriteRef,
    SpriteMethod,
    SpriteBorderMult,
    SpriteFlipX,
    SpriteFlipY,
    PolygonColor,
    PolygonVertex,
    PolygonAddVertex,
    PolygonInsertVertex,
    PolygonRemoveVertex,
    PolygonTriangles,
    PolygonRectSize,
    SpriteRendererSprite,
    SpriteRendererDrawMode,
}

/// The graphic kind whose field an edit sets; `None` for the node's own
/// fields (name and transform).
pub open spec fn edit_target(kind: NodeEditKind) -> Option<GraphicKind> {
    match kind {
        NodeEditKind::Name | NodeEditKind::Pos | NodeEditKind::Size | NodeEditKind::Pivot
        | NodeEditKind::Scale | NodeEditKind::Rot => None,
        NodeEditKind::SpriteRef | NodeEditKind::SpriteMethod | NodeEditKind::SpriteBorderMult
        | NodeEditKind::SpriteFlipX | NodeEditKind::SpriteFlipY => Some(GraphicKind::Sprite),
        NodeEditKind::SpriteRendererSprite | NodeEditKind::SpriteRendererDrawMode => Some(
            GraphicKind::SpriteRenderer,
        ),
        _ => Some(GraphicKind::Polygon),
    }
}

/// An edit applies to a node holding `graphic` when it sets a node field,
/// or a field of exactly that graphic kind.
pub open spec fn spec_edit_applies(kind: NodeEditKind, graphic: Option<GraphicKind>) -> bool {
    match edit_target(kind) {
        None => true,
        Some(k) => graphic == Some(k),
    }
}

fn edit_target_of(kind: NodeEditKind) -> (r: Option<GraphicKind>)
    ensures
        r == edit_target(kind),
{
    match kind {
        NodeEditKind::Name | NodeEditKind::Pos | NodeEditKind::Size | NodeEditKind::Pivot
        | NodeEditKind::Scale | NodeEditKind::Rot => None,
        NodeEditKind::SpriteRef | NodeEditKind::SpriteMethod | NodeEditKind::SpriteBorderMult
        | NodeEditKind::SpriteFlipX | NodeEditKind::SpriteFlipY => Some(GraphicKind::Sprite),
        NodeEditKind::SpriteRendererSprite | NodeEditKind::SpriteRendererDrawMode => Some(
            GraphicKind::SpriteRenderer,
        ),
        _ => Some(GraphicKind::Polygon),
    }
}

/// Whether an edit of `kind` changes a node holding `graphic`; an edit of
/// another graphic kind's field is ignored.
pub fn edit_applies(kind: NodeEditKind, graphic: Option<GraphicKind>) -> (r: bool)
    ensures
        r == spec_edit_applies(kind, graphic),
{
    match (edit_target_of(kind), graphic) {
        (None, _) => true,
        (Some(GraphicKind::Sprite), Some(GraphicKind::Sprite)) => true,
        (Some(GraphicKind::Polygon), Some(GraphicKind::Polygon)) => true,
        (Some(GraphicKind::SpriteRenderer), Some(GraphicKind::SpriteRenderer)) => true,
        _ => false,
    }
}

/// The kind of a leaf graphic.
pub open spec fn kind_of(g: LeafGraphicV) -> GraphicKind {
    match g {
        LeafGraphicV::Sprite { .. } => GraphicKind::Sprite,
        LeafGraphicV::Polygon { .. } => GraphicKind::Polygon,
        LeafGraphicV::SpriteRenderer { .. } => GraphicKind::SpriteRenderer,
    }
}

/// A graphic edit on plain values: the name, method, flips and draw mode.
pub enum LeafEdit {
    SpriteRef(String),
    SpriteMethod(SpriteMethod),
    SpriteFlipX(bool),
    SpriteFlipY(bool),
    PolygonColor(String),
    SpriteRendererSprite(String),
    SpriteRendererDrawMode(DrawMode),
}

/// [`LeafEdit`] with its texts as character sequences.
pub enum LeafEditV {
    SpriteRef(Seq<char>),
    SpriteMethod(SpriteMethod),
    SpriteFlipX(bool),
    SpriteFlipY(bool),
    PolygonColor(Seq<char>),
    SpriteRendererSprite(Seq<char>),
    SpriteRendererDrawMode(DrawMode),
}

impl View for LeafEdit {
    type V = LeafEditV;

    open spec fn view(&self) -> LeafEditV {
        match self {
            LeafEdit::SpriteRef(s) => LeafEditV::SpriteRef(s@),
            LeafEdit::SpriteMethod(m) => LeafEditV::SpriteMethod(*m),
            LeafEdit::SpriteFlipX(b) => LeafEditV::SpriteFlipX(*b),
            LeafEdit::SpriteFlipY(b) => LeafEditV::SpriteFlipY(*b),
            LeafEdit::PolygonColor(s) => LeafEditV::PolygonColor(s@),
            LeafEdit::SpriteRendererSprite(s) => LeafEditV::SpriteRendererSprite(s@),
            LeafEdit::SpriteRendererDrawMode(d) => LeafEditV::SpriteRendererDrawMode(*d),
        }
    }
}

/// The kind of field an edit sets.
pub open spec fn leaf_edit_kind(e: LeafEditV) -> NodeEditKind {
    match e {
        LeafEditV::SpriteRef(_) => NodeEditKind::SpriteRef,
        LeafEditV::SpriteMethod(_) => NodeEditKind::SpriteMethod,
        LeafEditV::SpriteFlipX(_) => NodeEditKind::SpriteFlipX,
        LeafEditV::SpriteFlipY(_) => NodeEditKind::SpriteFlipY,
        LeafEditV::PolygonColor(_) => NodeEditKind::PolygonColor,
        LeafEditV::SpriteRendererSprite(_) => NodeEditKind::SpriteRendererSprite,
        LeafEditV::SpriteRendererDrawMode(_) => NodeEditKind::SpriteRendererDrawMode,
    }
}

/// Optional leaf graphic by its view.
pub open spec fn opt_leaf(g: Option<LeafGraphic>) -> Option<LeafGraphicV> {
    match g {
        Some(x) => Some(x@),
        None => None,
    }
}

/// The graphic after edit `e`: the one field set when the graphic is of
/// the edit's kind, unchanged otherwise (and no graphic stays none).
pub open spec fn spec_apply_leaf_edit(g: Option<LeafGraphicV>, e: LeafEditV) -> Option<LeafGraphicV> {
    match (g, e) {
        (Some(LeafGraphicV::Sprite { method, flip_x, flip_y, .. }), LeafEditV::SpriteRef(n)) => Some(
            LeafGraphicV::Sprite { sprite: n, method, flip_x, flip_y },
        ),
        (Some(LeafGraphicV::Sprite { sprite, flip_x, flip_y, .. }), LeafEditV::SpriteMethod(m)) => Some(
            LeafGraphicV::Sprite { sprite, method: m, flip_x, flip_y },
        ),
        (Some(LeafGraphicV::Sprite { sprite, method, flip_y, .. }), LeafEditV::SpriteFlipX(b)) => Some(
            LeafGraphicV::Sprite { sprite, method, flip_x: b, flip_y },
        ),
        (Some(LeafGraphicV::Sprite { sprite, method, flip_x, .. }), LeafEditV::SpriteFlipY(b)) => Some(
            LeafGraphicV::Sprite { sprite, method, flip_x, flip_y: b },
        ),
        (Some(LeafGraphicV::Polygon { .. }), LeafEditV::PolygonColor(n)) => Some(
            LeafGraphicV::Polygon { polygon_sprite: n },
        ),
        (Some(LeafGraphicV::SpriteRenderer { draw_mode, .. }), LeafEditV::SpriteRendererSprite(n)) => Some(
            LeafGraphicV::SpriteRenderer { sprite: n, draw_mode },
        ),
        (Some(LeafGraphicV::SpriteRenderer { sprite, .. }), LeafEditV::SpriteRendererDrawMode(d)) => Some(
            LeafGraphicV::SpriteRenderer { sprite, draw_mode: d },
        ),
        _ => g,
    }
}

/// Apply a graphic edit to a node's graphic (see [`spec_apply_leaf_edit`]).
pub fn apply_leaf_edit(g: Option<LeafGraphic>, e: LeafEdit) -> (r: Option<LeafGraphic>)
    ensures
        opt_leaf(r) == spec_apply_leaf_edit(opt_leaf(g), e@),
{
    match (g, e) {
        (Some(LeafGraphic::Sprite { method, flip_x, flip_y, .. }), LeafEdit::SpriteRef(n)) => Some(
            LeafGraphic::Sprite { sprite: n, method, flip_x, flip_y },
        ),
        (Some(LeafGraphic::Sprite { sprite, flip_x, flip_y, .. }), LeafEdit::SpriteMethod(m)) => Some(
            LeafGraphic::Sprite { sprite, method: m, flip_x, flip_y },
        ),
        (Some(LeafGraphic::Sprite { sprite, method, flip_y, .. }), LeafEdit::SpriteFlipX(b)) => Some(
            LeafGraphic::Sprite { sprite, method, flip_x: b, flip_y },
        ),
        (Some(LeafGraphic::Sprite { sprite, method, flip_x, .. }), LeafEdit::SpriteFlipY(b)) => Some(
            LeafGraphic::Sprite { sprite, method, flip_x, flip_y: b },
        ),
        (Some(LeafGraphic::Polygon { .. }), LeafEdit::PolygonColor(n)) => Some(
            LeafGraphic::Polygon { polygon_sprite: n },
        ),
        (Some(LeafGraphic::SpriteRenderer { draw_mode, .. }), LeafEdit::SpriteRendererSprite(n)) => Some(
            LeafGraphic::SpriteRenderer { sprite: n, draw_mode },
        ),
        (Some(LeafGraphic::SpriteRenderer { sprite, .. }), LeafEdit::SpriteRendererDrawMode(d)) => Some(
            LeafGraphic::SpriteRenderer { sprite, draw_mode: d },
        ),
        (g, _) => g,
    }
}

/// A graphic edit changes the graphic only when it applies to its kind:
/// an edit of another kind's field leaves the node's graphic as it was.
pub proof fn lemma_leaf_edit_ignored_unless_applies(g: Option<LeafGraphicV>, e: LeafEditV)
    ensures
        !spec_edit_applies(
            leaf_edit_kind(e),
            match g {
                Some(x) => Some(kind_of(x)),
                None => None,
            },
        ) ==> spec_apply_leaf_edit(g, e) == g,
        spec_apply_leaf_edit(g, e) matches Some(x) ==> (g matches Some(y) && kind_of(x) == kind_of(y)),
        g is None ==> spec_apply_leaf_edit(g, e) is None,
{
}

} // verus!
