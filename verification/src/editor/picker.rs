//! What the sprite and color pickers do with a pick: which tree edits a
//! picked name makes of the target leaf, and which names the filter shows.

use vstd::prelude::*;
use crate::editor::action::{spec_lowercase, to_lowercase};
use crate::editor::ui::PickerKind;
use crate::manifest::{color_sprite_name, push_upper};
use crate::text::{chars_of, contains_exec, contains_seq, has_prefix, starts_with, string_of};

verus! {

/// The kind of graphic a leaf holds, as the pickers see it.
#[derive(Debug, Clone, Copy, PartialEq, Eq, Structural)]
pub enum GraphicKind {
    Sprite,
    Polygon,
    SpriteRenderer,
}

/// The edits a pick makes of the target leaf.
#[derive(Debug, Clone, PartialEq, Eq)]
pub enum PickOutcome {
    /// Nothing changes.
    Nothing,
    /// The leaf becomes a rect polygon (`SetGraphic` to a rect), then its
    /// color becomes this swatch (`PolygonColor`).
    RectWithColor(String),
    /// `SpriteRef`: the sprite leaf draws this sprite.
    SpriteRef(String),
    /// `SpriteRendererSprite`: the sprite-renderer leaf draws this sprite.
    RendererSprite(String),
    /// `PolygonColor`: the polygon leaf takes this color swatch.
    PolygonColor(String),
}

/// [`PickOutcome`] with its name as text.
pub enum PickOutcomeV {
    Nothing,
    RectWithColor(Seq<char>),
    SpriteRef(Seq<char>),
    RendererSprite(Seq<char>),
    PolygonColor(Seq<char>),
}

impl View for PickOutcome {
    type V = PickOutcomeV;

    open spec fn view(&self) -> PickOutcomeV {
        match self {
            PickOutcome::Nothing => PickOutcomeV::Nothing,
            PickOutcome::RectWithColor(n) => PickOutcomeV::RectWithColor(n@),
            PickOutcome::SpriteRef(n) => PickOutcomeV::SpriteRef(n@),
            PickOutcome::RendererSprite(n) => PickOutcomeV::RendererSprite(n@),
            PickOutcome::PolygonColor(n) => PickOutcomeV::PolygonColor(n@),
        }
    }
}

/// A name picked in a picker of `kind` for a leaf whose graphic is
/// `current`: from the sprite picker, a `Color_` swatch turns a sprite or
/// sprite-renderer leaf into a rect of that color; any other name is the
/// leaf's new sprite. Anything else changes nothing.
pub open spec fn spec_pick_outcome(name: Seq<char>, current: Option<GraphicKind>, kind: PickerKind) -> PickOutcomeV {
    match (kind, current) {
        (PickerKind::Sprite, Some(GraphicKind::Sprite)) => if has_prefix(name, "Color_"@) {
            PickOutcomeV::RectWithColor(name)
        } else {
            PickOutcomeV::SpriteRef(name)
        },
        (PickerKind::Sprite, Some(GraphicKind::SpriteRenderer)) => if has_prefix(name, "Color_"@) {
            PickOutcomeV::RectWithColor(name)
        } else {
            PickOutcomeV::RendererSprite(name)
        },
        _ => PickOutcomeV::Nothing,
    }
}

/// The edits that picking `name` makes (see [`spec_pick_outcome`]).
pub fn pick_outcome(name: &str, current: Option<GraphicKind>, kind: PickerKind) -> (r: PickOutcome)
    ensures
        r@ == spec_pick_outcome(name@, current, kind),
{
    let cs = chars_of(name);
    let prefix = chars_of("Color_");
    let is_color = starts_with(&cs, &prefix);
    match (kind, current) {
        (PickerKind::Sprite, Some(GraphicKind::Sprite)) => if is_color {
            PickOutcome::RectWithColor(name.to_owned())
        } else {
            PickOutcome::SpriteRef(name.to_owned())
        },
        (PickerKind::Sprite, Some(GraphicKind::SpriteRenderer)) => if is_color {
            PickOutcome::RectWithColor(name.to_owned())
        } else {
            PickOutcome::RendererSprite(name.to_owned())
        },
        _ => PickOutcome::Nothing,
    }
}

/// The color picker's "Apply" with the typed hex `hex`: the leaf's color
/// becomes the swatch `Color_` + the digits in upper case.
pub fn color_pick_outcome(hex: &str) -> (r: PickOutcome)
    ensures
        r@ == PickOutcomeV::PolygonColor(color_sprite_name(hex@)),
{
    let mut out = chars_of("Color_");
    push_upper(&mut out, hex);
    PickOutcome::PolygonColor(string_of(&out))
}

/// The picker's filter shows `name` when the filter is empty or the
/// lowercased name contains the lowercased filter.
pub open spec fn spec_filter_shows(filter: Seq<char>, name: Seq<char>) -> bool {
    spec_lowercase(filter).len() == 0 || contains_seq(spec_lowercase(name), spec_lowercase(filter))
}

/// Does the picker's filter text `filter` show the entry `name`?
pub fn filter_shows(filter: &str, name: &str) -> (r: bool)
    ensures
        r == spec_filter_shows(filter@, name@),
{
    let f = to_lowercase(filter);
    if f.as_str().is_empty() {
        return true;
    }
    let n = to_lowercase(name);
    let fc = chars_of(f.as_str());
    let nc = chars_of(n.as_str());
    contains_exec(&nc, &fc)
}

} // verus!
