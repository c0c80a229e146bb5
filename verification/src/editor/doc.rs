//! Normalizing a loaded document: a sprite leaf that references a
//! `Color_` swatch is a flat color fill and is edited as a polygon leaf.

use vstd::prelude::*;
use crate::manifest::{LeafGraphic, LeafGraphicV};
use crate::text::{chars_of, has_prefix, starts_with};

verus! {

/// The leaf as the editor keeps it: a sprite leaf on a `Color_` swatch
/// becomes a polygon leaf of that color (its method and flips do not apply
/// to a flat color); every other graphic stays as it is.
pub open spec fn spec_normalize_leaf(g: LeafGraphicV) -> LeafGraphicV {
    match g {
        LeafGraphicV::Sprite { sprite, .. } => if has_prefix(sprite, "Color_"@) {
            LeafGraphicV::Polygon { polygon_sprite: sprite }
        } else {
            g
        },
        _ => g,
    }
}

/// Normalize one leaf graphic (see [`spec_normalize_leaf`]).
pub fn normalize_leaf(g: LeafGraphic) -> (r: LeafGraphic)
    ensures
        r@ == spec_normalize_leaf(g@),
{
    match g {
        LeafGraphic::Sprite { sprite, method, flip_x, flip_y } => {
            let cs = chars_of(sprite.as_str());
            let prefix = chars_of("Color_");
            if starts_with(&cs, &prefix) {
                LeafGraphic::Polygon { polygon_sprite: sprite }
            } else {
                LeafGraphic::Sprite { sprite, method, flip_x, flip_y }
            }
        },
        other => other,
    }
}

/// Corners of the default rect shape a color leaf gets, by index: bottom
/// left, bottom right, top right, top left.
pub open spec fn rect_corners() -> nat {
    4
}

/// The triangle list of the default rect shape: two triangles over its
/// four corners, `0 2 3` and `3 1 0`.
pub fn rect_triangles() -> (r: Vec<u16>)
    ensures
        r@ == seq![0u16, 2, 3, 3, 1, 0],
        forall|i: int| 0 <= i < r@.len() ==> (#[trigger] r@[i]) < rect_corners(),
{
    let r: Vec<u16> = vec![0, 2, 3, 3, 1, 0];
    proof {
        assert(r@ =~= seq![0u16, 2, 3, 3, 1, 0]);
    }
    r
}

/// Normalizing twice is normalizing once: a reload of a normalized
/// document is unchanged.
pub proof fn lemma_normalize_leaf_idempotent(g: LeafGraphicV)
    ensures
        spec_normalize_leaf(spec_normalize_leaf(g)) == spec_normalize_leaf(g),
{
}

} // verus!
