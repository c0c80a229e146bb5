use unity_sprite_author::editor::picker::{color_pick_outcome, filter_shows, pick_outcome, GraphicKind, PickOutcome};
use unity_sprite_author::editor::ui::PickerKind;
use unity_sprite_author::editor::node_path::NodePath;
use unity_sprite_author::editor::ops::{
    add_vertex, delete_child, duplicate_child, insert_clamped, insert_vertex, move_sibling, move_within,
    remove_vertex, set_vertex,
};
use unity_sprite_author::editor::doc::{normalize_leaf, rect_triangles};
use unity_sprite_author::editor::edit::{apply_leaf_edit, edit_applies, LeafEdit, NodeEditKind};
use unity_sprite_author::editor::ui::{mode_label, node_label};
use unity_sprite_author::manifest::{DrawMode, LeafGraphic, Output, SpriteMethod};

fn p(chain: &[usize]) -> NodePath {
    NodePath { doc: 0, tree: 0, child_chain: chain.to_vec() }
}

// ---- children of one parent ---------------------------------------------

#[test]
fn add_then_delete_gives_back_the_children() {
    let before = vec!["a", "b", "c"];
    let mut kids = before.clone();
    kids.push("new");
    assert_ne!(kids, before);
    let last = kids.len() - 1;
    assert!(delete_child(&mut kids, last));
    assert_eq!(kids, before);
}

#[test]
fn delete_out_of_range_changes_nothing() {
    let mut kids = vec![1, 2];
    assert!(!delete_child(&mut kids, 2));
    assert_eq!(kids, vec![1, 2]);
}

#[test]
fn duplicate_puts_the_copy_right_after() {
    let mut kids = vec![String::from("a"), String::from("b")];
    assert!(duplicate_child(&mut kids, 0));
    assert_eq!(kids, vec!["a", "a", "b"]);
    assert!(delete_child(&mut kids, 1));
    assert_eq!(kids, vec!["a", "b"]);
    assert!(!duplicate_child(&mut kids, 5));
    assert_eq!(kids.len(), 2);
}

#[test]
fn move_sibling_clamps_at_the_ends() {
    let mut kids = vec!['a', 'b', 'c', 'd'];
    assert_eq!(move_sibling(&mut kids, 1, 10), Some(3));
    assert_eq!(kids, vec!['a', 'c', 'd', 'b']);
    assert_eq!(move_sibling(&mut kids, 3, -10), Some(0));
    assert_eq!(kids, vec!['b', 'a', 'c', 'd']);
    // Already at the top: nothing moves.
    assert_eq!(move_sibling(&mut kids, 0, -1), None);
    assert_eq!(kids, vec!['b', 'a', 'c', 'd']);
}

#[test]
fn move_sibling_there_and_back_restores_order() {
    let before = vec![10, 20, 30, 40, 50];
    let mut kids = before.clone();
    let landed = move_sibling(&mut kids, 1, 2).unwrap();
    assert_eq!(landed, 3);
    assert_eq!(kids, vec![10, 30, 40, 20, 50]);
    assert_eq!(move_sibling(&mut kids, landed, 1 - landed as i32), Some(1));
    assert_eq!(kids, before);
}

#[test]
fn move_within_to_the_end() {
    let mut kids = vec!["first", "second", "third"];
    let n = kids.len();
    let at = move_within(&mut kids, 0, n).unwrap();
    assert_eq!(kids.len(), n, "child count preserved");
    assert_eq!(at, n - 1);
    assert_eq!(*kids.last().unwrap(), "first", "moved to end");
}

#[test]
fn move_within_before_the_source_and_out_of_range() {
    let mut kids = vec![1, 2, 3, 4];
    assert_eq!(move_within(&mut kids, 3, 1), Some(1));
    assert_eq!(kids, vec![1, 4, 2, 3]);
    assert_eq!(move_within(&mut kids, 4, 0), None);
    assert_eq!(kids, vec![1, 4, 2, 3]);
}

#[test]
fn insert_clamped_appends_past_the_end() {
    let mut kids = vec![1, 2];
    assert_eq!(insert_clamped(&mut kids, 7, 9), 2);
    assert_eq!(kids, vec![1, 2, 9]);
    assert_eq!(insert_clamped(&mut kids, 0, 0), 0);
    assert_eq!(kids, vec![0, 1, 2, 9]);
}

#[test]
fn move_into_own_subtree_is_refused() {
    let src = p(&[1]);
    assert!(src.move_into_own_subtree(&p(&[1])));
    assert!(src.move_into_own_subtree(&p(&[1, 0, 2])));
    assert!(!src.move_into_own_subtree(&p(&[])));
    assert!(!src.move_into_own_subtree(&p(&[2, 1])));
    let other_tree = NodePath { doc: 0, tree: 1, child_chain: vec![1, 0] };
    assert!(!src.move_into_own_subtree(&other_tree));
}

// ---- vertices of one polygon ---------------------------------------------

#[test]
fn vertex_edits() {
    let mut v = vec![[0.0f32, 1.0], [-1.0, -1.0], [1.0, -1.0]];
    let mut tris: Option<Vec<u16>> = Some(vec![0, 1, 2]);
    set_vertex(&mut v, 1, [-2.0, -2.0]);
    assert_eq!(v[1], [-2.0, -2.0]);
    set_vertex(&mut v, 9, [5.0, 5.0]);
    assert_eq!(v.len(), 3);
    add_vertex(&mut v, [0.0, 0.0]);
    assert_eq!(v, vec![[0.0, 1.0], [-2.0, -2.0], [1.0, -1.0], [1.0, -1.0]]);
    insert_vertex(&mut v, &mut tris, 1, [7.0, 7.0]);
    assert_eq!(v[1], [7.0, 7.0]);
    assert_eq!(v.len(), 5);
    assert!(tris.is_none());
    remove_vertex(&mut v, 1);
    assert_eq!(v, vec![[0.0, 1.0], [-2.0, -2.0], [1.0, -1.0], [1.0, -1.0]]);
}

#[test]
fn add_vertex_to_empty_polygon_uses_origin() {
    let mut v: Vec<[f32; 2]> = Vec::new();
    add_vertex(&mut v, [0.0, 0.0]);
    assert_eq!(v, vec![[0.0, 0.0]]);
}

#[test]
fn remove_vertex_keeps_a_triangle() {
    let mut v = vec![1, 2, 3];
    remove_vertex(&mut v, 0);
    assert_eq!(v, vec![1, 2, 3]);
    let mut w = vec![1, 2, 3, 4];
    remove_vertex(&mut w, 4);
    assert_eq!(w, vec![1, 2, 3, 4]);
    remove_vertex(&mut w, 0);
    assert_eq!(w, vec![2, 3, 4]);
}

#[test]
fn insert_vertex_past_the_end_appends() {
    let mut v = vec![1, 2, 3];
    let mut tris = Some(vec![0u16, 1, 2]);
    insert_vertex(&mut v, &mut tris, 10, 4);
    assert_eq!(v, vec![1, 2, 3, 4]);
    assert!(tris.is_none());
}

// ---- labels ----------------------------------------------------------------

#[test]
fn mode_labels() {
    assert_eq!(mode_label(&Output::Csa), "ui");
    let sma = |canvas| Output::Sma {
        file_id: 1,
        output_path: String::from("Assets/x.asset"),
        used_in_canvas: canvas,
        keep_vertices: false,
        keep_indices: false,
    };
    assert_eq!(mode_label(&sma(true)), "sma-canvas");
    assert_eq!(mode_label(&sma(false)), "sma-renderer");
}

#[test]
fn node_labels() {
    assert_eq!(node_label("", &None), "(unnamed) \u{b7} container");
    assert_eq!(node_label("Body", &None), "Body \u{b7} container");
    let sprite = |s: &str| {
        Some(LeafGraphic::Sprite { sprite: s.to_string(), method: SpriteMethod::Id, flip_x: false, flip_y: false })
    };
    assert_eq!(node_label("", &sprite("")), "(unnamed) \u{b7} (no sprite)");
    assert_eq!(node_label("Eye", &sprite("")), "Eye \u{b7} (no sprite)");
    assert_eq!(node_label("", &sprite("Cat_Eye")), "Cat_Eye");
    assert_eq!(node_label("Eye", &sprite("Cat_Eye")), "Eye \u{b7} Cat_Eye");
    let renderer = Some(LeafGraphic::SpriteRenderer { sprite: "Bg".to_string(), draw_mode: DrawMode::Tiled });
    assert_eq!(node_label("Back", &renderer), "Back \u{b7} Bg");
    let poly = |s: &str| Some(LeafGraphic::Polygon { polygon_sprite: s.to_string() });
    assert_eq!(node_label("", &poly("Color_B73F3E")), "polygon #B73F3E");
    assert_eq!(node_label("Fill", &poly("Color_B73F3E")), "Fill \u{b7} #B73F3E");
    assert_eq!(node_label("Fill", &poly("Shade")), "Fill \u{b7} #Shade");
}

// ---- normalizing color sprites ---------------------------------------------

#[test]
fn normalize_sprite_with_color_ref_to_rect() {
    let g = LeafGraphic::Sprite { sprite: "Color_B73F3E".into(), method: SpriteMethod::Id, flip_x: false, flip_y: false };
    match normalize_leaf(g) {
        LeafGraphic::Polygon { polygon_sprite } => {
            assert_eq!(polygon_sprite, "Color_B73F3E");
            let triangles = rect_triangles();
            assert_eq!(triangles, vec![0, 2, 3, 3, 1, 0]);
            // The triangles span the rect's four corners.
            let mut corners = triangles.clone();
            corners.sort();
            corners.dedup();
            assert_eq!(corners.len(), 4);
        }
        other => panic!("expected Polygon, got {other:?}"),
    }
}

#[test]
fn normalize_preserves_non_color_sprite_leaves() {
    let g = LeafGraphic::Sprite { sprite: "Foo".into(), method: SpriteMethod::Mx, flip_x: true, flip_y: false };
    match normalize_leaf(g) {
        LeafGraphic::Sprite { sprite, method, flip_x, .. } => {
            assert_eq!(sprite, "Foo");
            assert_eq!(method, SpriteMethod::Mx);
            assert!(flip_x);
        }
        _ => panic!("non-color sprite should stay as-is"),
    }
    let r = LeafGraphic::SpriteRenderer { sprite: "Color_FF0000".into(), draw_mode: DrawMode::Simple };
    assert!(matches!(normalize_leaf(r), LeafGraphic::SpriteRenderer { .. }));
}

#[test]
fn normalize_is_idempotent() {
    let g = LeafGraphic::Sprite { sprite: "Color_FF0000".into(), method: SpriteMethod::Id, flip_x: false, flip_y: false };
    let once = normalize_leaf(g);
    let twice = normalize_leaf(once.clone());
    match (once, twice) {
        (LeafGraphic::Polygon { polygon_sprite: a }, LeafGraphic::Polygon { polygon_sprite: b }) => assert_eq!(a, b),
        _ => panic!("expected polygons"),
    }
}

// ---- pickers ------------------------------------------------------------------

#[test]
fn picking_a_color_swatch_for_a_sprite_makes_a_rect() {
    assert_eq!(
        pick_outcome("Color_FF0000", Some(GraphicKind::Sprite), PickerKind::Sprite),
        PickOutcome::RectWithColor("Color_FF0000".into())
    );
    assert_eq!(
        pick_outcome("Color_FF0000", Some(GraphicKind::SpriteRenderer), PickerKind::Sprite),
        PickOutcome::RectWithColor("Color_FF0000".into())
    );
    assert_eq!(
        pick_outcome("Eye", Some(GraphicKind::Sprite), PickerKind::Sprite),
        PickOutcome::SpriteRef("Eye".into())
    );
    assert_eq!(
        pick_outcome("Bg", Some(GraphicKind::SpriteRenderer), PickerKind::Sprite),
        PickOutcome::RendererSprite("Bg".into())
    );
    assert_eq!(pick_outcome("Eye", Some(GraphicKind::Polygon), PickerKind::Sprite), PickOutcome::Nothing);
    assert_eq!(pick_outcome("Eye", None, PickerKind::Sprite), PickOutcome::Nothing);
    assert_eq!(pick_outcome("Eye", Some(GraphicKind::Sprite), PickerKind::Color), PickOutcome::Nothing);
}

#[test]
fn color_apply_uppercases_the_swatch() {
    assert_eq!(color_pick_outcome("b73f3e"), PickOutcome::PolygonColor("Color_B73F3E".into()));
}

#[test]
fn picker_filter_is_case_insensitive() {
    assert!(filter_shows("", "Anything"));
    assert!(filter_shows("EYE", "Cat_eye_L"));
    assert!(!filter_shows("ear", "Cat_eye_L"));
}

// ---- edit dispatch by graphic kind -------------------------------------------

#[test]
fn edits_apply_only_to_their_graphic_kind() {
    for k in [NodeEditKind::Name, NodeEditKind::Pos, NodeEditKind::Size, NodeEditKind::Pivot, NodeEditKind::Scale, NodeEditKind::Rot] {
        assert!(edit_applies(k, None));
        assert!(edit_applies(k, Some(GraphicKind::Polygon)));
    }
    assert!(edit_applies(NodeEditKind::SpriteBorderMult, Some(GraphicKind::Sprite)));
    assert!(!edit_applies(NodeEditKind::SpriteBorderMult, Some(GraphicKind::Polygon)));
    assert!(!edit_applies(NodeEditKind::SpriteFlipX, None));
    assert!(edit_applies(NodeEditKind::PolygonRectSize, Some(GraphicKind::Polygon)));
    assert!(!edit_applies(NodeEditKind::PolygonVertex, Some(GraphicKind::SpriteRenderer)));
    assert!(edit_applies(NodeEditKind::SpriteRendererDrawMode, Some(GraphicKind::SpriteRenderer)));
    assert!(!edit_applies(NodeEditKind::SpriteRendererSprite, Some(GraphicKind::Sprite)));
}

#[test]
fn leaf_edits_set_one_field_or_are_ignored() {
    let sprite = || Some(LeafGraphic::Sprite { sprite: "Eye".into(), method: SpriteMethod::Id, flip_x: false, flip_y: false });
    assert_eq!(
        apply_leaf_edit(sprite(), LeafEdit::SpriteRef("Tail".into())),
        Some(LeafGraphic::Sprite { sprite: "Tail".into(), method: SpriteMethod::Id, flip_x: false, flip_y: false })
    );
    assert_eq!(
        apply_leaf_edit(sprite(), LeafEdit::SpriteFlipY(true)),
        Some(LeafGraphic::Sprite { sprite: "Eye".into(), method: SpriteMethod::Id, flip_x: false, flip_y: true })
    );
    assert_eq!(
        apply_leaf_edit(sprite(), LeafEdit::SpriteMethod(SpriteMethod::Mx)),
        Some(LeafGraphic::Sprite { sprite: "Eye".into(), method: SpriteMethod::Mx, flip_x: false, flip_y: false })
    );
    // A polygon color edit on a sprite leaf is ignored.
    assert_eq!(apply_leaf_edit(sprite(), LeafEdit::PolygonColor("Color_FF0000".into())), sprite());
    let poly = Some(LeafGraphic::Polygon { polygon_sprite: "Color_000000".into() });
    assert_eq!(
        apply_leaf_edit(poly.clone(), LeafEdit::PolygonColor("Color_FF0000".into())),
        Some(LeafGraphic::Polygon { polygon_sprite: "Color_FF0000".into() })
    );
    assert_eq!(apply_leaf_edit(poly.clone(), LeafEdit::SpriteFlipX(true)), poly);
    let r = Some(LeafGraphic::SpriteRenderer { sprite: "Bg".into(), draw_mode: DrawMode::Simple });
    assert_eq!(
        apply_leaf_edit(r, LeafEdit::SpriteRendererDrawMode(DrawMode::Tiled)),
        Some(LeafGraphic::SpriteRenderer { sprite: "Bg".into(), draw_mode: DrawMode::Tiled })
    );
    // A node without a graphic stays without one.
    assert_eq!(apply_leaf_edit(None, LeafEdit::SpriteRef("Eye".into())), None);
}
