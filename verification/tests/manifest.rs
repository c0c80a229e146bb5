use unity_sprite_author::fab::Method;
use unity_sprite_author::manifest::{
    check_lowering, check_manifest, draw_mode_str, map_method, method_str, mode_str, parse_method,
    polygon_sprite_names, raw_graphic_of, raw_tree_of, translate_graphic, translate_mode, BridgeError,
    CheckedTree, DrawMode, LeafGraphic, ManifestError, Output, RawGraphic, RawManifest, RawTree, SpriteMethod,
};

fn blank() -> RawGraphic {
    RawGraphic {
        kind: None,
        sprite: None,
        method: None,
        flip_x: None,
        flip_y: None,
        color: None,
        vertex_count: 0,
        draw_mode: None,
    }
}

fn sprite(name: &str, method: Option<&str>) -> RawGraphic {
    RawGraphic {
        kind: Some("sprite".to_string()),
        sprite: Some(name.to_string()),
        method: method.map(|m| m.to_string()),
        ..blank()
    }
}

fn polygon(color: &str) -> RawGraphic {
    RawGraphic {
        kind: Some("polygon".to_string()),
        color: Some(color.to_string()),
        vertex_count: 3,
        ..blank()
    }
}

fn renderer(name: &str) -> RawGraphic {
    RawGraphic {
        kind: Some("spriteRenderer".to_string()),
        sprite: Some(name.to_string()),
        ..blank()
    }
}

fn ui_tree(name: &str, nodes: Vec<RawGraphic>) -> RawTree {
    RawTree {
        name: name.to_string(),
        mode: "ui".to_string(),
        file_id: None,
        output_path: None,
        keep_vertices: None,
        keep_indices: None,
        nodes,
    }
}

fn sma_tree(name: &str, mode: &str, nodes: Vec<RawGraphic>) -> RawTree {
    RawTree {
        name: name.to_string(),
        mode: mode.to_string(),
        file_id: Some(1),
        output_path: Some("o.asset".to_string()),
        keep_vertices: None,
        keep_indices: None,
        nodes,
    }
}

fn check(trees: Vec<RawTree>) -> Result<Vec<CheckedTree>, ManifestError> {
    check_manifest(&RawManifest { version: 1, trees })
}

#[test]
fn parse_polygon_color_6_hex() {
    let m = check(vec![ui_tree("X", vec![polygon("32264D")])]).unwrap();
    match m[0].graphics[0].as_ref().unwrap() {
        LeafGraphic::Polygon { polygon_sprite } => assert_eq!(polygon_sprite, "Color_32264D"),
        _ => panic!(),
    }
}

#[test]
fn parse_polygon_color_8_hex() {
    let m = check(vec![ui_tree("X", vec![polygon("DEADBEEF")])]).unwrap();
    match m[0].graphics[0].as_ref().unwrap() {
        LeafGraphic::Polygon { polygon_sprite } => assert_eq!(polygon_sprite, "Color_DEADBEEF"),
        _ => panic!(),
    }
}

#[test]
fn polygon_color_is_upper_cased() {
    let m = check(vec![ui_tree("X", vec![polygon("00ff00")])]).unwrap();
    match m[0].graphics[0].as_ref().unwrap() {
        LeafGraphic::Polygon { polygon_sprite } => assert_eq!(polygon_sprite, "Color_00FF00"),
        _ => panic!(),
    }
}

#[test]
fn parse_rejects_bad_color() {
    let m = check(vec![ui_tree("X", vec![polygon("NOPE")])]);
    assert!(matches!(m, Err(ManifestError::BadColor { .. })));
    // Seven digits, and a digit that is not hex.
    assert!(matches!(check(vec![ui_tree("X", vec![polygon("1234567")])]), Err(ManifestError::BadColor { .. })));
    assert!(matches!(check(vec![ui_tree("X", vec![polygon("12345G")])]), Err(ManifestError::BadColor { .. })));
}

#[test]
fn polygon_needs_three_vertices() {
    let mut g = polygon("FFFFFF");
    g.vertex_count = 2;
    let m = check(vec![ui_tree("X", vec![g])]);
    assert!(matches!(m, Err(ManifestError::PolygonTooFewVertices { n: 2, .. })));
}

#[test]
fn parse_rejects_unknown_method() {
    let m = check(vec![ui_tree("X", vec![sprite("a", Some("BOGUS"))])]);
    assert!(matches!(m, Err(ManifestError::UnknownMethod { .. })));
}

#[test]
fn sprite_method_defaults_to_id_and_flips_to_false() {
    let m = check(vec![ui_tree("X", vec![sprite("foo", None)])]).unwrap();
    assert_eq!(m[0].output, Output::Csa);
    match m[0].graphics[0].as_ref().unwrap() {
        LeafGraphic::Sprite { sprite, method, flip_x, flip_y } => {
            assert_eq!(sprite, "foo");
            assert_eq!(*method, SpriteMethod::Id);
            assert!(!*flip_x && !*flip_y);
        }
        _ => panic!(),
    }
}

#[test]
fn parse_rejects_sma_as_tag() {
    let m = check(vec![sma_tree("X", "sma-tag", vec![renderer("a")])]);
    assert!(matches!(m, Err(ManifestError::OutputShape { .. })));
}

#[test]
fn sma_output_fields_and_defaults() {
    let mut t = sma_tree("X", "sma-renderer", vec![renderer("foo")]);
    t.file_id = Some(-1234);
    t.output_path = Some("!Output/X.asset".to_string());
    let m = check(vec![t]).unwrap();
    match &m[0].output {
        Output::Sma { file_id, output_path, used_in_canvas, keep_vertices, keep_indices } => {
            assert_eq!(*file_id, -1234);
            assert_eq!(output_path, "!Output/X.asset");
            assert!(!*used_in_canvas);
            assert!(*keep_vertices && *keep_indices);
        }
        _ => panic!(),
    }
    match m[0].graphics[0].as_ref().unwrap() {
        LeafGraphic::SpriteRenderer { sprite, draw_mode } => {
            assert_eq!(sprite, "foo");
            assert_eq!(*draw_mode, DrawMode::Simple);
        }
        _ => panic!(),
    }
}

#[test]
fn mode_rules() {
    let mut ui = ui_tree("X", vec![]);
    ui.keep_indices = Some(false);
    assert!(matches!(translate_mode(&ui), Err(ManifestError::OutputShape { .. })));
    let mut sma = sma_tree("X", "sma-canvas", vec![]);
    sma.file_id = None;
    match translate_mode(&sma) {
        Err(ManifestError::OutputShape { tree, reason }) => {
            assert_eq!(tree, "X");
            assert_eq!(reason, "mode=sma-* requires `fileId`");
        }
        _ => panic!(),
    }
    let mut sma = sma_tree("X", "sma-canvas", vec![]);
    sma.output_path = None;
    assert!(matches!(translate_mode(&sma), Err(ManifestError::OutputShape { .. })));
    let canvas = sma_tree("X", "sma-canvas", vec![]);
    assert!(matches!(translate_mode(&canvas), Ok(Output::Sma { used_in_canvas: true, .. })));
}

#[test]
fn graphic_rules() {
    let mut no_sprite = sprite("a", None);
    no_sprite.sprite = None;
    assert!(matches!(translate_graphic("X", &no_sprite), Err(ManifestError::GraphicShape { .. })));
    let mut odd = blank();
    odd.kind = Some("circle".to_string());
    assert!(matches!(translate_graphic("X", &odd), Err(ManifestError::GraphicShape { .. })));
    let mut tiled = renderer("a");
    tiled.kind = Some("sprite-renderer".to_string());
    tiled.draw_mode = Some("tiled".to_string());
    assert!(matches!(
        translate_graphic("X", &tiled),
        Ok(Some(LeafGraphic::SpriteRenderer { draw_mode: DrawMode::Tiled, .. }))
    ));
    tiled.draw_mode = Some("sliced".to_string());
    match translate_graphic("X", &tiled) {
        Err(ManifestError::UnknownDrawMode { tree, mode }) => {
            assert_eq!(tree, "X");
            assert_eq!(mode, "sliced");
        }
        _ => panic!(),
    }
    assert!(matches!(translate_graphic("X", &blank()), Ok(None)));
}

#[test]
fn parse_rejects_duplicate_tree_name() {
    let m = check(vec![
        ui_tree("X", vec![sprite("a", None)]),
        ui_tree("X", vec![sprite("b", None)]),
    ]);
    assert!(matches!(m, Err(ManifestError::DuplicateName(n)) if n == "X"));
}

#[test]
fn version_and_empty_name_rules() {
    let m = check_manifest(&RawManifest { version: 2, trees: vec![] });
    assert!(matches!(m, Err(ManifestError::UnsupportedVersion(2))));
    assert!(matches!(check(vec![ui_tree("", vec![])]), Err(ManifestError::EmptyName)));
    assert_eq!(check(vec![]).unwrap().len(), 0);
}

#[test]
fn first_broken_rule_wins() {
    // Tree 0's second node fails before tree 1's duplicate name is looked at.
    let m = check(vec![
        ui_tree("A", vec![sprite("a", None), polygon("XYZ")]),
        ui_tree("A", vec![]),
    ]);
    assert!(matches!(m, Err(ManifestError::BadColor { .. })));
}

#[test]
fn method_names_round_trip() {
    let all = [
        SpriteMethod::Id,
        SpriteMethod::Mx,
        SpriteMethod::TxMc3,
        SpriteMethod::R3c3Nf,
        SpriteMethod::MxR3c6,
        SpriteMethod::MyR3c1,
        SpriteMethod::MxyR3c3Nf,
    ];
    for m in all {
        let name = map_method(m).name();
        assert_eq!(parse_method(name), Some(m));
    }
    assert_eq!(parse_method("mx"), None);
    assert_eq!(map_method(SpriteMethod::R1c3), Method::R1c3);
    assert!(SpriteMethod::R1c3.requires_size());
    assert!(!SpriteMethod::Mxy.requires_size());
}

#[test]
fn bridge_rejects_size_fitted_with_explicit_zero_size() {
    let m = check(vec![ui_tree("X", vec![sprite("a", Some("R3C3"))])]).unwrap();
    let err = check_lowering(&m[0], &[true], true).unwrap_err();
    assert!(matches!(err, BridgeError::ZeroSizeForSliceMethod { .. }));
    // A mirror duplicator tolerates a zero axis.
    let m = check(vec![ui_tree("X", vec![sprite("a", Some("MX"))])]).unwrap();
    assert!(check_lowering(&m[0], &[true], true).is_ok());
}

#[test]
fn bridge_rejects_sprite_renderer_in_csa() {
    let m = check(vec![ui_tree("X", vec![renderer("a")])]).unwrap();
    let err = check_lowering(&m[0], &[false], true).unwrap_err();
    assert!(matches!(err, BridgeError::GraphicMismatch { .. }));
}

#[test]
fn bridge_rejects_sma_tree_into_fab_adapter() {
    let m = check(vec![sma_tree("X", "sma-canvas", vec![renderer("a")])]).unwrap();
    let err = check_lowering(&m[0], &[false], true).unwrap_err();
    assert!(matches!(err, BridgeError::OutputMismatch { .. }));
}

#[test]
fn bridge_to_mesh_rejects_csa_tree() {
    let m = check(vec![ui_tree("X", vec![sprite("a", None)])]).unwrap();
    let err = check_lowering(&m[0], &[false], false).unwrap_err();
    assert!(matches!(err, BridgeError::OutputMismatch { .. }));
}

#[test]
fn bridge_to_mesh_rejects_csa_sprite_graphic() {
    let m = check(vec![sma_tree("X", "sma-canvas", vec![sprite("a", Some("ID"))])]).unwrap();
    let err = check_lowering(&m[0], &[false], false).unwrap_err();
    assert!(matches!(err, BridgeError::GraphicMismatch { .. }));
}

#[test]
fn bridge_to_mesh_accepts_polygon_and_renderer() {
    let m = check(vec![sma_tree("X", "sma-canvas", vec![polygon("FFFFFF"), renderer("b"), blank()])]).unwrap();
    assert!(check_lowering(&m[0], &[false, false, false], false).is_ok());
}

#[test]
fn polygon_sprite_names_sorted_deduped_across_trees() {
    let m = check(vec![
        ui_tree("A", vec![polygon("FF0000"), polygon("00ff00")]),
        ui_tree("B", vec![polygon("FF0000"), blank(), polygon("DEADBEEF")]),
    ])
    .unwrap();
    assert_eq!(
        polygon_sprite_names(&m),
        vec!["Color_00FF00", "Color_DEADBEEF", "Color_FF0000"],
    );
}

#[test]
fn polygon_sprite_names_empty_when_no_polygons() {
    let m = check(vec![ui_tree("A", vec![sprite("x", None)])]).unwrap();
    assert!(polygon_sprite_names(&m).is_empty());
}

#[test]
fn written_names_of_methods_modes_and_outputs() {
    assert_eq!(method_str(SpriteMethod::MxyR3c3Nf), "MXY_R3C3_NF");
    assert_eq!(draw_mode_str(DrawMode::Tiled), "tiled");
    assert_eq!(mode_str(&Output::Csa), "ui");
    let sma = Output::Sma {
        file_id: 1,
        output_path: "o".to_string(),
        used_in_canvas: false,
        keep_vertices: true,
        keep_indices: true,
    };
    assert_eq!(mode_str(&sma), "sma-renderer");
}

#[test]
fn written_graphic_leaves_out_defaults() {
    let g = Some(LeafGraphic::Sprite {
        sprite: "a".to_string(),
        method: SpriteMethod::Id,
        flip_x: true,
        flip_y: false,
    });
    let r = raw_graphic_of(&g, 0);
    assert_eq!(r.kind.as_deref(), Some("sprite"));
    assert_eq!(r.method, None);
    assert_eq!(r.flip_x, Some(true));
    assert_eq!(r.flip_y, None);
    let p = Some(LeafGraphic::Polygon { polygon_sprite: "Color_32264D".to_string() });
    assert_eq!(raw_graphic_of(&p, 4).color.as_deref(), Some("32264D"));
    assert!(raw_graphic_of(&None, 0).kind.is_none());
}

#[test]
fn save_then_load_gives_the_same_trees() {
    let mut sma = sma_tree("Y", "sma-canvas", vec![renderer("a"), blank(), polygon("32264d")]);
    sma.keep_vertices = Some(false);
    let mut tiled = renderer("b");
    tiled.draw_mode = Some("tiled".to_string());
    sma.nodes.push(tiled);
    let mut spr = sprite("s", Some("MX_R3C3"));
    spr.flip_y = Some(true);
    let trees = check(vec![
        ui_tree("X", vec![spr, polygon("DEADBEEF"), blank()]),
        sma,
    ])
    .unwrap();
    let raw: Vec<RawTree> = trees
        .iter()
        .map(|t| raw_tree_of(t, &vec![3; t.graphics.len()]))
        .collect();
    let again = check(raw).unwrap();
    assert_eq!(again.len(), trees.len());
    for (a, b) in again.iter().zip(trees.iter()) {
        assert_eq!(a.name, b.name);
        assert_eq!(a.output, b.output);
        assert_eq!(format!("{:?}", a.graphics), format!("{:?}", b.graphics));
    }
}
