use unity_sprite_author::combine::{
    build_strap_indices, check_method_constraints, create_grid_indices, push_quad, r3c3_nf_indices, Border,
    CombineError, Rect,
};
use unity_sprite_author::fab::Method;
use unity_sprite_author::mesh_emit::{emit_channels_canvas, emit_channels_sprite, encode_index_buffer, sprite_index};

fn rect(w: u32, h: u32) -> Rect {
    Rect { x: 0, y: 0, w, h }
}

fn border(left: i32, bottom: i32, right: i32, top: i32) -> Border {
    Border { left, bottom, right, top }
}

fn reason(r: Result<(), CombineError>) -> &'static str {
    match r {
        Err(CombineError::SliceConstraint { reason, .. }) => reason,
        _ => panic!("expected a slice constraint"),
    }
}

#[test]
fn unconstrained_methods_accept_any_border() {
    for m in [Method::Id, Method::Mx, Method::My, Method::Mxy, Method::Tx, Method::Ty] {
        assert!(check_method_constraints(m, rect(3, 3), border(-5, 7, 0, 99), "C", "s").is_ok());
    }
}

#[test]
fn tx_mc3_wants_mirrored_left_edge() {
    let r = check_method_constraints(Method::TxMc3, rect(10, 4), border(1, 0, 2, 0), "C", "s");
    assert_eq!(reason(r), "left border must be 0 (TX_MC3 expects mirrored edges)");
    let r = check_method_constraints(Method::TxMc3, rect(10, 4), border(0, 0, 0, 0), "C", "s");
    assert_eq!(reason(r), "right border must be > 0 (TX_MC3 needs edge width)");
    assert!(check_method_constraints(Method::TxMc3, rect(10, 4), border(0, 0, 3, 0), "C", "s").is_ok());
}

#[test]
fn r1c3_border_sum_must_equal_width() {
    let r = check_method_constraints(Method::R1c3, rect(10, 4), border(3, 0, 3, 0), "C", "s");
    assert_eq!(reason(r), "R1C3 requires border.left + border.right == sprite.rect.width");
    assert!(check_method_constraints(Method::R1c3, rect(10, 4), border(4, 0, 6, 0), "C", "s").is_ok());
}

#[test]
fn mx_r3c3_requires_full_width_right_border() {
    let r = check_method_constraints(Method::MxR3c3, rect(8, 8), border(1, 2, 8, 2), "Combo", "spr");
    match r {
        Err(CombineError::SliceConstraint { combined, sprite, method, reason }) => {
            assert_eq!(combined, "Combo");
            assert_eq!(sprite, "spr");
            assert_eq!(method, Method::MxR3c3);
            assert_eq!(reason, "MX_R1C3 / MX_R3C3 require border.left == 0");
        }
        _ => panic!(),
    }
    let r = check_method_constraints(Method::MxR3c3, rect(8, 8), border(0, 2, 7, 2), "C", "s");
    assert_eq!(reason(r), "MX_R1C3 / MX_R3C3 require border.right == sprite.rect.width");
    assert!(check_method_constraints(Method::MxR3c3, rect(8, 8), border(0, 2, 8, 2), "C", "s").is_ok());
}

#[test]
fn my_r3c1_wants_zero_sides() {
    let r = check_method_constraints(Method::MyR3c1, rect(8, 8), border(0, 0, 1, 8), "C", "s");
    assert_eq!(reason(r), "MY_R3C1 requires border.left == 0 AND border.right == 0");
    assert!(check_method_constraints(Method::MyR3c1, rect(8, 8), border(0, 0, 0, 8), "C", "s").is_ok());
}

#[test]
fn method_names_and_size_rules() {
    assert_eq!(Method::MxyR3c3Nf.name(), "MXY_R3C3_NF");
    assert_eq!(Method::Id.name(), "ID");
    assert!(!Method::Mx.requires_size());
    assert!(Method::Tx.requires_size());
    assert!(!Method::Tx.uses_border());
    assert!(Method::R3c3.uses_border());
}

#[test]
fn quad_winding_and_grids() {
    let mut t = Vec::new();
    push_quad(&mut t, 0, 1, 2, 3);
    assert_eq!(t, vec![0, 1, 3, 0, 3, 2]);
    let g = create_grid_indices(1, 1);
    assert_eq!(g, vec![0, 2, 3, 3, 1, 0]);
    assert_eq!(create_grid_indices(3, 3).len(), 54);
    assert!(create_grid_indices(0, 5).is_empty());
    assert_eq!(r3c3_nf_indices().len(), 48);
    assert_eq!(build_strap_indices(2).len(), 24);
}

#[test]
fn index_buffer_is_little_endian_hex() {
    let mut s = String::from("x: ");
    encode_index_buffer(&[0, 1, 0x1234, 0xffff], &mut s);
    assert_eq!(s, "x: 000001003412ffff");
}

#[test]
fn channel_tables_have_fourteen_entries() {
    let mut c = String::new();
    emit_channels_canvas(&mut c);
    assert_eq!(c.matches("    - stream: 0\n").count(), 14);
    assert!(c.starts_with("    - stream: 0\n      offset: 0\n      format: 0\n      dimension: 3\n"));
    assert!(c.contains("      offset: 12\n      format: 2\n      dimension: 4\n"));
    let mut s = String::new();
    emit_channels_sprite(&mut s);
    assert_eq!(s.matches("    - stream: 0\n").count(), 14);
}

#[test]
fn sprite_index_keeps_last_entry_per_name() {
    let names: Vec<String> = ["a", "b", "a", "c"].iter().map(|s| s.to_string()).collect();
    let mut idx = sprite_index(&names);
    idx.sort();
    assert_eq!(
        idx,
        vec![("a".to_string(), 2), ("b".to_string(), 1), ("c".to_string(), 3)]
    );
    assert!(sprite_index(&[]).is_empty());
}
