use unity_sprite_author::editor::action::{commands, filter_commands, Action};
use unity_sprite_author::editor::node_path::NodePath;
use unity_sprite_author::editor::preferences::Preferences;
use unity_sprite_author::editor::preview::{boundary_edges, SizeHandle};
use unity_sprite_author::editor::selection::{path_is_descendant_of, Selection};
use unity_sprite_author::editor::color::{color_hex_readable, color_to_hex, parse_color_hex};
use unity_sprite_author::editor::history::{DragChain, History};
use unity_sprite_author::editor::ui::{active_after_close, cycle_tab_index, step_row, truncate, PaletteState};

fn p(chain: &[usize]) -> NodePath {
    NodePath { doc: 0, tree: 0, child_chain: chain.to_vec() }
}

// ---- command registry --------------------------------------------------

#[test]
fn empty_query_returns_full_list_in_registry_order() {
    let filtered = filter_commands("");
    assert_eq!(filtered.len(), commands().len());
    assert_eq!(filtered[0].label, "Open File…");
}

#[test]
fn label_prefix_wins_over_keyword_only_match() {
    let filtered = filter_commands("save");
    assert!(filtered[0].label.starts_with("Save"));
}

#[test]
fn multi_term_filter_requires_all_terms() {
    let filtered = filter_commands("save all");
    assert_eq!(filtered.len(), 1);
    assert_eq!(filtered[0].label, "Save All");
}

#[test]
fn keyword_synonyms_match() {
    let filtered = filter_commands("group");
    assert_eq!(filtered.len(), 1);
    assert_eq!(filtered[0].label, "New Container");
}

#[test]
fn case_insensitive_matching() {
    let lower = filter_commands("undo");
    let upper = filter_commands("UNDO");
    assert_eq!(lower.len(), upper.len());
    assert_eq!(lower[0].label, upper[0].label);
}

#[test]
fn no_matches_returns_empty_vec() {
    let filtered = filter_commands("absolutelynothingmatchesthis");
    assert!(filtered.is_empty());
}

#[test]
fn filter_result_is_drawn_from_registry() {
    let all = commands();
    for q in ["new", "tab", "x", "save all", "  undo  "] {
        for e in filter_commands(q) {
            assert!(all.iter().any(|c| c.label == e.label && c.action == e.action));
        }
    }
}

#[test]
fn action_factory_returns_entry_action() {
    for c in commands() {
        assert_eq!(c.action_factory(), c.action);
    }
    assert!(commands().iter().any(|c| c.action == Action::Undo));
}

// ---- preferences --------------------------------------------------------

#[test]
fn defaults_are_on_for_show_toggles() {
    let p = Preferences::default();
    assert!(p.show_polygon);
    assert!(p.show_pivot_markers);
    assert!(p.show_part_outlines);
    assert!(p.show_atlas_aabb);
    assert!(p.recent_files.is_empty());
}

#[test]
fn note_open_dedupes_and_caps() {
    let mut p = Preferences::default();
    for i in 0..10 {
        p.note_open(format!("/tmp/{i}.json"));
    }
    assert_eq!(p.recent_files.len(), 8);
    assert_eq!(p.recent_files[0], "/tmp/9.json");
    p.note_open("/tmp/3.json".to_string());
    assert_eq!(p.recent_files[0], "/tmp/3.json");
    assert_eq!(p.recent_files.len(), 8);
}

#[test]
fn note_open_updates_last_open_dir() {
    let mut p = Preferences::default();
    p.note_open("/foo/bar/baz.json".to_string());
    assert_eq!(p.last_open_dir, Some("/foo/bar".to_string()));
}

#[test]
fn note_open_twice_keeps_one_entry() {
    let mut p = Preferences::default();
    p.note_open("/a.json".to_string());
    p.note_open("/a.json".to_string());
    assert_eq!(p.recent_files, vec!["/a.json".to_string()]);
}

// ---- selection ----------------------------------------------------------

#[test]
fn set_single_replaces() {
    let mut s = Selection::default();
    s.set_single(p(&[1]));
    s.set_single(p(&[2]));
    assert_eq!(s.as_slice(), &[p(&[2])]);
    assert_eq!(s.primary(), Some(&p(&[2])));
}

#[test]
fn toggle_adds_then_removes() {
    let mut s = Selection::default();
    s.toggle(p(&[0]));
    s.toggle(p(&[1]));
    assert_eq!(s.as_slice(), &[p(&[0]), p(&[1])]);
    s.toggle(p(&[0]));
    assert_eq!(s.as_slice(), &[p(&[1])]);
}

#[test]
fn extend_promotes_to_primary() {
    let mut s = Selection::default();
    s.extend(p(&[0]));
    s.extend(p(&[1]));
    s.extend(p(&[0]));
    assert_eq!(s.primary(), Some(&p(&[0])));
    assert_eq!(s.as_slice(), &[p(&[1]), p(&[0])]);
}

#[test]
fn descendants_dropped_when_ancestor_selected() {
    let mut s = Selection::default();
    s.set_single(p(&[0, 1, 2]));
    s.extend(p(&[0, 1]));
    s.extend(p(&[3]));
    let pruned = s.without_descendants_of_selected();
    assert_eq!(pruned, vec![p(&[0, 1]), p(&[3])]);
}

#[test]
fn replace_with_dedupes() {
    let mut s = Selection::default();
    s.replace_with(vec![p(&[0]), p(&[1]), p(&[0])]);
    assert_eq!(s.as_slice(), &[p(&[0]), p(&[1])]);
}

#[test]
fn toggle_twice_restores_selection() {
    let mut s = Selection::default();
    s.extend(p(&[4]));
    s.extend(p(&[5]));
    let before = s.as_slice().to_vec();
    s.toggle(p(&[9]));
    s.toggle(p(&[9]));
    assert_eq!(s.as_slice(), before.as_slice());
}

#[test]
fn selection_queries() {
    let mut s = Selection::default();
    assert_eq!(s.primary(), None);
    assert_eq!(s.len(), 0);
    s.extend(p(&[1]));
    s.extend(p(&[2]));
    assert!(s.is_selected(&p(&[1])));
    assert!(!s.is_selected(&p(&[3])));
    assert_eq!(s.len(), 2);
    assert_eq!(s.iter().count(), 2);
    s.clear();
    assert_eq!(s.len(), 0);
}

#[test]
fn descendant_relation() {
    assert!(path_is_descendant_of(&p(&[0, 1, 2]), &p(&[0, 1])));
    assert!(!path_is_descendant_of(&p(&[0, 1]), &p(&[0, 1])));
    assert!(!path_is_descendant_of(&p(&[0, 2]), &p(&[0, 1])));
    let other_doc = NodePath { doc: 1, tree: 0, child_chain: vec![0, 1, 2] };
    assert!(!path_is_descendant_of(&other_doc, &p(&[0, 1])));
}

#[test]
fn node_path_child_and_parent() {
    let root = NodePath::tree_root(2, 3);
    assert_eq!(root.child_chain, Vec::<usize>::new());
    assert_eq!(root.parent(), None);
    let c = root.child(4).child(1);
    assert_eq!(c.child_chain, vec![4, 1]);
    assert_eq!(c.parent(), Some(root.child(4)));
    assert_eq!(root.child(7).parent(), Some(root));
}

// ---- preview -------------------------------------------------------------

#[test]
fn boundary_edges_finds_only_perimeter() {
    let tris = [0u16, 1, 2, 0, 2, 3];
    let mut got = boundary_edges(&tris, (0, 4));
    got.sort();
    assert_eq!(got.len(), 4);
    let mut want: Vec<(usize, usize)> = vec![(0, 1), (1, 2), (2, 3), (0, 3)];
    want.sort();
    assert_eq!(got, want);
}

#[test]
fn boundary_edges_respects_range() {
    let tris = [0u16, 1, 2, 0, 2, 3, 4, 5, 6, 4, 6, 7];
    let got = boundary_edges(&tris, (0, 4));
    assert_eq!(got.len(), 4, "{got:?}");
    for (a, b) in &got {
        assert!(*a < 4 && *b < 4);
    }
}

#[test]
fn boundary_edges_ignores_partial_triangle_and_empty_range() {
    let tris = [0u16, 1, 2, 7];
    let mut got = boundary_edges(&tris, (0, 3));
    got.sort();
    assert_eq!(got, vec![(0, 1), (0, 2), (1, 2)]);
    assert!(boundary_edges(&tris, (3, 3)).is_empty());
}

#[test]
fn handle_edge_mask_corners_drag_both_axes() {
    assert_eq!(SizeHandle::Nw.edge_mask(), (true, true, false, false));
    assert_eq!(SizeHandle::Se.edge_mask(), (false, false, true, true));
    assert_eq!(SizeHandle::N.edge_mask(), (false, true, false, false));
    assert_eq!(SizeHandle::Mid.edge_mask(), (false, false, false, false));
}

#[test]
fn handles_by_index_and_opposites() {
    assert_eq!(SizeHandle::from_idx(0), SizeHandle::Nw);
    assert_eq!(SizeHandle::from_idx(8), SizeHandle::Se);
    assert_eq!(SizeHandle::from_idx(9), SizeHandle::Rotate);
    assert_eq!(SizeHandle::Rotate.edge_mask(), (false, false, false, false));
    for i in 0..9 {
        let m = SizeHandle::from_idx(i).edge_mask();
        let o = SizeHandle::from_idx(8 - i).edge_mask();
        assert_eq!((m.0, m.1, m.2, m.3), (o.2, o.3, o.0, o.1));
    }
}

// ---- palette and picker -------------------------------------------------

#[test]
fn palette_navigation_stays_in_bounds() {
    let mut st = PaletteState::default();
    st.navigate(3, true, false);
    assert_eq!(st.selected_idx, 1);
    st.navigate(3, true, false);
    st.navigate(3, true, false);
    assert_eq!(st.selected_idx, 2);
    st.navigate(1, false, false);
    assert_eq!(st.selected_idx, 0);
    st.navigate(0, true, true);
    assert_eq!(st.selected_idx, 0);
    st.selected_idx = 5;
    st.navigate(4, false, true);
    assert_eq!(st.selected_idx, 2);
}

#[test]
fn truncate_keeps_short_and_ellipsizes_long() {
    assert_eq!(truncate("Color_FFFFFF", 12), "Color_FFFFFF");
    assert_eq!(truncate("Color_FFFFFF", 6), "Color…");
    assert_eq!(truncate("ééé", 2), "é…");
    assert_eq!(truncate("", 0), "");
}

// ---- history and tabs ----------------------------------------------------

#[test]
fn undo_restores_recorded_snapshot_and_redo_reapplies() {
    let mut h: History<String> = History::new();
    let mut doc = "v1".to_string();
    h.record(doc.clone());
    doc = "v2".to_string();
    assert!(h.undo(&mut doc));
    assert_eq!(doc, "v1");
    assert!(h.redo(&mut doc));
    assert_eq!(doc, "v2");
    assert!(!h.redo(&mut doc));
    assert_eq!(doc, "v2");
    assert!(h.undo(&mut doc));
    assert!(!h.undo(&mut doc));
    assert_eq!(doc, "v1");
}

#[test]
fn recording_forgets_redo_and_caps_at_two_hundred() {
    let mut h: History<u32> = History::new();
    let mut doc = 0u32;
    h.record(0);
    doc += 1;
    h.undo(&mut doc);
    assert_eq!(h.redo_len(), 1);
    h.record(doc);
    assert_eq!(h.redo_len(), 0);
    for i in 0..250 {
        h.record(i);
    }
    assert_eq!(h.undo_len(), 200);
    let mut d = 999;
    h.undo(&mut d);
    assert_eq!(d, 249);
}

#[test]
fn drag_chain_records_first_edit_only() {
    let mut c = DragChain { in_chain: false };
    assert!(c.note_edit(true));
    assert!(!c.note_edit(true));
    assert!(c.note_edit(false));
    assert!(c.note_edit(true));
    c.reset();
    assert!(c.note_edit(true));
}

#[test]
fn closing_tabs_moves_the_active_tab() {
    assert_eq!(active_after_close(Some(1), 1, 3), Some(1));
    assert_eq!(active_after_close(Some(2), 2, 2), Some(1));
    assert_eq!(active_after_close(Some(0), 0, 0), None);
    assert_eq!(active_after_close(Some(3), 1, 3), Some(2));
    assert_eq!(active_after_close(Some(0), 2, 3), Some(0));
    assert_eq!(active_after_close(None, 0, 3), None);
}

#[test]
fn cycling_tabs_wraps_both_ways() {
    assert_eq!(cycle_tab_index(Some(2), 1, 3), 0);
    assert_eq!(cycle_tab_index(Some(0), -1, 3), 2);
    assert_eq!(cycle_tab_index(None, 1, 3), 1);
    assert_eq!(cycle_tab_index(Some(1), -4, 3), 0);
}

#[test]
fn stepping_rows_clamps() {
    assert_eq!(step_row(0, -1, 5), 0);
    assert_eq!(step_row(4, 1, 5), 4);
    assert_eq!(step_row(2, 1, 5), 3);
}

#[test]
fn click_modifiers_pick_the_selection_rule() {
    let mut s = Selection::default();
    s.apply_click(p(&[0]), false, false);
    s.apply_click(p(&[1]), false, true);
    assert_eq!(s.as_slice(), &[p(&[0]), p(&[1])]);
    s.apply_click(p(&[0]), true, false);
    assert_eq!(s.as_slice(), &[p(&[1])]);
    s.apply_click(p(&[2]), false, false);
    assert_eq!(s.as_slice(), &[p(&[2])]);
}

// ---- colors ---------------------------------------------------------------

#[test]
fn color_hex_drops_opaque_alpha() {
    assert_eq!(color_to_hex(0x32, 0x26, 0x4d, 255), "32264D");
    assert_eq!(color_to_hex(0xde, 0xad, 0xbe, 0xef), "DEADBEEF");
    assert_eq!(color_to_hex(0, 0, 0, 0), "00000000");
}

#[test]
fn typed_colors_read_back() {
    assert_eq!(parse_color_hex(" 32264d "), Some((0x32, 0x26, 0x4d, 255)));
    assert_eq!(parse_color_hex("DEADBEEF"), Some((0xde, 0xad, 0xbe, 0xef)));
    assert_eq!(parse_color_hex("12345"), None);
    assert_eq!(parse_color_hex("GG0000"), None);
    assert_eq!(parse_color_hex("+F+F+F"), Some((15, 15, 15, 255)));
    for c in [(1u8, 2u8, 3u8, 255u8), (250, 128, 0, 7)] {
        assert_eq!(parse_color_hex(&color_to_hex(c.0, c.1, c.2, c.3)), Some(c));
    }
}

#[test]
fn colors_that_would_split_a_character_are_flagged() {
    assert!(color_hex_readable("32264D"));
    assert!(color_hex_readable("éé0000"));
    assert_eq!(parse_color_hex("éé0000"), None);
    assert!(!color_hex_readable("aé000"));
    assert!(color_hex_readable("aé0000"));
}

#[test]
fn boundary_edges_keeps_odd_incidence() {
    // Three triangles share (0, 1): an odd count, so it is a boundary edge.
    let mut got = boundary_edges(&[0, 1, 2, 0, 1, 3, 0, 1, 4], (0, 5));
    got.sort();
    assert_eq!(got, vec![(0, 1), (0, 2), (0, 3), (0, 4), (1, 2), (1, 3), (1, 4)]);
}
