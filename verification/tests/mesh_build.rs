use unity_sprite_author::mesh_emit::{first_renderer_error, merge_parts, tile_indices, BuildMeshError, RendererSource};

fn src(sprite: &str, tiled: bool, vert_count: Option<usize>) -> RendererSource {
    RendererSource { sprite: sprite.to_string(), tiled, vert_count }
}

#[test]
fn renderers_that_resolve_pass() {
    let rs = vec![src("Eye", false, Some(7)), src("Bg", true, Some(4))];
    assert!(first_renderer_error("Cat", &rs).is_none());
    assert!(first_renderer_error("Cat", &[]).is_none());
}

#[test]
fn unresolved_sprite_is_reported_with_its_mesh() {
    let rs = vec![src("Eye", false, Some(4)), src("Missing", false, None), src("Bg", true, Some(6))];
    match first_renderer_error("Cat", &rs) {
        Some(BuildMeshError::UnresolvedSprite { combined, sprite }) => {
            assert_eq!(combined, "Cat");
            assert_eq!(sprite, "Missing");
        }
        other => panic!("expected UnresolvedSprite, got {other:?}"),
    }
}

#[test]
fn tiled_non_quad_is_reported_with_its_vertex_count() {
    // The first failing renderer decides, in renderer order.
    let rs = vec![src("Bg", true, Some(6)), src("Missing", false, None)];
    match first_renderer_error("Cat", &rs) {
        Some(BuildMeshError::TiledNonQuad { combined, sprite, vert_count }) => {
            assert_eq!(combined, "Cat");
            assert_eq!(sprite, "Bg");
            assert_eq!(vert_count, 6);
        }
        other => panic!("expected TiledNonQuad, got {other:?}"),
    }
}

#[test]
fn tile_indices_follow_each_tile() {
    assert_eq!(tile_indices(1), vec![0, 1, 2, 2, 1, 3]);
    assert_eq!(tile_indices(2), vec![0, 1, 2, 2, 1, 3, 4, 5, 6, 6, 5, 7]);
    assert!(tile_indices(0).is_empty());
    assert_eq!(tile_indices(199).len(), 6 * 199);
    assert_eq!(tile_indices(199)[6 * 198 + 5], 4 * 198 + 3);
}

#[test]
fn merge_parts_rebases_each_renderer() {
    let parts = vec![(4usize, vec![0u16, 1, 2, 2, 1, 3]), (3usize, vec![0u16, 1, 2]), (4usize, vec![0u16, 2, 3])];
    assert_eq!(merge_parts("Cat", &parts).unwrap(), vec![0, 1, 2, 2, 1, 3, 4, 5, 6, 7, 9, 10]);
}

#[test]
fn merge_parts_refuses_an_empty_mesh() {
    match merge_parts("Cat", &[(0usize, Vec::new())]) {
        Err(BuildMeshError::EmptyMesh(n)) => assert_eq!(n, "Cat"),
        other => panic!("expected EmptyMesh, got {other:?}"),
    }
    assert!(matches!(merge_parts("Cat", &[]), Err(BuildMeshError::EmptyMesh(_))));
}
