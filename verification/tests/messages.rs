use unity_sprite_author::combine::CombineError;
use unity_sprite_author::fab::Method;
use unity_sprite_author::manifest::{BridgeError, ManifestError};
use unity_sprite_author::mesh_emit::BuildMeshError;
use unity_sprite_author::meta::MetaError;
use unity_sprite_author::pipeline::{Error, LayoutError};

#[test]
fn meta_error_messages() {
    assert_eq!(MetaError::NoGuidField.message(), "meta has no `guid:` field");
    assert_eq!(
        MetaError::NoAlphaIsTransparencyField.message(),
        "png.meta has no `alphaIsTransparency:` field"
    );
    assert_eq!(MetaError::InvalidGuid("xyz".into()).message(), "invalid guid hex: \"xyz\"");
    assert_eq!(
        MetaError::InvalidAlphaIsTransparencyValue("2".into()).message(),
        "png.meta `alphaIsTransparency:` value not 0/1: \"2\""
    );
    assert_eq!(MetaError::Io("denied".into()).message(), "meta io error: denied");
}

#[test]
fn quoting_escapes_like_debug() {
    let raw = "a\"b\\c\nd";
    let e = MetaError::InvalidGuid(raw.into());
    assert_eq!(e.message(), format!("invalid guid hex: {:?}", raw));
    assert_eq!(e.message(), "invalid guid hex: \"a\\\"b\\\\c\\nd\"");
}

#[test]
fn manifest_error_messages() {
    assert_eq!(ManifestError::UnsupportedVersion(7).message(), "unsupported version: 7");
    assert_eq!(ManifestError::EmptyName.message(), "tree.name must be non-empty");
    assert_eq!(ManifestError::DuplicateName("Cat".into()).message(), "duplicate tree.name: \"Cat\"");
    assert_eq!(
        ManifestError::BadColor { tree: "T".into(), color: "Color_12".into() }.message(),
        "tree \"T\" polygon color \"Color_12\": expected 6 or 8 hex chars"
    );
    assert_eq!(
        ManifestError::UnknownMethod { tree: "T".into(), method: "ZZ".into() }.message(),
        "tree \"T\": unknown sprite method \"ZZ\""
    );
    assert_eq!(
        ManifestError::UnknownDrawMode { tree: "T".into(), mode: "odd".into() }.message(),
        "tree \"T\": unknown drawMode \"odd\""
    );
    assert_eq!(
        ManifestError::PolygonTooFewVertices { tree: "T".into(), n: 2 }.message(),
        "tree \"T\" polygon: need \u{2265} 3 vertices, got 2"
    );
    assert_eq!(
        ManifestError::GraphicShape { tree: "T".into(), reason: "bad" }.message(),
        "tree \"T\" graphic: bad"
    );
    assert_eq!(
        ManifestError::OutputShape { tree: "T".into(), reason: "worse" }.message(),
        "tree \"T\" output: worse"
    );
    assert_eq!(ManifestError::Json("eof".into()).message(), "json: eof");
}

#[test]
fn bridge_combine_and_mesh_messages() {
    assert_eq!(
        BridgeError::OutputMismatch { tree: "T".into(), expected: "csa" }.message(),
        "tree \"T\" output mismatch: expected csa"
    );
    assert_eq!(
        BridgeError::ZeroSizeForSliceMethod { tree: "T".into(), sprite: "S".into() }.message(),
        "tree \"T\" sprite \"S\": size-fitted method requires non-zero size"
    );
    assert_eq!(
        CombineError::SpriteNotFound { combined: "C".into(), sprite: "S".into() }.message(),
        "combined \"C\": sprite \"S\" not found in tpsheet"
    );
    assert_eq!(
        CombineError::SliceConstraint {
            combined: "C".into(),
            sprite: "S".into(),
            method: Method::MxR1c3,
            reason: "too thin",
        }
        .message(),
        "combined \"C\" part \"S\" (method MX_R1C3): too thin"
    );
    assert_eq!(
        BuildMeshError::TiledNonQuad { combined: "M".into(), sprite: "S".into(), vert_count: 6 }.message(),
        "mesh 'M' tiled renderer 'S' has 6 verts (need 4 for axis-aligned quad)"
    );
    assert_eq!(
        BuildMeshError::UnresolvedSprite { combined: "M".into(), sprite: "S".into() }.message(),
        "mesh 'M' references unknown sprite 'S'"
    );
    assert_eq!(BuildMeshError::EmptyMesh("M".into()).message(), "mesh 'M' produced zero vertices");
    assert_eq!(LayoutError::NoStem("/".into()).message(), "path has no file stem: /");
}

#[test]
fn pipeline_error_wraps_the_inner_message() {
    assert_eq!(Error::EmptySheet.message(), "tpsheet has zero sprites");
    assert_eq!(Error::AtlasSizeUnknown.message(), "atlas size missing from tpsheet header");
    assert_eq!(
        Error::DuplicateSpriteName("cat_eye".into()).message(),
        "duplicate sprite name after prefix application: \"cat_eye\""
    );
    assert_eq!(Error::Meta(MetaError::NoGuidField).message(), "meta: meta has no `guid:` field");
    assert_eq!(
        Error::Manifest(ManifestError::EmptyName).message(),
        "manifest: tree.name must be non-empty"
    );
    assert_eq!(
        Error::Io { path: "/a/b".into(), message: "gone".into() }.message(),
        "io error on \"/a/b\": gone"
    );
}
