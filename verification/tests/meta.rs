use unity_sprite_author::meta::{
    detect_format, detect_shape, guid_hex, mint_guid, mint_guid_from, parse_guid,
    render_asset_meta, render_asset_meta_with_format, render_asset_meta_with_shape,
    resolve_sprite_guid_text, resolve_sprite_meta_text, tps_prefix_from_meta,
    update_alpha_is_transparency, MetaError, MetaFormat, MetaShape,
};

/// The sprite `.asset.meta` of `Cake__DecoLeft` in the Orgel atlas: emitted
/// by an older Unity, so in the 189-byte trailing-space form.
const CAKE_DECOLEFT_META: &str = "fileFormatVersion: 2\n\
guid: d4c782eb3340c41848b2a0a903c0fcea\n\
NativeFormatImporter:\n  \
externalObjects: {}\n  \
mainObjectFileID: 21300000\n  \
userData: \n  \
assetBundleName: \n  \
assetBundleVariant: \n";

/// The Orgel atlas `.png.meta` (TextureImporter), premultiplied alpha.
const ATLAS_META: &str = "fileFormatVersion: 2\n\
guid: 65583bd2af0024cd586c22cdc38c4672\n\
TextureImporter:\n  \
internalIDToNameTable: []\n  \
externalObjects: {}\n  \
serializedVersion: 12\n  \
mipmaps:\n    \
mipMapMode: 0\n    \
enableMipMap: 0\n    \
sRGBTexture: 1\n  \
isReadable: 0\n  \
textureFormat: 1\n  \
maxTextureSize: 2048\n  \
textureSettings:\n    \
serializedVersion: 2\n    \
filterMode: 1\n    \
aniso: 1\n  \
nPOTScale: 0\n  \
lightmap: 0\n  \
compressionQuality: 50\n  \
spriteMode: 1\n  \
spriteExtrude: 1\n  \
spriteMeshType: 1\n  \
alignment: 0\n  \
spritePivot: {x: 0.5, y: 0.5}\n  \
spritePixelsToUnits: 100\n  \
spriteBorder: {x: 0, y: 0, z: 0, w: 0}\n  \
alphaUsage: 1\n  \
alphaIsTransparency: 0\n  \
spriteTessellationDetail: -1\n  \
textureType: 8\n  \
textureShape: 1\n  \
userData: \n  \
assetBundleName: \n  \
assetBundleVariant: \n";

#[test]
fn render_legacy189_byte_exact_against_cake_decoleft() {
    let shape = detect_shape(CAKE_DECOLEFT_META);
    assert_eq!(shape.format, MetaFormat::Legacy189);
    let guid = parse_guid(CAKE_DECOLEFT_META).unwrap();
    let rendered = render_asset_meta_with_shape(&guid, shape);
    assert_eq!(rendered, CAKE_DECOLEFT_META);
    assert_eq!(rendered.len(), 189);
}

#[test]
fn render_modern186_size_and_round_trip() {
    let guid = parse_guid(CAKE_DECOLEFT_META).unwrap();
    let rendered = render_asset_meta(&guid);
    assert_eq!(rendered.len(), 186);
    assert_eq!(parse_guid(&rendered).unwrap(), guid);
    assert!(rendered.contains("mainObjectFileID: 21300000\n"));
    assert!(rendered.ends_with("assetBundleVariant:\n"));
}

#[test]
fn parse_atlas_png_meta_guid() {
    let g = parse_guid(ATLAS_META).unwrap();
    assert_eq!(g[0], 0x65);
    assert_eq!(g[15], 0x72);
}

#[test]
fn mint_guid_is_16_bytes_and_random() {
    let a = mint_guid();
    let b = mint_guid();
    assert_ne!(a, b);
}

#[test]
fn mint_guid_from_seeds_is_deterministic() {
    let g = mint_guid_from(0xDEAD_BEEF_CAFE_F00D, 0x0123_4567_89AB_CDEF);
    assert_eq!(
        g,
        [
            0x0d, 0xf0, 0xfe, 0xca, 0xef, 0xbe, 0xad, 0xde,
            0xef, 0xcd, 0xab, 0x89, 0x67, 0x45, 0x23, 0x01,
        ]
    );
    let meta = render_asset_meta(&g);
    assert!(
        meta.contains("guid: 0df0fecaefbeaddeefcdab8967452301\n"),
        "rendered meta missing minted guid line: {meta}"
    );
    assert_eq!(meta.len(), 186);
}

#[test]
fn resolve_existing_preserves_guid() {
    let g = resolve_sprite_guid_text(Some(CAKE_DECOLEFT_META)).unwrap();
    assert_eq!(guid_hex(&g), "d4c782eb3340c41848b2a0a903c0fcea");
}

#[test]
fn resolve_missing_mints_fresh() {
    let g = resolve_sprite_guid_text(None).unwrap();
    assert_ne!(g, [0u8; 16]);
    let (g2, shape) = resolve_sprite_meta_text(None).unwrap();
    assert_ne!(g2, [0u8; 16]);
    assert_eq!(shape, MetaShape::fresh());
}

#[test]
fn resolve_existing_meta_preserves_guid_and_shape() {
    let (g, shape) = resolve_sprite_meta_text(Some(CAKE_DECOLEFT_META)).unwrap();
    assert_eq!(guid_hex(&g), "d4c782eb3340c41848b2a0a903c0fcea");
    assert_eq!(shape, MetaShape { format: MetaFormat::Legacy189, main_object_file_id: 21300000 });
}

#[test]
fn detect_format_recognizes_legacy_trailing_space() {
    let legacy = "fileFormatVersion: 2\n\
                  guid: aaaaaaaaaaaaaaaaaaaaaaaaaaaaaaaa\n\
                  NativeFormatImporter:\n  \
                    externalObjects: {}\n  \
                    mainObjectFileID: 21300000\n  \
                    userData: \n  \
                    assetBundleName: \n  \
                    assetBundleVariant: \n";
    assert_eq!(detect_format(legacy), MetaFormat::Legacy189);
}

#[test]
fn detect_format_recognizes_modern_no_trailing_space() {
    let modern = "fileFormatVersion: 2\n\
                  guid: aaaaaaaaaaaaaaaaaaaaaaaaaaaaaaaa\n\
                  NativeFormatImporter:\n  \
                    externalObjects: {}\n  \
                    mainObjectFileID: 21300000\n  \
                    userData:\n  \
                    assetBundleName:\n  \
                    assetBundleVariant:\n";
    assert_eq!(detect_format(modern), MetaFormat::Modern186);
}

#[test]
fn detect_shape_reads_zero_main_object_id() {
    let guid = [7u8; 16];
    let shape = MetaShape { format: MetaFormat::Modern186, main_object_file_id: 0 };
    let text = render_asset_meta_with_shape(&guid, shape);
    assert_eq!(detect_shape(&text), shape);
    assert!(text.contains("  mainObjectFileID: 0\n"));
}

#[test]
fn detect_shape_negative_and_unparseable_ids() {
    assert_eq!(
        detect_shape("  mainObjectFileID: -42 \n").main_object_file_id,
        -42
    );
    // An unparseable value is skipped; the next parseable line wins.
    assert_eq!(
        detect_shape("mainObjectFileID: x\nmainObjectFileID: +7\n").main_object_file_id,
        7
    );
    // Out of i64 range: ignored, default kept.
    assert_eq!(
        detect_shape("mainObjectFileID: 9223372036854775808\n").main_object_file_id,
        21300000
    );
    assert_eq!(
        detect_shape("mainObjectFileID: -9223372036854775808\n").main_object_file_id,
        i64::MIN
    );
}

#[test]
fn render_with_format_uses_sprite_file_id() {
    let guid = [0xABu8; 16];
    let legacy = render_asset_meta_with_format(&guid, MetaFormat::Legacy189);
    assert_eq!(legacy.len(), 189);
    assert!(legacy.contains("  mainObjectFileID: 21300000\n"));
    let modern = render_asset_meta_with_format(&guid, MetaFormat::Modern186);
    assert_eq!(modern, render_asset_meta(&guid));
}

#[test]
fn parse_guid_errors() {
    assert!(matches!(parse_guid("fileFormatVersion: 2\n"), Err(MetaError::NoGuidField)));
    assert!(matches!(parse_guid("guid: abc\n"), Err(MetaError::InvalidGuid(s)) if s == "abc"));
    assert!(matches!(
        parse_guid("guid: zz0000000000000000000000000000000\n"),
        Err(MetaError::InvalidGuid(_))
    ));
    // Surrounding whitespace of the value is trimmed; only hex digits count.
    let g = parse_guid("guid:  0102030405060708090A0b0c0d0e0f00 \r\n").unwrap();
    assert_eq!(g, [1, 2, 3, 4, 5, 6, 7, 8, 9, 10, 11, 12, 13, 14, 15, 0]);
    assert!(matches!(
        parse_guid("guid: +1+2+3+4+5+6+7+8+9+a+b+c+d+e+f+0\n"),
        Err(MetaError::InvalidGuid(_))
    ));
}

#[test]
fn read_tps_prefix_picks_up_value() {
    let meta = "fileFormatVersion: 2\nguid: 0\nScriptedImporter:\n  _prefix: AC_\n";
    assert_eq!(tps_prefix_from_meta(meta).as_deref(), Some("AC_"));
}

#[test]
fn read_tps_prefix_empty_value_returns_none() {
    assert!(tps_prefix_from_meta("ScriptedImporter:\n  _prefix: \n").is_none());
}

#[test]
fn read_tps_prefix_no_field_returns_none() {
    let meta = "fileFormatVersion: 2\nguid: 0\nDefaultImporter:\n  externalObjects: {}\n";
    assert!(tps_prefix_from_meta(meta).is_none());
}

#[test]
fn update_alpha_flips_one_to_zero() {
    let src = ATLAS_META.replace("alphaIsTransparency: 0", "alphaIsTransparency: 1");
    let out = update_alpha_is_transparency(&src, false).unwrap();
    assert!(out.contains("alphaIsTransparency: 0\n"));
    assert!(!out.contains("alphaIsTransparency: 1"));
    let expected = src.replace("alphaIsTransparency: 1", "alphaIsTransparency: 0");
    assert_eq!(out, expected);
}

#[test]
fn update_alpha_flips_zero_to_one() {
    let out = update_alpha_is_transparency(ATLAS_META, true).unwrap();
    assert!(out.contains("alphaIsTransparency: 1\n"));
    assert!(!out.contains("alphaIsTransparency: 0\n"));
    let expected = ATLAS_META.replace("alphaIsTransparency: 0", "alphaIsTransparency: 1");
    assert_eq!(out, expected);
}

#[test]
fn update_alpha_noop_when_already_matches_is_byte_identical() {
    let out = update_alpha_is_transparency(ATLAS_META, false).unwrap();
    assert_eq!(out, ATLAS_META, "matching value must round-trip byte-identical");
}

#[test]
fn update_alpha_missing_field_errors() {
    let stripped: String = ATLAS_META
        .lines()
        .filter(|l| !l.trim_start().starts_with("alphaIsTransparency:"))
        .collect::<Vec<_>>()
        .join("\n");
    let err = update_alpha_is_transparency(&stripped, true).unwrap_err();
    assert!(matches!(err, MetaError::NoAlphaIsTransparencyField), "got {err:?}");
}

#[test]
fn update_alpha_invalid_value_errors() {
    let src = ATLAS_META.replace("alphaIsTransparency: 0", "alphaIsTransparency: 2");
    let err = update_alpha_is_transparency(&src, false).unwrap_err();
    assert!(
        matches!(err, MetaError::InvalidAlphaIsTransparencyValue(_)),
        "got {err:?}"
    );
}

#[test]
fn update_alpha_canonicalizes_and_is_idempotent() {
    let src = "a: 1\n    alphaIsTransparency:   1 \r\nb: 2";
    let out = update_alpha_is_transparency(src, true).unwrap();
    assert_eq!(out, "a: 1\n    alphaIsTransparency: 1\nb: 2");
    assert_eq!(update_alpha_is_transparency(&out, true).unwrap(), out);
    let back = update_alpha_is_transparency(&out, false).unwrap();
    assert_eq!(back, "a: 1\n    alphaIsTransparency: 0\nb: 2");
}

#[test]
fn preserve_rerenders_byte_identically() {
    let guid: [u8; 16] = [0xd4, 0xc7, 0x82, 0xeb, 0x33, 0x40, 0xc4, 0x18, 0x48, 0xb2, 0xa0, 0xa9, 0x03, 0xc0, 0xfc, 0xea];
    for format in [MetaFormat::Modern186, MetaFormat::Legacy189] {
        for id in [21300000i64, 0, -7, i64::MIN, i64::MAX] {
            let shape = MetaShape { format, main_object_file_id: id };
            let text = render_asset_meta_with_shape(&guid, shape);
            let g = parse_guid(&text).unwrap();
            let s = detect_shape(&text);
            assert_eq!(g, guid);
            assert_eq!(s, shape);
            assert_eq!(render_asset_meta_with_shape(&g, s), text);
        }
    }
}

#[test]
fn guid_with_sign_pairs_is_invalid() {
    let text = "fileFormatVersion: 2\nguid: +f+f+f+f+f+f+f+f+f+f+f+f+f+f+f+f\n";
    match parse_guid(text) {
        Err(MetaError::InvalidGuid(v)) => assert_eq!(v, "+f+f+f+f+f+f+f+f+f+f+f+f+f+f+f+f"),
        other => panic!("expected InvalidGuid, got {other:?}"),
    }
}

#[test]
fn guid_with_non_ascii_is_invalid_not_a_panic() {
    let text = "guid: ééééééééééééééé0a\n";
    assert!(matches!(parse_guid(text), Err(MetaError::InvalidGuid(_))));
}
