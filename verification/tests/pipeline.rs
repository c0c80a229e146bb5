use unity_sprite_author::pipeline::{
    combined_step, extract_smart_update_key, plan_generate, plan_sheet_sprites, GeneratePlan, GeneratePlanInputs, fab_manifest_path, group_by_output, orphan_asset,
    png_meta_path, plan_imports, select_imports, smart_update_unchanged, sprite_step, to_ascii_lowercase,
    with_tmp_suffix, Error, GenerateOutput, LayoutError, NameRegistry, SpriteStep, StandardLayout,
};

#[test]
fn standard_layout_from_tps_derives_sibling_paths() {
    let layout = StandardLayout::from_tps("/proj/Assets/Orgel.tps").unwrap();
    assert_eq!(layout.tps_path, "/proj/Assets/Orgel.tps");
    assert_eq!(layout.tpsheet_path, "/proj/Assets/Orgel.tpsheet");
    assert_eq!(layout.atlas_png_path, "/proj/Assets/Orgel.png");
    assert_eq!(layout.sprite_dir, "/proj/Assets/Orgel");
}

#[test]
fn standard_layout_from_tpsheet_matches_from_tps() {
    let a = StandardLayout::from_tps("/proj/Assets/Orgel.tps").unwrap();
    let b = StandardLayout::from_tpsheet("/proj/Assets/Orgel.tpsheet").unwrap();
    assert_eq!(a.tpsheet_path, b.tpsheet_path);
    assert_eq!(a.tps_path, b.tps_path);
    assert_eq!(a.atlas_png_path, b.atlas_png_path);
    assert_eq!(a.sprite_dir, b.sprite_dir);
}

#[test]
fn standard_layout_errors_on_stemless_path() {
    assert!(matches!(StandardLayout::from_tps("/"), Err(LayoutError::NoStem(_))));
}

#[test]
fn standard_layout_of_bare_file_name() {
    let layout = StandardLayout::from_tps("Orgel.tps").unwrap();
    assert_eq!(layout.sprite_dir, "Orgel");
    assert_eq!(layout.atlas_png_path, "Orgel.png");
}

#[test]
fn standard_layout_keeps_a_dotted_stem() {
    let layout = StandardLayout::from_tps("/p/Orgel.v2.tps").unwrap();
    assert_eq!(layout.tpsheet_path, "/p/Orgel.v2.tpsheet");
    assert_eq!(layout.tps_path, "/p/Orgel.v2.tps");
    assert_eq!(layout.atlas_png_path, "/p/Orgel.v2.png");
    assert_eq!(layout.sprite_dir, "/p/Orgel.v2");
}

#[test]
fn sibling_paths_append_suffixes() {
    assert_eq!(png_meta_path("/a/Orgel.png"), "/a/Orgel.png.meta");
    assert_eq!(with_tmp_suffix("/a/X.asset"), "/a/X.asset.tmp");
    assert_eq!(fab_manifest_path("/a/Orgel.tps"), "/a/Orgel.tps.fab.json");
}

#[test]
fn smart_update_key_found_and_trimmed() {
    let text = "# header\n# $TexturePacker:SmartUpdate:abc123:def$\n:format=40300\n";
    assert_eq!(extract_smart_update_key(text), Some("abc123:def".to_string()));
    assert_eq!(extract_smart_update_key("no key here\n"), None);
    // An empty key does not count; a later line still can.
    let text = "$TexturePacker:SmartUpdate:$$\r\n  x $TexturePacker:SmartUpdate: k2 $\n";
    assert_eq!(extract_smart_update_key(text), Some("k2".to_string()));
}

#[test]
fn smart_update_skip_compares_trimmed_stored_key() {
    assert!(smart_update_unchanged("abc\n", "abc"));
    assert!(!smart_update_unchanged("abd\n", "abc"));
    assert!(!smart_update_unchanged("", "abc"));
}

#[test]
fn ascii_lowercase_only_folds_ascii() {
    assert_eq!(to_ascii_lowercase("Foo_ÄBC"), "foo_Äbc");
}

#[test]
fn case_only_duplicate_sprite_names_are_refused() {
    let mut reg = NameRegistry::new();
    assert_eq!(
        sprite_step(&mut reg, "ui_", "Foo", false, false).unwrap(),
        SpriteStep::Emit("ui_Foo".to_string())
    );
    match sprite_step(&mut reg, "ui_", "foo", false, false) {
        Err(Error::DuplicateSpriteName(n)) => assert_eq!(n, "ui_foo"),
        _ => panic!(),
    }
}

#[test]
fn parts_are_kept_and_combined_names_skipped() {
    let mut reg = NameRegistry::new();
    assert_eq!(sprite_step(&mut reg, "", "Body", true, true).unwrap(), SpriteStep::Skip);
    assert!(!reg.contains("body"));
    assert_eq!(sprite_step(&mut reg, "", "Arm", false, true).unwrap(), SpriteStep::Keep);
    assert!(reg.contains("ARM"));
    // A part keeps its on-disk asset but a combined tree of the same name
    // collides with it.
    assert!(matches!(combined_step(&mut reg, "", "arm"), Err(Error::DuplicateSpriteName(_))));
    assert_eq!(combined_step(&mut reg, "", "Body").unwrap(), "Body");
    assert!(matches!(combined_step(&mut reg, "", "BODY"), Err(Error::DuplicateSpriteName(_))));
}

#[test]
fn orphans_are_unclaimed_asset_files() {
    let mut reg = NameRegistry::new();
    assert!(reg.insert("Foo"));
    assert!(!reg.insert("FOO"));
    assert!(!orphan_asset(&reg, "foo.asset"));
    assert!(orphan_asset(&reg, "bar.asset"));
    assert!(!orphan_asset(&reg, "bar.asset.meta"));
    assert!(!orphan_asset(&reg, ".asset"));
    assert!(!orphan_asset(&reg, "bar"));
    assert!(orphan_asset(&reg, "a.b.asset"));
}

#[test]
fn imports_are_changed_writes_then_png() {
    let written = vec!["a.asset".to_string(), "b.asset".to_string(), "c.asset".to_string()];
    let changed = vec!["c.asset".to_string(), "x.meta".to_string(), "a.asset".to_string()];
    assert_eq!(
        select_imports(&written, &changed, Some("Atlas.png")),
        vec!["a.asset".to_string(), "c.asset".to_string(), "Atlas.png".to_string()]
    );
    assert!(select_imports(&written, &[], None).is_empty());
}

#[test]
fn meshes_group_by_output_path_in_first_seen_order() {
    let paths: Vec<String> = ["x.asset", "y.asset", "x.asset", "z.asset", "y.asset"]
        .iter()
        .map(|s| s.to_string())
        .collect();
    let g = group_by_output(&paths);
    assert_eq!(
        g,
        vec![
            ("x.asset".to_string(), vec![0, 2]),
            ("y.asset".to_string(), vec![1, 4]),
            ("z.asset".to_string(), vec![3]),
        ]
    );
    assert!(group_by_output(&[]).is_empty());
}

#[test]
fn default_output_is_empty() {
    let o = GenerateOutput::default();
    assert!(o.written_paths.is_empty() && o.deleted_paths.is_empty() && o.warnings.is_empty());
}

#[test]
fn plan_sheet_sprites_skips_keeps_and_emits() {
    let mut reg = NameRegistry::new();
    let names: Vec<String> = ["Eye", "Body", "PiggyBank_Open", "Tail"].iter().map(|s| s.to_string()).collect();
    let parts = vec!["Body".to_string(), "PiggyBank_Open".to_string()];
    let combined = vec!["PiggyBank_Open".to_string()];
    let steps = plan_sheet_sprites(&mut reg, "Cat_", &names, &parts, &combined).unwrap();
    assert_eq!(
        steps,
        vec![
            SpriteStep::Emit("Cat_Eye".into()),
            SpriteStep::Keep,
            SpriteStep::Skip,
            SpriteStep::Emit("Cat_Tail".into()),
        ]
    );
    assert!(reg.contains("cat_body"));
    assert!(!reg.contains("Cat_PiggyBank_Open"));
    // The combined tree registers its own name afterwards.
    assert_eq!(combined_step(&mut reg, "Cat_", "PiggyBank_Open").unwrap(), "Cat_PiggyBank_Open");
}

#[test]
fn plan_sheet_sprites_stops_at_a_case_folded_duplicate() {
    let mut reg = NameRegistry::new();
    let names: Vec<String> = ["Foo", "Bar", "foo", "Baz"].iter().map(|s| s.to_string()).collect();
    match plan_sheet_sprites(&mut reg, "", &names, &[], &[]) {
        Err(Error::DuplicateSpriteName(n)) => assert_eq!(n, "foo"),
        other => panic!("expected a duplicate, got {other:?}"),
    }
}

fn names(v: &[&str]) -> Vec<String> {
    v.iter().map(|s| s.to_string()).collect()
}

const PLAN_META: &str = "fileFormatVersion: 2\nguid: 0123456789abcdef0123456789abcdef\nTextureImporter:\n  alphaIsTransparency: 0\n";

fn plan_inputs<'a>(sprites: &'a [String], entries: &'a [String], combined: &'a [String]) -> GeneratePlanInputs<'a> {
    GeneratePlanInputs {
        tpsheet_text: "# $TexturePacker:SmartUpdate:abc$\n",
        stored_key: Some("old\n"),
        atlas_width: 64,
        atlas_height: 64,
        sprite_names: sprites,
        alpha_is_transparency: true,
        atlas_meta_text: PLAN_META,
        prefix: "Cat_",
        parts: &[],
        combined,
        sprite_dir_entries: entries,
    }
}

#[test]
fn plan_generate_up_to_date_skips() {
    let sprites = names(&["Eye"]);
    let mut inp = plan_inputs(&sprites, &[], &[]);
    inp.stored_key = Some("abc\n");
    assert!(matches!(plan_generate(&inp), Ok(GeneratePlan::UpToDate)));
}

#[test]
fn plan_generate_decides_every_output() {
    let sprites = names(&["Eye", "Tail"]);
    let entries = names(&["Cat_Eye.asset", "Cat_Old.asset", "Cat_Old.asset.meta", "cat_tail.ASSET"]);
    let combined = names(&["Body"]);
    match plan_generate(&plan_inputs(&sprites, &entries, &combined)).unwrap() {
        GeneratePlan::Run { atlas_guid, atlas_meta_rewrite, sprite_steps, combined_outputs, orphans } => {
            assert_eq!(atlas_guid[0], 0x01);
            assert!(atlas_meta_rewrite.unwrap().contains("alphaIsTransparency: 1\n"));
            assert_eq!(sprite_steps, vec![SpriteStep::Emit("Cat_Eye".into()), SpriteStep::Emit("Cat_Tail".into())]);
            assert_eq!(combined_outputs, vec!["Cat_Body".to_string()]);
            assert_eq!(orphans, vec!["Cat_Old.asset".to_string()]);
        }
        GeneratePlan::UpToDate => panic!("expected a run"),
    }
}

#[test]
fn plan_generate_errors_in_order() {
    let sprites = names(&["Eye", "eye"]);
    let none: Vec<String> = Vec::new();
    let mut inp = plan_inputs(&none, &[], &[]);
    inp.atlas_width = 0;
    assert!(matches!(plan_generate(&inp), Err(Error::AtlasSizeUnknown)));
    inp.atlas_width = 64;
    assert!(matches!(plan_generate(&inp), Err(Error::EmptySheet)));
    let mut inp = plan_inputs(&sprites, &[], &[]);
    assert!(matches!(plan_generate(&inp), Err(Error::DuplicateSpriteName(_))));
    inp.atlas_meta_text = "fileFormatVersion: 2\n";
    assert!(matches!(plan_generate(&inp), Err(Error::Meta(_))));
}

#[test]
fn plan_imports_lists_the_png_only_when_its_meta_is_rewritten() {
    let sprites = names(&["Eye"]);
    let written = names(&["Assets/S/Cat_Eye.asset", "Assets/S/Cat_Tail.asset"]);
    let changed = names(&["Assets/S/Cat_Tail.asset"]);
    // The .meta says 0, the sheet wants straight alpha: rewrite, re-import.
    let plan = plan_generate(&plan_inputs(&sprites, &[], &[])).unwrap();
    assert_eq!(
        plan_imports(&plan, &written, &changed, "Assets/Atlas.png"),
        names(&["Assets/S/Cat_Tail.asset", "Assets/Atlas.png"])
    );
    // Already in sync: no rewrite, no texture re-import.
    let mut inp = plan_inputs(&sprites, &[], &[]);
    inp.alpha_is_transparency = false;
    let plan = plan_generate(&inp).unwrap();
    assert!(matches!(plan, GeneratePlan::Run { atlas_meta_rewrite: None, .. }));
    assert_eq!(plan_imports(&plan, &written, &changed, "Assets/Atlas.png"), names(&["Assets/S/Cat_Tail.asset"]));
    // Nothing planned, nothing to import but what changed.
    assert_eq!(plan_imports(&GeneratePlan::UpToDate, &written, &[], "Assets/Atlas.png"), names(&[]));
}
