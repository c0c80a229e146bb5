use unity_sprite_author::cli::{affected_tps, rel, take_value, touches_tps, walk_step, Cli, Opts, TpsEntry, WalkStep};

fn entry(refs: &[&str]) -> TpsEntry {
    TpsEntry {
        tps: "Assets/Atlas.tps".to_string(),
        refs: refs.iter().map(|s| s.to_string()).collect(),
    }
}

fn args(parts: &[&str]) -> Vec<String> {
    parts.iter().map(|s| s.to_string()).collect()
}

#[test]
fn matches_exact_ref() {
    let e = entry(&["Assets/Atlas.tps", "Assets/src/icon.png"]);
    assert!(e.matches("Assets/Atlas.tps"));
    assert!(e.matches("Assets/src/icon.png"));
}

#[test]
fn matches_dir_prefix() {
    let e = entry(&["Assets/src"]);
    assert!(e.matches("Assets/src"));
    assert!(e.matches("Assets/src/a.png"));
    assert!(e.matches("Assets/src/sub/b.png"));
}

#[test]
fn matches_rejects_non_prefix() {
    let e = entry(&["Assets/src"]);
    assert!(!e.matches("Assets/src2/a.png"));
    assert!(!e.matches("Assets/other.png"));
    assert!(!entry(&["Assets/Atlas.tps"]).matches("Assets/Atlas.tps.meta"));
}

#[test]
fn matches_nothing_without_refs() {
    assert!(!entry(&[]).matches("Assets/Atlas.tps"));
}

#[test]
fn opts_parse_defaults() {
    let o = Opts::parse(&[]).unwrap();
    assert!(o.project_dir.is_none());
    assert_eq!(o.texturepacker, "texturepacker");
    assert!(!o.help);
}

#[test]
fn opts_parse_positional_and_flags() {
    let o = Opts::parse(&args(&["/proj", "--texturepacker", "tp"])).unwrap();
    assert_eq!(o.project_dir, Some("/proj".to_string()));
    assert_eq!(o.texturepacker, "tp");
    assert!(Opts::parse(&args(&["-h"])).unwrap().help);
}

#[test]
fn opts_parse_errors() {
    assert!(Opts::parse(&args(&["--nope"])).is_err());
    assert!(Opts::parse(&args(&["--texturepacker"])).is_err());
    assert!(Opts::parse(&args(&["a", "b"])).is_err());
}

#[test]
fn opts_parse_error_messages() {
    assert_eq!(Opts::parse(&args(&["--nope"])).unwrap_err(), "unknown flag: --nope");
    assert_eq!(
        Opts::parse(&args(&["--texturepacker"])).unwrap_err(),
        "--texturepacker needs a value"
    );
    assert_eq!(Opts::parse(&args(&["a", "b"])).unwrap_err(), "unexpected positional arg: b");
    // `watch` takes whatever follows --texturepacker, even a flag.
    assert_eq!(
        Opts::parse(&args(&["--texturepacker", "--x"])).unwrap().texturepacker,
        "--x"
    );
}

#[test]
fn cli_parse_full_command_line() {
    let c = Cli::parse(&args(&[
        "Assets/A.tps",
        "--prefix",
        "ui_",
        "--sprite-dir",
        "out",
        "--skip-pack",
        "--texturepacker",
        "/opt/tp",
    ]))
    .unwrap();
    assert_eq!(c.tps_path, "Assets/A.tps");
    assert_eq!(c.prefix, Some("ui_".to_string()));
    assert_eq!(c.sprite_dir, Some("out".to_string()));
    assert!(c.skip_pack);
    assert_eq!(c.texturepacker, "/opt/tp");
    assert!(!c.help);
}

#[test]
fn cli_parse_defaults_and_help() {
    let c = Cli::parse(&args(&["A.tps"])).unwrap();
    assert_eq!(c.prefix, None);
    assert_eq!(c.sprite_dir, None);
    assert!(!c.skip_pack);
    assert_eq!(c.texturepacker, "texturepacker");
    let h = Cli::parse(&args(&["--help"])).unwrap();
    assert!(h.help);
    assert_eq!(h.tps_path, "");
}

#[test]
fn cli_parse_errors() {
    assert_eq!(Cli::parse(&[]).unwrap_err(), "missing <atlas.tps> argument");
    assert_eq!(Cli::parse(&args(&["--bogus"])).unwrap_err(), "unknown flag: --bogus");
    assert_eq!(
        Cli::parse(&args(&["a.tps", "b.tps"])).unwrap_err(),
        "unexpected positional arg: b.tps"
    );
    assert_eq!(Cli::parse(&args(&["a.tps", "--prefix"])).unwrap_err(), "--prefix needs a value");
    assert_eq!(
        Cli::parse(&args(&["--prefix", "--skip-pack"])).unwrap_err(),
        "--prefix expected a value but got `--skip-pack`"
    );
    // A bad argument after -h still fails.
    assert!(Cli::parse(&args(&["-h", "--nope"])).is_err());
}

#[test]
fn take_value_reads_next_argument() {
    let a = args(&["--prefix", "x", "--sprite-dir"]);
    assert_eq!(take_value(&a, 0, "--prefix"), Ok("x".to_string()));
    assert_eq!(take_value(&a, 2, "--sprite-dir"), Err("--sprite-dir needs a value".to_string()));
}

#[test]
fn touches_tps_spots_a_tps_change() {
    let hints = vec!["Assets/a/src/x.png".to_string(), "Assets/a/atlas.tps".to_string()];
    assert!(touches_tps(&hints));
    assert!(!touches_tps(&hints[..1]));
    assert!(!touches_tps(&["Assets/a/tps".to_string()]));
}

#[test]
fn affected_tps_in_order_of_first_concern_each_once() {
    let a = TpsEntry { tps: "/p/Assets/a.tps".into(), refs: vec!["Assets/a.tps".into(), "Assets/src".into()] };
    let b = TpsEntry { tps: "/p/Assets/b.tps".into(), refs: vec!["Assets/b.tps".into(), "Assets/src/shared.png".into()] };
    let c = TpsEntry { tps: "/p/Assets/c.tps".into(), refs: vec!["Assets/other".into()] };
    let entries = vec![a, b, c];
    let hints = vec![
        "Assets/src/shared.png".to_string(),
        "Assets/src/only_a.png".to_string(),
        "Assets/other/z.png".to_string(),
        "Assets/srcx/q.png".to_string(),
    ];
    let got = affected_tps(&entries, &hints);
    assert_eq!(got, vec!["/p/Assets/a.tps", "/p/Assets/b.tps", "/p/Assets/c.tps"]);
    let got = affected_tps(&entries, &hints[3..]);
    assert!(got.is_empty());
    let got = affected_tps(&entries, &["Assets/b.tps".to_string()]);
    assert_eq!(got, vec!["/p/Assets/b.tps"]);
}

#[test]
fn walk_step_rules() {
    assert_eq!(walk_step(".git", true, false), WalkStep::Skip);
    assert_eq!(walk_step(".hidden.tps", false, true), WalkStep::Skip);
    assert_eq!(walk_step("Sources~", true, false), WalkStep::Skip);
    assert_eq!(walk_step("Sprites", true, false), WalkStep::Descend);
    assert_eq!(walk_step("atlas.tps", false, true), WalkStep::Take);
    assert_eq!(walk_step("atlas.tpsheet", false, true), WalkStep::Skip);
    assert_eq!(walk_step("atlas.tps", false, false), WalkStep::Skip);
}

#[test]
fn rel_strips_the_project_root() {
    assert_eq!(rel("/proj/Assets/Atlas/ui.tps", "/proj"), "Assets/Atlas/ui.tps");
    assert_eq!(rel("/proj/Assets/x.png", "/proj/"), "Assets/x.png");
    // A root that is only a textual prefix is no component prefix.
    assert_eq!(rel("/project/a.png", "/proj"), "/project/a.png");
    assert_eq!(rel("/other/a.png", "/proj"), "/other/a.png");
    assert_eq!(rel("/proj", "/proj"), "");
}
