//! Command-line arguments of the `unity-sprite-author` tool and its `watch`
//! subcommand, and which changed paths re-trigger a pack.

use vstd::prelude::*;
use crate::pipeline::{path_strip_prefix, strip_prefix_of};
use crate::text::{chars_of, has_prefix, occurs_at_exec, push_text, starts_with, string_of};

verus! {

broadcast use vstd::string::group_string_axioms;

/// `flag`'s value is missing.
pub open spec fn needs_value_msg(flag: Seq<char>) -> Seq<char> {
    flag + " needs a value"@
}

/// `flag` is followed by another flag instead of a value.
pub open spec fn expected_value_msg(flag: Seq<char>, got: Seq<char>) -> Seq<char> {
    flag + " expected a value but got `"@ + got + "`"@
}

pub open spec fn unknown_flag_msg(s: Seq<char>) -> Seq<char> {
    "unknown flag: "@ + s
}

pub open spec fn unexpected_positional_msg(s: Seq<char>) -> Seq<char> {
    "unexpected positional arg: "@ + s
}

pub open spec fn is_flag(s: Seq<char>) -> bool {
    has_prefix(s, "--"@)
}

/// The value of the flag `flag` taken from `args[j]`.
pub open spec fn value_at(args: Seq<Seq<char>>, j: int, flag: Seq<char>) -> Result<Seq<char>, Seq<char>> {
    if j >= args.len() {
        Err(needs_value_msg(flag))
    } else if is_flag(args[j]) {
        Err(expected_value_msg(flag, args[j]))
    } else {
        Ok(args[j])
    }
}

/// The texts of `args`.
pub open spec fn texts(args: Seq<String>) -> Seq<Seq<char>> {
    args.map_values(|a: String| a@)
}

fn join2(a: &str, b: &str) -> (r: String)
    ensures
        r@ == a@ + b@,
{
    let mut out: Vec<char> = Vec::new();
    push_text(&mut out, a);
    push_text(&mut out, b);
    assert(Seq::<char>::empty() + a@ =~= a@);
    string_of(&out)
}

fn join4(a: &str, b: &str, c: &str, d: &str) -> (r: String)
    ensures
        r@ == a@ + b@ + c@ + d@,
{
    let mut out: Vec<char> = Vec::new();
    push_text(&mut out, a);
    push_text(&mut out, b);
    push_text(&mut out, c);
    push_text(&mut out, d);
    assert(Seq::<char>::empty() + a@ =~= a@);
    string_of(&out)
}

fn is_flag_exec(s: &str) -> (r: bool)
    ensures
        r == is_flag(s@),
{
    let cs = chars_of(s);
    let dd = chars_of("--");
    starts_with(&cs, &dd)
}

fn is_text(s: &str, lit: &str) -> (r: bool)
    ensures
        r == (s@ == lit@),
{
    let a = chars_of(s);
    let b = chars_of(lit);
    if a.len() != b.len() {
        return false;
    }
    let r = starts_with(&a, &b);
    assert(a@.subrange(0, b@.len() as int) =~= a@);
    r
}

/// The value that follows the flag at `args[pos]`: `args[pos + 1]`,
/// unless it is missing or is itself a flag.
pub fn take_value(args: &[String], pos: usize, flag: &str) -> (r: Result<String, String>)
    requires
        pos < args@.len(),
    ensures
        match r {
            Ok(v) => value_at(texts(args@), pos + 1, flag@) == Ok::<Seq<char>, Seq<char>>(v@),
            Err(m) => value_at(texts(args@), pos + 1, flag@) == Err::<Seq<char>, Seq<char>>(m@),
        },
{
    if pos >= args.len() - 1 {
        return Err(join2(flag, " needs a value"));
    }
    let v = &args[pos + 1];
    assert(texts(args@)[pos + 1] == v@);
    if is_flag_exec(v.as_str()) {
        return Err(join4(flag, " expected a value but got `", v.as_str(), "`"));
    }
    Ok(v.clone())
}

// ---------------------------------------------------------------------------
// The one-shot command

/// Options of `unity-sprite-author <atlas.tps> [options]`.
#[derive(Debug, Clone)]
pub struct Cli {
    pub tps_path: String,
    pub prefix: Option<String>,
    pub sprite_dir: Option<String>,
    pub skip_pack: bool,
    pub texturepacker: String,
    pub help: bool,
}

/// The options read so far.
pub struct CliScan {
    pub tps_path: Option<Seq<char>>,
    pub prefix: Option<Seq<char>>,
    pub sprite_dir: Option<Seq<char>>,
    pub skip_pack: bool,
    pub texturepacker: Seq<char>,
    pub help: bool,
}

pub open spec fn cli_start() -> CliScan {
    CliScan {
        tps_path: None,
        prefix: None,
        sprite_dir: None,
        skip_pack: false,
        texturepacker: "texturepacker"@,
        help: false,
    }
}

/// Read the arguments from `args[i]` on into `st`; the first bad argument
/// is the error.
pub open spec fn cli_scan(args: Seq<Seq<char>>, i: int, st: CliScan) -> Result<CliScan, Seq<char>>
    decreases args.len() - i,
{
    if i < 0 || i >= args.len() {
        Ok(st)
    } else {
        let a = args[i];
        if a == "-h"@ || a == "--help"@ {
            cli_scan(args, i + 1, CliScan { help: true, ..st })
        } else if a == "--skip-pack"@ {
            cli_scan(args, i + 1, CliScan { skip_pack: true, ..st })
        } else if a == "--prefix"@ {
            match value_at(args, i + 1, "--prefix"@) {
                Err(m) => Err(m),
                Ok(v) => cli_scan(args, i + 2, CliScan { prefix: Some(v), ..st }),
            }
        } else if a == "--sprite-dir"@ {
            match value_at(args, i + 1, "--sprite-dir"@) {
                Err(m) => Err(m),
                Ok(v) => cli_scan(args, i + 2, CliScan { sprite_dir: Some(v), ..st }),
            }
        } else if a == "--texturepacker"@ {
            match value_at(args, i + 1, "--texturepacker"@) {
                Err(m) => Err(m),
                Ok(v) => cli_scan(args, i + 2, CliScan { texturepacker: v, ..st }),
            }
        } else if is_flag(a) {
            Err(unknown_flag_msg(a))
        } else if st.tps_path is Some {
            Err(unexpected_positional_msg(a))
        } else {
            cli_scan(args, i + 1, CliScan { tps_path: Some(a), ..st })
        }
    }
}

/// [`Cli`] as values.
pub struct CliV {
    pub tps_path: Seq<char>,
    pub prefix: Option<Seq<char>>,
    pub sprite_dir: Option<Seq<char>>,
    pub skip_pack: bool,
    pub texturepacker: Seq<char>,
    pub help: bool,
}

pub open spec fn opt_text(o: Option<String>) -> Option<Seq<char>> {
    match o {
        Some(s) => Some(s@),
        None => None,
    }
}

impl View for Cli {
    type V = CliV;

    open spec fn view(&self) -> CliV {
        CliV {
            tps_path: self.tps_path@,
            prefix: opt_text(self.prefix),
            sprite_dir: opt_text(self.sprite_dir),
            skip_pack: self.skip_pack,
            texturepacker: self.texturepacker@,
            help: self.help,
        }
    }
}

/// What `Cli::parse` gives for `args`: with `-h` anywhere (and no bad
/// argument) the help request with an empty path; else the `.tps` path is
/// required.
pub open spec fn cli_outcome(args: Seq<Seq<char>>) -> Result<CliV, Seq<char>> {
    match cli_scan(args, 0, cli_start()) {
        Err(m) => Err(m),
        Ok(st) => if st.help {
            Ok(
                CliV {
                    tps_path: Seq::empty(),
                    prefix: st.prefix,
                    sprite_dir: st.sprite_dir,
                    skip_pack: st.skip_pack,
                    texturepacker: st.texturepacker,
                    help: true,
                },
            )
        } else {
            match st.tps_path {
                None => Err("missing <atlas.tps> argument"@),
                Some(p) => Ok(
                    CliV {
                        tps_path: p,
                        prefix: st.prefix,
                        sprite_dir: st.sprite_dir,
                        skip_pack: st.skip_pack,
                        texturepacker: st.texturepacker,
                        help: false,
                    },
                ),
            }
        },
    }
}

pub open spec fn scan_of(
    tps_path: Option<String>,
    prefix: Option<String>,
    sprite_dir: Option<String>,
    skip_pack: bool,
    texturepacker: String,
    help: bool,
) -> CliScan {
    CliScan {
        tps_path: opt_text(tps_path),
        prefix: opt_text(prefix),
        sprite_dir: opt_text(sprite_dir),
        skip_pack,
        texturepacker: texturepacker@,
        help,
    }
}

impl Cli {
    /// Read the command line (without the program name).
    pub fn parse(args: &[String]) -> (r: Result<Cli, String>)
        ensures
            match r {
                Ok(c) => cli_outcome(texts(args@)) == Ok::<CliV, Seq<char>>(c@),
                Err(m) => cli_outcome(texts(args@)) == Err::<CliV, Seq<char>>(m@),
            },
    {
        let ghost a = texts(args@);
        let mut tps_path: Option<String> = None;
        let mut prefix: Option<String> = None;
        let mut sprite_dir: Option<String> = None;
        let mut skip_pack = false;
        let mut texturepacker = String::from_str("texturepacker");
        let mut help = false;
        let mut i: usize = 0;
        while i < args.len()
            invariant
                i <= args@.len(),
                a == texts(args@),
                cli_scan(a, 0, cli_start()) == cli_scan(
                    a,
                    i as int,
                    scan_of(tps_path, prefix, sprite_dir, skip_pack, texturepacker, help),
                ),
            decreases args@.len() - i,
        {
            let arg = args[i].as_str();
            assert(a[i as int] == arg@);
            if is_text(arg, "-h") || is_text(arg, "--help") {
                help = true;
                i = i + 1;
            } else if is_text(arg, "--skip-pack") {
                skip_pack = true;
                i = i + 1;
            } else if is_text(arg, "--prefix") {
                match take_value(args, i, "--prefix") {
                    Err(m) => return Err(m),
                    Ok(v) => {
                        prefix = Some(v);
                        i = i + 2;
                    },
                }
            } else if is_text(arg, "--sprite-dir") {
                match take_value(args, i, "--sprite-dir") {
                    Err(m) => return Err(m),
                    Ok(v) => {
                        sprite_dir = Some(v);
                        i = i + 2;
                    },
                }
            } else if is_text(arg, "--texturepacker") {
                match take_value(args, i, "--texturepacker") {
                    Err(m) => return Err(m),
                    Ok(v) => {
                        texturepacker = v;
                        i = i + 2;
                    },
                }
            } else if is_flag_exec(arg) {
                return Err(join2("unknown flag: ", arg));
            } else if tps_path.is_some() {
                return Err(join2("unexpected positional arg: ", arg));
            } else {
                tps_path = Some(args[i].clone());
                i = i + 1;
            }
        }
        if help {
            return Ok(Cli { tps_path: String::new(), prefix, sprite_dir, skip_pack, texturepacker, help: true });
        }
        match tps_path {
            None => Err(String::from_str("missing <atlas.tps> argument")),
            Some(p) => Ok(Cli { tps_path: p, prefix, sprite_dir, skip_pack, texturepacker, help: false }),
        }
    }
}

// ---------------------------------------------------------------------------
// `watch`

/// Options of `unity-sprite-author watch [project-dir] [options]`.
#[derive(Debug, Clone)]
pub struct Opts {
    pub project_dir: Option<String>,
    pub texturepacker: String,
    pub help: bool,
}

/// [`Opts`] as values, also the options read so far.
pub struct OptsV {
    pub project_dir: Option<Seq<char>>,
    pub texturepacker: Seq<char>,
    pub help: bool,
}

impl View for Opts {
    type V = OptsV;

    open spec fn view(&self) -> OptsV {
        OptsV { project_dir: opt_text(self.project_dir), texturepacker: self.texturepacker@, help: self.help }
    }
}

/// Read the `watch` arguments from `args[i]` on into `st`. Unlike the
/// one-shot command, `--texturepacker` takes whatever follows it.
pub open spec fn opts_scan(args: Seq<Seq<char>>, i: int, st: OptsV) -> Result<OptsV, Seq<char>>
    decreases args.len() - i,
{
    if i < 0 || i >= args.len() {
        Ok(st)
    } else {
        let a = args[i];
        if a == "-h"@ || a == "--help"@ {
            opts_scan(args, i + 1, OptsV { help: true, ..st })
        } else if a == "--texturepacker"@ {
            if i + 1 >= args.len() {
                Err(needs_value_msg("--texturepacker"@))
            } else {
                opts_scan(args, i + 2, OptsV { texturepacker: args[i + 1], ..st })
            }
        } else if is_flag(a) {
            Err(unknown_flag_msg(a))
        } else if st.project_dir is Some {
            Err(unexpected_positional_msg(a))
        } else {
            opts_scan(args, i + 1, OptsV { project_dir: Some(a), ..st })
        }
    }
}

pub open spec fn opts_start() -> OptsV {
    OptsV { project_dir: None, texturepacker: "texturepacker"@, help: false }
}

impl Opts {
    /// Read the `watch` arguments.
    pub fn parse(args: &[String]) -> (r: Result<Opts, String>)
        ensures
            match r {
                Ok(o) => opts_scan(texts(args@), 0, opts_start()) == Ok::<OptsV, Seq<char>>(o@),
                Err(m) => opts_scan(texts(args@), 0, opts_start()) == Err::<OptsV, Seq<char>>(m@),
            },
    {
        let ghost a = texts(args@);
        let mut project_dir: Option<String> = None;
        let mut texturepacker = String::from_str("texturepacker");
        let mut help = false;
        let mut i: usize = 0;
        while i < args.len()
            invariant
                i <= args@.len(),
                a == texts(args@),
                opts_scan(a, 0, opts_start()) == opts_scan(
                    a,
                    i as int,
                    OptsV { project_dir: opt_text(project_dir), texturepacker: texturepacker@, help },
                ),
            decreases args@.len() - i,
        {
            let arg = args[i].as_str();
            assert(a[i as int] == arg@);
            if is_text(arg, "-h") || is_text(arg, "--help") {
                help = true;
                i = i + 1;
            } else if is_text(arg, "--texturepacker") {
                if i >= args.len() - 1 {
                    return Err(join2("--texturepacker", " needs a value"));
                }
                assert(a[i + 1] == args@[i + 1]@);
                texturepacker = args[i + 1].clone();
                i = i + 2;
            } else if is_flag_exec(arg) {
                return Err(join2("unknown flag: ", arg));
            } else if project_dir.is_some() {
                return Err(join2("unexpected positional arg: ", arg));
            } else {
                project_dir = Some(args[i].clone());
                i = i + 1;
            }
        }
        Ok(Opts { project_dir, texturepacker, help })
    }
}

/// `hint` is the path `r` or lies beneath it.
pub open spec fn ref_matches(r: Seq<char>, hint: Seq<char>) -> bool {
    hint == r || has_prefix(hint, r + "/"@)
}

/// One watched `.tps` and the project-relative paths that re-trigger its
/// pack: the `.tps` itself and every source file or folder it lists.
#[derive(Debug, Clone)]
pub struct TpsEntry {
    pub tps: String,
    pub refs: Vec<String>,
}

impl TpsEntry {
    /// Does a change at `hint` concern this `.tps`? A file ref matches
    /// exactly, a folder ref also matches anything beneath it (a `/`
    /// boundary: `src2/a.png` is not under `src`).
    pub fn matches(&self, hint: &str) -> (r: bool)
        ensures
            r == exists|k: int| 0 <= k < self.refs@.len() && ref_matches((#[trigger] self.refs@[k])@, hint@),
    {
        let h = chars_of(hint);
        let mut k: usize = 0;
        while k < self.refs.len()
            invariant
                k <= self.refs@.len(),
                h@ == hint@,
                forall|j: int| 0 <= j < k ==> !ref_matches((#[trigger] self.refs@[j])@, hint@),
            decreases self.refs@.len() - k,
        {
            let r = self.refs[k].as_str();
            let mut dir: Vec<char> = chars_of(r);
            dir.push('/');
            let same = is_text(hint, r);
            let under = starts_with(&h, &dir);
            assert(dir@ == r@ + "/"@) by {
                reveal_strlit("/");
            }
            if same || under {
                return true;
            }
            k = k + 1;
        }
        false
    }
}


/// `s` ends with `p`.
pub open spec fn has_suffix(s: Seq<char>, p: Seq<char>) -> bool {
    p.len() <= s.len() && s.skip(s.len() - p.len()) == p
}

fn ends_with_text(s: &str, p: &str) -> (r: bool)
    ensures
        r == has_suffix(s@, p@),
{
    let sc = chars_of(s);
    let pc = chars_of(p);
    if pc.len() > sc.len() {
        return false;
    }
    let at = sc.len() - pc.len();
    let r = occurs_at_exec(&sc, &pc, at);
    proof {
        assert(sc@.subrange(at as int, at + pc@.len()) =~= sc@.skip(at as int));
    }
    r
}

/// Some changed path is a `.tps` file, so the watched set is found again
/// before the changes are matched.
pub fn touches_tps(hints: &[String]) -> (r: bool)
    ensures
        r == exists|k: int| 0 <= k < hints@.len() && has_suffix((#[trigger] hints@[k])@, ".tps"@),
{
    let mut k: usize = 0;
    while k < hints.len()
        invariant
            k <= hints@.len(),
            forall|j: int| 0 <= j < k ==> !has_suffix((#[trigger] hints@[j])@, ".tps"@),
        decreases hints@.len() - k,
    {
        if ends_with_text(hints[k].as_str(), ".tps") {
            return true;
        }
        k = k + 1;
    }
    false
}

/// A change at `hint` concerns the watched `.tps` `e`.
pub open spec fn entry_hit(e: TpsEntry, hint: Seq<char>) -> bool {
    exists|k: int| 0 <= k < e.refs@.len() && ref_matches((#[trigger] e.refs@[k])@, hint)
}

/// The `.tps` paths in `acc`, then those of `entries` that `hint` concerns
/// and that are not listed yet, in order.
pub open spec fn add_hits(acc: Seq<Seq<char>>, entries: Seq<TpsEntry>, hint: Seq<char>) -> Seq<Seq<char>>
    decreases entries.len(),
{
    if entries.len() == 0 {
        acc
    } else {
        let a = add_hits(acc, entries.drop_last(), hint);
        let e = entries.last();
        if entry_hit(e, hint) && !a.contains(e.tps@) {
            a.push(e.tps@)
        } else {
            a
        }
    }
}

/// The `.tps` paths that the changes at `hints` concern: hint by hint, the
/// entries each one concerns, every `.tps` once, at its first concern.
pub open spec fn affected(entries: Seq<TpsEntry>, hints: Seq<Seq<char>>) -> Seq<Seq<char>>
    decreases hints.len(),
{
    if hints.len() == 0 {
        Seq::empty()
    } else {
        add_hits(affected(entries, hints.drop_last()), entries, hints.last())
    }
}

fn contains_text(v: &Vec<String>, s: &str) -> (r: bool)
    ensures
        r == v@.map_values(|x: String| x@).contains(s@),
{
    let ghost m = v@.map_values(|x: String| x@);
    let mut k: usize = 0;
    while k < v.len()
        invariant
            k <= v@.len(),
            m == v@.map_values(|x: String| x@),
            forall|j: int| 0 <= j < k ==> m[j] != s@,
        decreases v@.len() - k,
    {
        if is_text(v[k].as_str(), s) {
            assert(m[k as int] == s@);
            return true;
        }
        k = k + 1;
    }
    false
}

/// The `.tps` files to re-pack for changes at `hints`: each entry that a
/// hint concerns, every `.tps` once, in order of first concern.
pub fn affected_tps(entries: &[TpsEntry], hints: &[String]) -> (r: Vec<String>)
    ensures
        r@.map_values(|x: String| x@) == affected(entries@, hints@.map_values(|h: String| h@)),
{
    let ghost hs = hints@.map_values(|h: String| h@);
    let mut out: Vec<String> = Vec::new();
    let mut i: usize = 0;
    while i < hints.len()
        invariant
            i <= hints@.len(),
            hs == hints@.map_values(|h: String| h@),
            out@.map_values(|x: String| x@) == affected(entries@, hs.take(i as int)),
        decreases hints@.len() - i,
    {
        let hint = hints[i].as_str();
        let ghost before = out@.map_values(|x: String| x@);
        let mut j: usize = 0;
        while j < entries.len()
            invariant
                i < hints@.len(),
                j <= entries@.len(),
                hint@ == hs[i as int],
                out@.map_values(|x: String| x@) == add_hits(before, entries@.take(j as int), hint@),
            decreases entries@.len() - j,
        {
            let e = &entries[j];
            proof {
                assert(entries@.take(j + 1).drop_last() =~= entries@.take(j as int));
                assert(entries@.take(j + 1).last() == entries@[j as int]);
            }
            if e.matches(hint) && !contains_text(&out, e.tps.as_str()) {
                let t = e.tps.clone();
                out.push(t);
                proof {
                    assert(out@.map_values(|x: String| x@) =~= add_hits(before, entries@.take(j as int), hint@).push(
                        e.tps@,
                    ));
                }
            }
            j = j + 1;
        }
        proof {
            assert(entries@.take(entries@.len() as int) =~= entries@);
            assert(hs.take(i + 1).drop_last() =~= hs.take(i as int));
            assert(hs.take(i + 1).last() == hs[i as int]);
        }
        i = i + 1;
    }
    proof {
        assert(hs.take(hints@.len() as int) =~= hs);
    }
    out
}

/// What the `.tps` search does with one directory entry.
#[derive(Debug, Clone, Copy, PartialEq, Eq, Structural)]
pub enum WalkStep {
    /// Hidden (`.name`), a Unity-hidden source folder (`name~`), or a file
    /// that is not a `.tps`.
    Skip,
    /// A folder to search.
    Descend,
    /// A `.tps` file.
    Take,
}

/// What the `.tps` search does with the directory entry `name`
/// (`is_dir` / `is_file` as its file type says; a link is neither).
pub open spec fn spec_walk_step(name: Seq<char>, is_dir: bool, is_file: bool) -> WalkStep {
    if has_prefix(name, "."@) {
        WalkStep::Skip
    } else if is_dir {
        if has_suffix(name, "~"@) { WalkStep::Skip } else { WalkStep::Descend }
    } else if is_file && has_suffix(name, ".tps"@) {
        WalkStep::Take
    } else {
        WalkStep::Skip
    }
}

/// Classify a directory entry for the `.tps` search: hidden entries and
/// `name~` folders are skipped, other folders searched, `*.tps` files
/// taken.
pub fn walk_step(name: &str, is_dir: bool, is_file: bool) -> (r: WalkStep)
    ensures
        r == spec_walk_step(name@, is_dir, is_file),
{
    let cs = chars_of(name);
    let dot = chars_of(".");
    if starts_with(&cs, &dot) {
        WalkStep::Skip
    } else if is_dir {
        if ends_with_text(name, "~") { WalkStep::Skip } else { WalkStep::Descend }
    } else if is_file && ends_with_text(name, ".tps") {
        WalkStep::Take
    } else {
        WalkStep::Skip
    }
}

/// The path `p` as it is shown: relative to `root` when `root` is a
/// leading run of its components, else `p` itself.
pub open spec fn spec_rel(p: Seq<char>, root: Seq<char>) -> Seq<char> {
    match path_strip_prefix(p, root) {
        Some(rest) => rest,
        None => p,
    }
}

/// `p` relative to `root` for display, or `p` itself outside it.
pub fn rel(p: &str, root: &str) -> (r: String)
    ensures
        r@ == spec_rel(p@, root@),
{
    match strip_prefix_of(p, root) {
        Some(rest) => rest,
        None => p.to_owned(),
    }
}

} // verus!
