//! Decisions of the authoring pipeline: the conventional file layout of an
//! atlas, the TexturePacker smart-update key, which sprite names are
//! emitted, kept or refused as case-insensitive duplicates, which existing
//! `.asset` files are orphans, and which written paths Unity must
//! re-import.
//!
//! Paths are handled as UTF-8 text. Reading and writing files stays with
//! the caller.

use vstd::prelude::*;
use crate::combine::CombineError;
use crate::manifest::{BridgeError, ManifestError};
use crate::mesh_emit::BuildMeshError;
use crate::meta::{alpha_pass, parse_guid, parse_guid_result, update_alpha_is_transparency, AlphaPass, MetaError};
use crate::text::{
    chars_of, find_seq, first_some, lemma_first_some_end, lemma_first_some_skip, line_ranges,
    lines, occurs_at, ranges_text, segments, string_of, sub_chars, trim, trim_range,
};

verus! {

broadcast use vstd::string::group_string_axioms;

/// All-or-nothing error of the pipeline. Parse and build errors leave the
/// disk untouched.
#[derive(Debug)]
pub enum Error {
    /// A disk operation on `path` failed (the system's message).
    Io { path: String, message: String },
    Tpsheet(String),
    Tps(String),
    Meta(MetaError),
    Emit(String),
    AtlasSizeUnknown,
    EmptySheet,
    /// Two outputs would land on one `.asset` file (names compared without
    /// regard to ASCII case, after the prefix).
    DuplicateSpriteName(String),
    Combine(CombineError),
    BuildMesh(BuildMeshError),
    Manifest(ManifestError),
    Bridge(BridgeError),
}

// ---------------------------------------------------------------------------
// Paths

/// `Path::file_stem` of the path `p`.
pub uninterp spec fn path_file_stem(p: Seq<char>) -> Option<Seq<char>>;

/// `Path::parent` of the path `p`.
pub uninterp spec fn path_parent(p: Seq<char>) -> Option<Seq<char>>;

/// `Path::strip_prefix` of `p` by `base`: what follows `base` in `p` when
/// `base` is a leading run of `p`'s components, `None` otherwise.
pub uninterp spec fn path_strip_prefix(p: Seq<char>, base: Seq<char>) -> Option<Seq<char>>;

/// `Path::join` of `base` and `rest`.
pub uninterp spec fn path_join(base: Seq<char>, rest: Seq<char>) -> Seq<char>;

pub open spec fn opt_chars(o: Option<String>) -> Option<Seq<char>> {
    match o {
        Some(s) => Some(s@),
        None => None,
    }
}

/// Calls `Path::file_stem`: the file name without its final extension,
/// `None` when the path has no file name (such as `/`). A stem cut out of a
/// UTF-8 path at a separator or a dot is UTF-8 again, so the text is exact.
#[verifier::external_body]
fn file_stem_of(p: &str) -> (r: Option<String>)
    ensures
        opt_chars(r) == path_file_stem(p@),
{
    std::path::Path::new(p).file_stem().map(|s| s.to_string_lossy().into_owned())
}

/// Calls `Path::parent`: the path without its last component, `None` for
/// a root or an empty path.
#[verifier::external_body]
pub(crate) fn parent_of(p: &str) -> (r: Option<String>)
    ensures
        opt_chars(r) == path_parent(p@),
{
    std::path::Path::new(p).parent().map(|s| s.to_string_lossy().into_owned())
}

/// Calls `Path::strip_prefix`: `p` without the leading components `base`,
/// `None` (std's error) when `base` is not a prefix of `p` component by
/// component. What remains of a UTF-8 path cut at a separator is UTF-8, so
/// the text is exact.
#[verifier::external_body]
pub(crate) fn strip_prefix_of(p: &str, base: &str) -> (r: Option<String>)
    ensures
        opt_chars(r) == path_strip_prefix(p@, base@),
{
    match std::path::Path::new(p).strip_prefix(base) {
        Ok(rest) => Some(rest.to_string_lossy().into_owned()),
        Err(_) => None,
    }
}

/// Calls `Path::join`.
#[verifier::external_body]
fn join_path(base: &str, rest: &str) -> (r: String)
    ensures
        r@ == path_join(base@, rest@),
{
    std::path::Path::new(base).join(rest).to_string_lossy().into_owned()
}

/// The conventional layout of an atlas: `.tpsheet`, `.tps` and `.png`
/// share the stem at `<parent>/<stem>.ext`; the sprites go to
/// `<parent>/<stem>/`.
#[derive(Debug, Clone)]
pub struct StandardLayout {
    pub tpsheet_path: String,
    pub tps_path: String,
    pub atlas_png_path: String,
    pub sprite_dir: String,
}

#[derive(Debug)]
pub enum LayoutError {
    /// The path has no file stem.
    NoStem(String),
}

/// The layout derived from any of the atlas files at `p`, as texts:
/// `Err(p)` when `p` has no stem.
pub open spec fn layout_of(p: Seq<char>) -> Result<(Seq<char>, Seq<char>, Seq<char>, Seq<char>), Seq<char>> {
    match path_file_stem(p) {
        None => Err(p),
        Some(stem) => {
            let parent = match path_parent(p) {
                Some(q) => q,
                None => Seq::empty(),
            };
            Ok(
                (
                    path_join(parent, stem + ".tpsheet"@),
                    path_join(parent, stem + ".tps"@),
                    path_join(parent, stem + ".png"@),
                    path_join(parent, stem),
                ),
            )
        },
    }
}

pub open spec fn layout_matches(r: Result<StandardLayout, LayoutError>, p: Seq<char>) -> bool {
    match (r, layout_of(p)) {
        (Ok(l), Ok(v)) => l.tpsheet_path@ == v.0 && l.tps_path@ == v.1 && l.atlas_png_path@ == v.2
            && l.sprite_dir@ == v.3,
        (Err(LayoutError::NoStem(q)), Err(v)) => q@ == v,
        _ => false,
    }
}

impl StandardLayout {
    /// The layout from a `.tps` path (the command line's way in).
    pub fn from_tps(tps_path: &str) -> (r: Result<StandardLayout, LayoutError>)
        ensures
            layout_matches(r, tps_path@),
    {
        Self::from_stem_path(tps_path)
    }

    /// The layout from a `.tpsheet` path (the Unity bridge's way in).
    pub fn from_tpsheet(tpsheet_path: &str) -> (r: Result<StandardLayout, LayoutError>)
        ensures
            layout_matches(r, tpsheet_path@),
    {
        Self::from_stem_path(tpsheet_path)
    }

    fn from_stem_path(p: &str) -> (r: Result<StandardLayout, LayoutError>)
        ensures
            layout_matches(r, p@),
    {
        let stem = match file_stem_of(p) {
            None => return Err(LayoutError::NoStem(p.to_owned())),
            Some(s) => s,
        };
        let parent = match parent_of(p) {
            Some(q) => q,
            None => String::new(),
        };
        let tpsheet_name = append(stem.as_str(), ".tpsheet");
        let tps_name = append(stem.as_str(), ".tps");
        let png_name = append(stem.as_str(), ".png");
        Ok(
            StandardLayout {
                tpsheet_path: join_path(parent.as_str(), tpsheet_name.as_str()),
                tps_path: join_path(parent.as_str(), tps_name.as_str()),
                atlas_png_path: join_path(parent.as_str(), png_name.as_str()),
                sprite_dir: join_path(parent.as_str(), stem.as_str()),
            },
        )
    }
}

fn append(p: &str, suffix: &str) -> (r: String)
    ensures
        r@ == p@ + suffix@,
{
    let mut out = chars_of(p);
    let t = chars_of(suffix);
    let mut k: usize = 0;
    while k < t.len()
        invariant
            k <= t@.len(),
            out@ == p@ + t@.take(k as int),
        decreases t@.len() - k,
    {
        out.push(t[k]);
        proof {
            assert(t@.take(k + 1) =~= t@.take(k as int).push(t@[k as int]));
        }
        k = k + 1;
    }
    assert(t@.take(t@.len() as int) =~= t@);
    string_of(&out)
}

/// The atlas texture's `.meta`: `<png>.meta`.
pub fn png_meta_path(png_path: &str) -> (r: String)
    ensures
        r@ == png_path@ + ".meta"@,
{
    append(png_path, ".meta")
}

/// Where a file is staged before its rename: `<path>.tmp`.
pub fn with_tmp_suffix(p: &str) -> (r: String)
    ensures
        r@ == p@ + ".tmp"@,
{
    append(p, ".tmp")
}

/// The fabrication manifest that sits beside a `.tps`: `<tps>.fab.json`.
pub fn fab_manifest_path(tps_path: &str) -> (r: String)
    ensures
        r@ == tps_path@ + ".fab.json"@,
{
    append(tps_path, ".fab.json")
}

/// Inputs of one pipeline run.
pub struct GenerateInputs<'a> {
    /// The TexturePacker `.tpsheet`; kept on disk for TexturePacker's own
    /// smart-update check.
    pub tpsheet_path: &'a str,
    /// The sibling `.tps`.
    pub tps_path: &'a str,
    /// The atlas `.png`, whose `.meta` gives the texture's GUID.
    pub atlas_png_path: &'a str,
    /// Where the per-sprite `.asset` + `.asset.meta` files go.
    pub sprite_dir: &'a str,
    /// Prepended to every output sprite name (may be empty).
    pub prefix: &'a str,
}

/// What one pipeline run changed.
#[derive(Debug, Clone)]
pub struct GenerateOutput {
    /// Paths to re-import: assets written or updated, and the atlas `.png`
    /// when its `.meta` was rewritten.
    pub written_paths: Vec<String>,
    /// Orphan `.asset` (and `.asset.meta`) paths removed.
    pub deleted_paths: Vec<String>,
    /// Non-fatal, human-readable warnings.
    pub warnings: Vec<String>,
}

impl Default for GenerateOutput {
    fn default() -> (r: GenerateOutput)
        ensures
            r.written_paths@.len() == 0,
            r.deleted_paths@.len() == 0,
            r.warnings@.len() == 0,
    {
        GenerateOutput { written_paths: Vec::new(), deleted_paths: Vec::new(), warnings: Vec::new() }
    }
}

// ---------------------------------------------------------------------------
// Output names

/// `char::to_ascii_lowercase`.
pub open spec fn lower_char(c: char) -> char {
    if 'A' <= c <= 'Z' {
        ((c as u32) + 32) as char
    } else {
        c
    }
}

/// `str::to_ascii_lowercase`: how file names are compared on the
/// case-insensitive file systems Unity projects live on.
pub open spec fn ascii_lower(s: Seq<char>) -> Seq<char> {
    s.map_values(|c: char| lower_char(c))
}

fn lower_char_exec(c: char) -> (r: char)
    ensures
        r == lower_char(c),
{
    if 'A' <= c && c <= 'Z' {
        let b: u8 = c as u8;
        assert(b as u32 == c as u32);
        ((b + 32) as u8) as char
    } else {
        c
    }
}

/// `s.to_ascii_lowercase()`.
pub fn to_ascii_lowercase(s: &str) -> (r: String)
    ensures
        r@ == ascii_lower(s@),
{
    let cs = chars_of(s);
    let mut out: Vec<char> = Vec::new();
    let mut i: usize = 0;
    while i < cs.len()
        invariant
            cs@ == s@,
            i <= cs@.len(),
            out@ == ascii_lower(s@.take(i as int)),
        decreases cs@.len() - i,
    {
        out.push(lower_char_exec(cs[i]));
        proof {
            assert(ascii_lower(s@.take(i + 1)) =~= ascii_lower(s@.take(i as int)).push(lower_char(s@[i as int])));
        }
        i = i + 1;
    }
    assert(s@.take(cs@.len() as int) =~= s@);
    string_of(&out)
}

/// The output names registered so far, folded to ASCII lower case.
pub struct NameRegistry {
    folded: Vec<String>,
}

impl View for NameRegistry {
    type V = Set<Seq<char>>;

    closed spec fn view(&self) -> Set<Seq<char>> {
        Set::new(|n: Seq<char>| exists|i: int| 0 <= i < self.folded@.len() && (#[trigger] self.folded@[i])@ == n)
    }
}

impl NameRegistry {
    /// No name registered.
    pub fn new() -> (r: NameRegistry)
        ensures
            r@ == Set::<Seq<char>>::empty(),
    {
        let r = NameRegistry { folded: Vec::new() };
        assert(r@ =~= Set::<Seq<char>>::empty());
        r
    }

    fn contains_folded(&self, f: &String) -> (r: bool)
        ensures
            r == self@.contains(f@),
    {
        let mut i: usize = 0;
        while i < self.folded.len()
            invariant
                i <= self.folded@.len(),
                forall|k: int| 0 <= k < i ==> (#[trigger] self.folded@[k])@ != f@,
            decreases self.folded@.len() - i,
        {
            if self.folded[i] == *f {
                assert(self@.contains(f@));
                return true;
            }
            i = i + 1;
        }
        false
    }

    /// Is a name equal to `name` up to ASCII case registered?
    pub fn contains(&self, name: &str) -> (r: bool)
        ensures
            r == self@.contains(ascii_lower(name@)),
    {
        let f = to_ascii_lowercase(name);
        self.contains_folded(&f)
    }

    /// Register `name` (folded); `false` when it was already there.
    pub fn insert(&mut self, name: &str) -> (r: bool)
        ensures
            r == !old(self)@.contains(ascii_lower(name@)),
            final(self)@ == old(self)@.insert(ascii_lower(name@)),
    {
        let f = to_ascii_lowercase(name);
        if self.contains_folded(&f) {
            assert(self@ =~= self@.insert(f@));
            return false;
        }
        let ghost before = self@;
        self.folded.push(f);
        proof {
            assert forall|n: Seq<char>| self@.contains(n) == before.insert(f@).contains(n) by {
                if self@.contains(n) {
                    let i = choose|i: int| 0 <= i < self.folded@.len() && (#[trigger] self.folded@[i])@ == n;
                    if i < self.folded@.len() - 1 {
                        assert(old(self).folded@[i] == self.folded@[i]);
                    }
                }
                if before.contains(n) {
                    let i = choose|i: int| 0 <= i < old(self).folded@.len() && (#[trigger] old(self).folded@[i])@ == n;
                    assert(self.folded@[i] == old(self).folded@[i]);
                }
                if n == f@ {
                    assert(self.folded@[self.folded@.len() - 1]@ == n);
                }
            }
            assert(self@ =~= before.insert(f@));
        }
        true
    }
}

/// What happens to one sheet sprite.
#[derive(Debug, Clone, PartialEq, Eq)]
pub enum SpriteStep {
    /// A combined tree of the same name owns the `.asset`.
    Skip,
    /// A part of a combined tree: no `.asset` of its own, but an existing
    /// one is kept (it may still be used on its own).
    Keep,
    /// Emit `<prefix><name>.asset` under this name.
    Emit(String),
}

/// Decide sheet sprite `name`. `is_combined`: a combined tree has this
/// name; `is_part`: a combined tree uses this sprite as a part. A name
/// already registered (up to ASCII case) is a duplicate.
pub fn sprite_step(reg: &mut NameRegistry, prefix: &str, name: &str, is_combined: bool, is_part: bool) -> (r: Result<
    SpriteStep,
    Error,
>)
    ensures
        is_combined ==> r == Ok::<SpriteStep, Error>(SpriteStep::Skip) && final(reg)@ == old(reg)@,
        !is_combined && is_part ==> r == Ok::<SpriteStep, Error>(SpriteStep::Keep) && final(reg)@ == old(
            reg,
        )@.insert(ascii_lower(prefix@ + name@)),
        !is_combined && !is_part && old(reg)@.contains(ascii_lower(prefix@ + name@)) ==> (r matches Err(
            Error::DuplicateSpriteName(n),
        ) && n@ == prefix@ + name@),
        !is_combined && !is_part && !old(reg)@.contains(ascii_lower(prefix@ + name@)) ==> (r matches Ok(
            SpriteStep::Emit(a),
        ) && a@ == prefix@ + name@),
        !is_combined && !is_part ==> final(reg)@ == old(reg)@.insert(ascii_lower(prefix@ + name@)),
{
    let asset_name = append(prefix, name);
    if is_combined {
        return Ok(SpriteStep::Skip);
    }
    if is_part {
        reg.insert(asset_name.as_str());
        return Ok(SpriteStep::Keep);
    }
    if !reg.insert(asset_name.as_str()) {
        return Err(Error::DuplicateSpriteName(asset_name));
    }
    Ok(SpriteStep::Emit(asset_name))
}

/// Register combined tree `name`, after the sheet sprites: its
/// `<prefix><name>`, or the duplicate error.
pub fn combined_step(reg: &mut NameRegistry, prefix: &str, name: &str) -> (r: Result<String, Error>)
    ensures
        final(reg)@ == old(reg)@.insert(ascii_lower(prefix@ + name@)),
        old(reg)@.contains(ascii_lower(prefix@ + name@)) ==> (r matches Err(Error::DuplicateSpriteName(n))
            && n@ == prefix@ + name@),
        !old(reg)@.contains(ascii_lower(prefix@ + name@)) ==> (r is Ok && r->Ok_0@ == prefix@ + name@),
{
    let asset_name = append(prefix, name);
    if !reg.insert(asset_name.as_str()) {
        return Err(Error::DuplicateSpriteName(asset_name));
    }
    Ok(asset_name)
}

/// [`SpriteStep`] with its name as text.
pub enum SpriteStepV {
    Skip,
    Keep,
    Emit(Seq<char>),
}

impl View for SpriteStep {
    type V = SpriteStepV;

    open spec fn view(&self) -> SpriteStepV {
        match self {
            SpriteStep::Skip => SpriteStepV::Skip,
            SpriteStep::Keep => SpriteStepV::Keep,
            SpriteStep::Emit(a) => SpriteStepV::Emit(a@),
        }
    }
}

/// `n` is one of the texts `v`.
pub open spec fn listed_text(v: Seq<String>, n: Seq<char>) -> bool {
    exists|i: int| 0 <= i < v.len() && (#[trigger] v[i])@ == n
}

/// The decisions for the sheet sprites `names`, in order, from the names
/// registered in `reg`: each sprite's step and the names registered after
/// them all, or the first duplicate output name.
pub open spec fn sheet_steps(
    reg: Set<Seq<char>>,
    prefix: Seq<char>,
    names: Seq<Seq<char>>,
    parts: Seq<String>,
    combined: Seq<String>,
) -> Result<(Seq<SpriteStepV>, Set<Seq<char>>), Seq<char>>
    decreases names.len(),
{
    if names.len() == 0 {
        Ok((Seq::empty(), reg))
    } else {
        match sheet_steps(reg, prefix, names.drop_last(), parts, combined) {
            Err(d) => Err(d),
            Ok((steps, r)) => {
                let n = names.last();
                let a = prefix + n;
                if listed_text(combined, n) {
                    Ok((steps.push(SpriteStepV::Skip), r))
                } else if listed_text(parts, n) {
                    Ok((steps.push(SpriteStepV::Keep), r.insert(ascii_lower(a))))
                } else if r.contains(ascii_lower(a)) {
                    Err(a)
                } else {
                    Ok((steps.push(SpriteStepV::Emit(a)), r.insert(ascii_lower(a))))
                }
            },
        }
    }
}

fn text_listed(v: &[String], n: &str) -> (r: bool)
    ensures
        r == listed_text(v@, n@),
{
    let nc = chars_of(n);
    let mut i: usize = 0;
    while i < v.len()
        invariant
            i <= v@.len(),
            nc@ == n@,
            forall|k: int| 0 <= k < i ==> (#[trigger] v@[k])@ != n@,
        decreases v@.len() - i,
    {
        let vc = chars_of(v[i].as_str());
        if vc.len() == nc.len() {
            let mut j: usize = 0;
            let mut same = true;
            while j < vc.len()
                invariant
                    j <= vc@.len(),
                    vc@.len() == nc@.len(),
                    same == (forall|k: int| 0 <= k < j ==> vc@[k] == nc@[k]),
                decreases vc@.len() - j,
            {
                if vc[j] != nc[j] {
                    same = false;
                }
                j = j + 1;
            }
            if same {
                assert(vc@ =~= nc@);
                return true;
            }
        }
        i = i + 1;
    }
    false
}

/// The per-sprite decisions of one generate run over the sheet sprites
/// `names`: a sprite that a combined tree is named after is skipped, a part
/// of a combined tree keeps its name claimed without an `.asset` of its
/// own, every other sprite is emitted as `<prefix><name>`. Stops at the
/// first output name already claimed (up to ASCII case).
pub fn plan_sheet_sprites(
    reg: &mut NameRegistry,
    prefix: &str,
    names: &[String],
    parts: &[String],
    combined: &[String],
) -> (r: Result<Vec<SpriteStep>, Error>)
    ensures
        match sheet_steps(old(reg)@, prefix@, names@.map_values(|n: String| n@), parts@, combined@) {
            Ok((steps, after)) => r is Ok && r->Ok_0@.map_values(|s: SpriteStep| s@) == steps && final(reg)@
                == after,
            Err(d) => r matches Err(Error::DuplicateSpriteName(n)) && n@ == d,
        },
{
    let ghost ns = names@.map_values(|n: String| n@);
    let mut steps: Vec<SpriteStep> = Vec::new();
    let mut i: usize = 0;
    proof {
        assert(ns.take(0) =~= Seq::<Seq<char>>::empty());
        assert(steps@.map_values(|s: SpriteStep| s@) =~= Seq::<SpriteStepV>::empty());
    }
    while i < names.len()
        invariant
            i <= names@.len(),
            ns == names@.map_values(|n: String| n@),
            sheet_steps(old(reg)@, prefix@, ns.take(i as int), parts@, combined@) == Ok::<
                (Seq<SpriteStepV>, Set<Seq<char>>),
                Seq<char>,
            >((steps@.map_values(|s: SpriteStep| s@), reg@)),
        decreases names@.len() - i,
    {
        let name = names[i].as_str();
        let is_combined = text_listed(combined, name);
        let is_part = text_listed(parts, name);
        proof {
            assert(ns.take(i + 1).drop_last() =~= ns.take(i as int));
            assert(ns.take(i + 1).last() == name@);
        }
        let ghost before = steps@.map_values(|s: SpriteStep| s@);
        match sprite_step(reg, prefix, name, is_combined, is_part) {
            Err(e) => {
                proof {
                    lemma_sheet_steps_err_extends(old(reg)@, prefix@, ns, parts@, combined@, i + 1);
                }
                return Err(e);
            },
            Ok(st) => {
                steps.push(st);
                proof {
                    assert(steps@.map_values(|s: SpriteStep| s@) =~= before.push(st@));
                }
            },
        }
        i = i + 1;
    }
    proof {
        assert(ns.take(names@.len() as int) =~= ns);
    }
    Ok(steps)
}

proof fn lemma_sheet_steps_err_extends(
    reg: Set<Seq<char>>,
    prefix: Seq<char>,
    names: Seq<Seq<char>>,
    parts: Seq<String>,
    combined: Seq<String>,
    k: int,
)
    requires
        0 <= k <= names.len(),
        sheet_steps(reg, prefix, names.take(k), parts, combined) is Err,
    ensures
        sheet_steps(reg, prefix, names, parts, combined) == sheet_steps(reg, prefix, names.take(k), parts, combined),
    decreases names.len() - k,
{
    if k < names.len() {
        let t = names.take(k + 1);
        assert(t.drop_last() =~= names.take(k));
        lemma_sheet_steps_err_extends(reg, prefix, names, parts, combined, k + 1);
    } else {
        assert(names.take(k) =~= names);
    }
}

/// No two sprites of one sheet are emitted to one file: the emitted names
/// differ even up to ASCII case, and each is claimed in the registry
/// afterwards, as are all names claimed before.
pub proof fn lemma_sheet_outputs_distinct(
    reg: Set<Seq<char>>,
    prefix: Seq<char>,
    names: Seq<Seq<char>>,
    parts: Seq<String>,
    combined: Seq<String>,
)
    requires
        sheet_steps(reg, prefix, names, parts, combined) is Ok,
    ensures
        ({
            let (steps, after) = sheet_steps(reg, prefix, names, parts, combined)->Ok_0;
            &&& steps.len() == names.len()
            &&& forall|n: Seq<char>| reg.contains(n) ==> after.contains(n)
            &&& forall|i: int| 0 <= i < steps.len() ==> (#[trigger] steps[i] matches SpriteStepV::Emit(a)
                ==> after.contains(ascii_lower(a)))
            &&& forall|i: int, j: int|
                0 <= i < j < steps.len() ==> (#[trigger] steps[i] matches SpriteStepV::Emit(a) ==> (#[trigger] steps[j] matches SpriteStepV::Emit(b)
                    ==> ascii_lower(a) != ascii_lower(b)))
        }),
    decreases names.len(),
{
    if names.len() > 0 {
        let q = names.drop_last();
        lemma_sheet_steps_prefix_ok(reg, prefix, names, parts, combined);
        lemma_sheet_outputs_distinct(reg, prefix, q, parts, combined);
        let (steps0, r0) = sheet_steps(reg, prefix, q, parts, combined)->Ok_0;
        let (steps, after) = sheet_steps(reg, prefix, names, parts, combined)->Ok_0;
        assert(steps.drop_last() =~= steps0);
        assert forall|i: int| 0 <= i < steps.len() implies (#[trigger] steps[i] matches SpriteStepV::Emit(a)
            ==> after.contains(ascii_lower(a))) by {
            if i < steps.len() - 1 {
                assert(steps[i] == steps0[i]);
            }
        }
        assert forall|i: int, j: int|
            0 <= i < j < steps.len() implies (#[trigger] steps[i] matches SpriteStepV::Emit(a) ==> (#[trigger] steps[j] matches SpriteStepV::Emit(b)
                ==> ascii_lower(a) != ascii_lower(b))) by {
            assert(steps[i] == steps0[i]);
            if j < steps.len() - 1 {
                assert(steps[j] == steps0[j]);
            }
        }
    }
}

proof fn lemma_sheet_steps_prefix_ok(
    reg: Set<Seq<char>>,
    prefix: Seq<char>,
    names: Seq<Seq<char>>,
    parts: Seq<String>,
    combined: Seq<String>,
)
    requires
        names.len() > 0,
        sheet_steps(reg, prefix, names, parts, combined) is Ok,
    ensures
        sheet_steps(reg, prefix, names.drop_last(), parts, combined) is Ok,
{
}

/// `Path::extension` and `Path::file_stem` of a directory entry's file
/// name `f`: split at the last `.`, unless there is none or the only one
/// leads the name. `None` when there is no extension.
pub open spec fn split_extension(f: Seq<char>) -> Option<(Seq<char>, Seq<char>)> {
    if exists|i: int| 0 < i < f.len() && f[i] == '.' {
        let i = choose|i: int| 0 < i < f.len() && f[i] == '.' && forall|j: int| i < j < f.len() ==> f[j] != '.';
        Some((f.take(i), f.skip(i + 1)))
    } else {
        None
    }
}

/// An existing entry of the sprite folder is an orphan: an `.asset` whose
/// stem no current output claims (up to ASCII case).
pub open spec fn is_orphan(claimed: Set<Seq<char>>, f: Seq<char>) -> bool {
    match split_extension(f) {
        Some((stem, ext)) => ext == "asset"@ && !claimed.contains(ascii_lower(stem)),
        None => false,
    }
}

/// Is the sprite-folder entry named `file_name` an orphan `.asset`?
pub fn orphan_asset(reg: &NameRegistry, file_name: &str) -> (r: bool)
    ensures
        r == is_orphan(reg@, file_name@),
{
    let f = chars_of(file_name);
    let mut i: usize = f.len();
    while i > 0 && f[i - 1] != '.'
        invariant
            i <= f@.len(),
            f@ == file_name@,
            forall|j: int| i <= j < f@.len() ==> f@[j] != '.',
        decreases i,
    {
        i = i - 1;
    }
    // `i - 1` is the last dot when `i > 0`.
    if i <= 1 {
        proof {
            assert(!exists|k: int| 0 < k < f@.len() && f@[k] == '.') by {
                if exists|k: int| 0 < k < f@.len() && f@[k] == '.' {
                    let k = choose|k: int| 0 < k < f@.len() && f@[k] == '.';
                    assert(k >= i);
                }
            }
        }
        return false;
    }
    let dot = i - 1;
    proof {
        let ghost c = choose|k: int| 0 < k < f@.len() && f@[k] == '.' && forall|j: int| k < j < f@.len() ==> f@[j] != '.';
        assert(0 < dot < f@.len() && f@[dot as int] == '.' && forall|j: int| dot < j < f@.len() ==> f@[j] != '.');
        if c != dot {
            if c < dot {
                assert(f@[dot as int] != '.');
            } else {
                assert(f@[c] != '.');
            }
        }
    }
    let mut ext: Vec<char> = Vec::new();
    let mut k: usize = i;
    while k < f.len()
        invariant
            i <= k <= f@.len(),
            ext@ == f@.subrange(i as int, k as int),
        decreases f@.len() - k,
    {
        ext.push(f[k]);
        proof {
            assert(f@.subrange(i as int, k + 1) =~= f@.subrange(i as int, k as int).push(f@[k as int]));
        }
        k = k + 1;
    }
    let mut stem: Vec<char> = Vec::new();
    let mut m: usize = 0;
    while m < dot
        invariant
            m <= dot,
            dot < f@.len(),
            stem@ == f@.subrange(0, m as int),
        decreases dot - m,
    {
        stem.push(f[m]);
        proof {
            assert(f@.subrange(0, m + 1) =~= f@.subrange(0, m as int).push(f@[m as int]));
        }
        m = m + 1;
    }
    proof {
        assert(ext@ =~= f@.skip(dot + 1));
        assert(stem@ =~= f@.take(dot as int));
    }
    let ext_s = string_of(&ext);
    let is_asset = ext_s == String::from_str("asset");
    if !is_asset {
        return false;
    }
    let stem_s = string_of(&stem);
    !reg.contains(stem_s.as_str())
}

// ---------------------------------------------------------------------------
// Smart-update key

/// `str::find`: the first index at or after `i` where `p` occurs in `s`.
pub open spec fn find_from(s: Seq<char>, p: Seq<char>, i: int) -> Option<int>
    decreases s.len() + 1 - i,
{
    if i < 0 || i > s.len() || i + p.len() > s.len() {
        None
    } else if occurs_at(s, p, i) {
        Some(i)
    } else {
        find_from(s, p, i + 1)
    }
}

proof fn lemma_find_from_first(s: Seq<char>, p: Seq<char>, i: int, k: int)
    requires
        0 <= i <= k,
        occurs_at(s, p, k),
        forall|j: int| i <= j < k ==> !occurs_at(s, p, j),
    ensures
        find_from(s, p, i) == Some(k),
    decreases k - i,
{
    if i < k {
        assert(!occurs_at(s, p, i));
        lemma_find_from_first(s, p, i + 1, k);
    }
}

proof fn lemma_find_from_none(s: Seq<char>, p: Seq<char>, i: int)
    requires
        0 <= i,
        forall|j: int| i <= j ==> !occurs_at(s, p, j),
    ensures
        find_from(s, p, i) == None::<int>,
    decreases s.len() + 1 - i,
{
    if i <= s.len() && i + p.len() <= s.len() {
        assert(!occurs_at(s, p, i));
        lemma_find_from_none(s, p, i + 1);
    }
}

/// How many `$` end `s`.
pub open spec fn trail_dollars(s: Seq<char>) -> nat
    decreases s.len(),
{
    if s.len() > 0 && s.last() == '$' {
        1 + trail_dollars(s.drop_last())
    } else {
        0
    }
}

/// `s.trim_end_matches('$')`.
pub open spec fn trim_end_dollars(s: Seq<char>) -> Seq<char> {
    s.take(s.len() - trail_dollars(s))
}

proof fn lemma_trail_dollars_unique(s: Seq<char>, n: int)
    requires
        0 <= n <= s.len(),
        forall|k: int| s.len() - n <= k < s.len() ==> s[k] == '$',
        n < s.len() ==> s[s.len() - n - 1] != '$',
    ensures
        trail_dollars(s) == n,
    decreases s.len(),
{
    if n > 0 {
        let t = s.drop_last();
        assert forall|k: int| t.len() - (n - 1) <= k < t.len() implies t[k] == '$' by {
            assert(t[k] == s[k]);
        }
        if n - 1 < t.len() {
            assert(t[t.len() - (n - 1) - 1] == s[s.len() - n - 1]);
        }
        lemma_trail_dollars_unique(t, n - 1);
    }
}

pub open spec fn smart_prefix() -> Seq<char> {
    "$TexturePacker:SmartUpdate:"@
}

/// The smart-update key that one `.tpsheet` line carries: the text after
/// the first `$TexturePacker:SmartUpdate:`, without trailing `$` and
/// surrounding whitespace; an empty key counts as none.
pub open spec fn smart_key_of_line(l: Seq<char>) -> Option<Seq<char>> {
    match find_from(l, smart_prefix(), 0) {
        None => None,
        Some(i) => {
            let k = trim(trim_end_dollars(l.skip(i + smart_prefix().len())));
            if k.len() > 0 {
                Some(k)
            } else {
                None
            }
        },
    }
}

pub open spec fn smart_key_line() -> spec_fn(Seq<char>) -> Option<Seq<char>> {
    |l: Seq<char>| smart_key_of_line(l)
}

/// TexturePacker's `$TexturePacker:SmartUpdate:<key>$` key in a `.tpsheet`
/// header: the first line that carries a non-empty one decides.
pub fn extract_smart_update_key(tpsheet_text: &str) -> (r: Option<String>)
    ensures
        opt_chars(r) == first_some(lines(tpsheet_text@), smart_key_line()),
{
    let chars = chars_of(tpsheet_text);
    let ls = line_ranges(chars.as_slice());
    let pfx = chars_of("$TexturePacker:SmartUpdate:");
    let ghost f = smart_key_line();
    let ghost text_lines = lines(tpsheet_text@);
    proof {
        lemma_first_some_end(text_lines, f);
    }
    let mut i: usize = 0;
    while i < ls.len()
        invariant
            i <= ls@.len(),
            chars@ == tpsheet_text@,
            pfx@ == smart_prefix(),
            ranges_text(chars@, ls@) == text_lines,
            text_lines == lines(tpsheet_text@),
            f == smart_key_line(),
            forall|k: int| 0 <= k < ls@.len() ==> (#[trigger] ls@[k]).0 <= ls@[k].1 <= chars@.len(),
            first_some(text_lines.skip(i as int), f) == first_some(text_lines, f),
        decreases ls@.len() - i,
    {
        let (a, e) = ls[i];
        let ghost l = text_lines[i as int];
        proof {
            lemma_first_some_skip(text_lines, f, i as int);
            assert(l == chars@.subrange(a as int, e as int));
        }
        let line = sub_chars(chars.as_slice(), a, e);
        match find_seq(line.as_slice(), pfx.as_slice()) {
            None => {
                proof {
                    lemma_find_from_none(l, smart_prefix(), 0);
                    assert(f(l) == None::<Seq<char>>);
                }
            },
            Some(j) => {
                proof {
                    lemma_find_from_first(l, smart_prefix(), 0, j as int);
                }
                let start = j + pfx.len();
                let mut end = line.len();
                while end > start && line[end - 1] == '$'
                    invariant
                        start <= end <= line@.len(),
                        forall|k: int| end <= k < line@.len() ==> line@[k] == '$',
                    decreases end - start,
                {
                    end = end - 1;
                }
                proof {
                    let rest = l.skip(start as int);
                    let n = line@.len() - end;
                    assert forall|k: int| rest.len() - n <= k < rest.len() implies rest[k] == '$' by {
                        assert(rest[k] == line@[start + k]);
                    }
                    if n < rest.len() {
                        assert(rest[rest.len() - n - 1] == line@[end - 1]);
                    }
                    lemma_trail_dollars_unique(rest, n);
                    assert(trim_end_dollars(rest) =~= line@.subrange(start as int, end as int));
                }
                let (x, y) = trim_range(line.as_slice(), start, end);
                if x < y {
                    let v = sub_chars(line.as_slice(), x, y);
                    return Some(string_of(v.as_slice()));
                }
                assert(f(l) == None::<Seq<char>>);
            },
        }
        i = i + 1;
    }
    proof {
        assert(text_lines.skip(i as int) =~= Seq::<Seq<char>>::empty());
    }
    None
}

/// The run can be skipped: the key stored by the last run (`.hash`),
/// trimmed, is the sheet's current key.
pub fn smart_update_unchanged(stored: &str, key: &str) -> (r: bool)
    ensures
        r == (trim(stored@) == key@),
{
    let cs = chars_of(stored);
    let (x, y) = trim_range(cs.as_slice(), 0, cs.len());
    assert(cs@.subrange(0, cs@.len() as int) =~= cs@);
    let t = sub_chars(cs.as_slice(), x, y);
    assert(t@ == trim(stored@));
    let k = chars_of(key);
    if t.len() != k.len() {
        return false;
    }
    let mut i: usize = 0;
    while i < t.len()
        invariant
            i <= t@.len(),
            t@.len() == k@.len(),
            t@ == trim(stored@),
            k@ == key@,
            forall|j: int| 0 <= j < i ==> t@[j] == k@[j],
        decreases t@.len() - i,
    {
        if t[i] != k[i] {
            assert(t@[i as int] != k@[i as int]);
            return false;
        }
        i = i + 1;
    }
    assert(t@ =~= k@);
    true
}

// ---------------------------------------------------------------------------
// Commit

/// `w` is among the paths actually (re)written.
pub open spec fn is_changed(w: Seq<char>, changed: Seq<String>) -> bool {
    exists|j: int| 0 <= j < changed.len() && (#[trigger] changed[j])@ == w
}

/// The written asset paths that changed on disk, in order.
pub open spec fn changed_assets(written: Seq<String>, changed: Seq<String>) -> Seq<Seq<char>>
    decreases written.len(),
{
    if written.len() == 0 {
        Seq::empty()
    } else {
        let rest = changed_assets(written.drop_last(), changed);
        if is_changed(written.last()@, changed) {
            rest.push(written.last()@)
        } else {
            rest
        }
    }
}

pub open spec fn texts_of(v: Seq<String>) -> Seq<Seq<char>> {
    v.map_values(|s: String| s@)
}

/// What Unity must re-import after the commit: each written asset whose
/// bytes changed (skip-equal writes left it alone), in order, then the
/// atlas `.png` when its `.meta` was rewritten.
pub fn select_imports(written: &[String], changed: &[String], atlas_png: Option<&str>) -> (r: Vec<String>)
    ensures
        texts_of(r@) == changed_assets(written@, changed@) + match atlas_png {
            Some(p) => seq![p@],
            None => Seq::<Seq<char>>::empty(),
        },
{
    let mut out: Vec<String> = Vec::new();
    let mut i: usize = 0;
    assert(written@.take(0) =~= Seq::<String>::empty());
    assert(texts_of(out@) =~= Seq::<Seq<char>>::empty());
    while i < written.len()
        invariant
            i <= written@.len(),
            texts_of(out@) == changed_assets(written@.take(i as int), changed@),
        decreases written@.len() - i,
    {
        let w = &written[i];
        let mut hit = false;
        let mut j: usize = 0;
        while j < changed.len()
            invariant
                j <= changed@.len(),
                hit == exists|k: int| 0 <= k < j && (#[trigger] changed@[k])@ == w@,
            decreases changed@.len() - j,
        {
            if changed[j] == *w {
                hit = true;
            }
            j = j + 1;
        }
        proof {
            assert(written@.take(i + 1).drop_last() =~= written@.take(i as int));
            assert(written@.take(i + 1).last() == *w);
        }
        if hit {
            let ghost before = out@;
            out.push(w.clone());
            assert(texts_of(out@) =~= texts_of(before).push(w@));
        }
        i = i + 1;
    }
    assert(written@.take(written@.len() as int) =~= written@);
    match atlas_png {
        Some(p) => {
            let ghost before = out@;
            out.push(p.to_owned());
            assert(texts_of(out@) =~= texts_of(before) + seq![p@]);
        },
        None => {
            assert(texts_of(out@) =~= texts_of(out@) + Seq::<Seq<char>>::empty());
        },
    }
    out
}

/// `g` groups the first `n` entries of `paths` by equal text: one group
/// per distinct path in order of first appearance, each listing its
/// entries' indices in increasing order.
pub open spec fn groups_ok(paths: Seq<String>, n: int, g: Seq<(String, Vec<usize>)>) -> bool {
    &&& forall|a: int, b: int| 0 <= a < g.len() && 0 <= b < g.len() && a != b ==> g[a].0@ != g[b].0@
    &&& forall|a: int| 0 <= a < g.len() ==> (#[trigger] g[a]).1@.len() > 0
    &&& forall|a: int, t: int|
        0 <= a < g.len() && 0 <= t < g[a].1@.len() ==> (#[trigger] g[a].1@[t]) < n && paths[g[a].1@[t] as int]@
            == g[a].0@
    &&& forall|a: int, t: int, u: int|
        0 <= a < g.len() && 0 <= t < u < g[a].1@.len() ==> #[trigger] g[a].1@[t] < #[trigger] g[a].1@[u]
    &&& forall|a: int, b: int| 0 <= a < b < g.len() ==> #[trigger] g[a].1@[0] < #[trigger] g[b].1@[0]
    &&& forall|i: int| 0 <= i < n ==> #[trigger] grouped(g, i)
}

/// Index `i` is in some group of `g`.
pub open spec fn grouped(g: Seq<(String, Vec<usize>)>, i: int) -> bool {
    exists|a: int, t: int| 0 <= a < g.len() && 0 <= t < g[a].1@.len() && #[trigger] g[a].1@[t] == i
}

/// Group the meshes of a manifest by their output path: each distinct
/// path becomes one multi-mesh asset, in the order the paths first
/// appear, holding its meshes in declared order.
pub fn group_by_output(paths: &[String]) -> (r: Vec<(String, Vec<usize>)>)
    ensures
        groups_ok(paths@, paths@.len() as int, r@),
{
    let mut g: Vec<(String, Vec<usize>)> = Vec::new();
    let mut i: usize = 0;
    while i < paths.len()
        invariant
            i <= paths@.len(),
            groups_ok(paths@, i as int, g@),
        decreases paths@.len() - i,
    {
        let p = &paths[i];
        let mut k: usize = 0;
        while k < g.len() && !(g[k].0 == *p)
            invariant
                k <= g@.len(),
                forall|a: int| 0 <= a < k ==> (#[trigger] g@[a]).0@ != p@,
            decreases g@.len() - k,
        {
            k = k + 1;
        }
        let ghost before = g@;
        if k < g.len() && g[k].0 == *p {
            let mut entry = g[k].1.clone();
            entry.push(i);
            let key = g[k].0.clone();
            g.set(k, (key, entry));
            proof {
                assert forall|a: int, t: int, u: int|
                    0 <= a < g@.len() && 0 <= t < u < g@[a].1@.len() implies #[trigger] g@[a].1@[t]
                    < #[trigger] g@[a].1@[u] by {
                    if a == k {
                        if u == g@[a].1@.len() - 1 {
                            assert(g@[a].1@[t] == before[a].1@[t]);
                        } else {
                            assert(g@[a].1@[t] == before[a].1@[t] && g@[a].1@[u] == before[a].1@[u]);
                        }
                    }
                }
                assert forall|a: int, b: int| 0 <= a < b < g@.len() implies #[trigger] g@[a].1@[0]
                    < #[trigger] g@[b].1@[0] by {
                    assert(g@[a].1@[0] == before[a].1@[0]);
                    assert(g@[b].1@[0] == before[b].1@[0]);
                }
                assert forall|j: int| 0 <= j < i + 1 implies #[trigger] grouped(g@, j) by {
                    if j < i {
                        assert(grouped(before, j));
                        let (a, t) = choose|a: int, t: int|
                            0 <= a < before.len() && 0 <= t < before[a].1@.len() && #[trigger] before[a].1@[t] == j;
                        assert(g@[a].1@[t] == j);
                    } else {
                        assert(g@[k as int].1@[g@[k as int].1@.len() - 1] == j);
                    }
                }
                assert forall|a: int, t: int|
                    0 <= a < g@.len() && 0 <= t < g@[a].1@.len() implies (#[trigger] g@[a].1@[t]) < i + 1
                    && paths@[g@[a].1@[t] as int]@ == g@[a].0@ by {
                    if a == k && t == g@[a].1@.len() - 1 {
                    } else {
                        assert(g@[a].1@[t] == before[a].1@[t]);
                    }
                }
            }
        } else {
            let mut entry: Vec<usize> = Vec::new();
            entry.push(i);
            g.push((p.clone(), entry));
            proof {
                assert forall|a: int, b: int| 0 <= a < b < g@.len() implies #[trigger] g@[a].1@[0]
                    < #[trigger] g@[b].1@[0] by {
                    if b < before.len() {
                    } else {
                        assert(before[a].1@[0] < i);
                    }
                }
                assert forall|j: int| 0 <= j < i + 1 implies #[trigger] grouped(g@, j) by {
                    if j < i {
                        assert(grouped(before, j));
                        let (a, t) = choose|a: int, t: int|
                            0 <= a < before.len() && 0 <= t < before[a].1@.len() && #[trigger] before[a].1@[t] == j;
                        assert(g@[a].1@[t] == j);
                    } else {
                        assert(g@[before.len() as int].1@[0] == j);
                    }
                }
            }
        }
        i = i + 1;
    }
    g
}

// ---------------------------------------------------------------------------
// The decisions of one generate run, before anything is written

/// The combined trees `names`, in order, registered after the sheet
/// sprites: their outputs `<prefix><name>` and the names registered after
/// them all, or the first duplicate output name.
pub open spec fn combined_steps(reg: Set<Seq<char>>, prefix: Seq<char>, names: Seq<Seq<char>>) -> Result<
    (Seq<Seq<char>>, Set<Seq<char>>),
    Seq<char>,
>
    decreases names.len(),
{
    if names.len() == 0 {
        Ok((Seq::empty(), reg))
    } else {
        match combined_steps(reg, prefix, names.drop_last()) {
            Err(d) => Err(d),
            Ok((outs, r)) => {
                let a = prefix + names.last();
                if r.contains(ascii_lower(a)) {
                    Err(a)
                } else {
                    Ok((outs.push(a), r.insert(ascii_lower(a))))
                }
            },
        }
    }
}

/// The entries among `files` that are orphan `.asset`s once the names in
/// `claimed` are the current outputs, in order.
pub open spec fn orphans_of(claimed: Set<Seq<char>>, files: Seq<Seq<char>>) -> Seq<Seq<char>> {
    files.filter(|f: Seq<char>| is_orphan(claimed, f))
}

/// The tpsheet has not changed since the last run: its SmartUpdate key is
/// the one stored beside the sprites.
pub open spec fn up_to_date(tpsheet_text: Seq<char>, stored_key: Option<Seq<char>>) -> bool {
    &&& first_some(lines(tpsheet_text), smart_key_line()) matches Some(k)
    &&& stored_key matches Some(s)
    &&& trim(s) == k
}

/// The plain inputs of one generate run's decisions: the tpsheet text and
/// what it lists (atlas size, sprite names, alpha handling), the stored
/// SmartUpdate key, the atlas `.png.meta` text, the output prefix, the
/// combined trees and their parts, and the entries of the sprite folder.
pub struct GeneratePlanInputs<'a> {
    pub tpsheet_text: &'a str,
    pub stored_key: Option<&'a str>,
    pub atlas_width: u32,
    pub atlas_height: u32,
    pub sprite_names: &'a [String],
    pub alpha_is_transparency: bool,
    pub atlas_meta_text: &'a str,
    pub prefix: &'a str,
    pub parts: &'a [String],
    pub combined: &'a [String],
    pub sprite_dir_entries: &'a [String],
}

/// What one generate run will do, decided before any write.
pub enum GeneratePlan {
    /// The tpsheet is unchanged since the last run: nothing to do.
    UpToDate,
    /// Do the run: the atlas GUID, the rewritten atlas `.png.meta` if its
    /// alpha flag changes, each sheet sprite's step, each combined tree's
    /// output name, and the orphan `.asset` entries to remove.
    Run {
        atlas_guid: [u8; 16],
        atlas_meta_rewrite: Option<String>,
        sprite_steps: Vec<SpriteStep>,
        combined_outputs: Vec<String>,
        orphans: Vec<String>,
    },
}

/// Texts of a list of strings.
pub open spec fn strs(v: Seq<String>) -> Seq<Seq<char>> {
    v.map_values(|x: String| x@)
}

/// What [`plan_generate`] returns on `inp`: see its doc comment.
pub open spec fn generate_plan_holds(inp: GeneratePlanInputs, r: Result<GeneratePlan, Error>) -> bool {
    &&& up_to_date(inp.tpsheet_text@, match inp.stored_key { Some(k) => Some(k@), None => None })
        ==> (r matches Ok(GeneratePlan::UpToDate))
    &&& !up_to_date(inp.tpsheet_text@, match inp.stored_key { Some(k) => Some(k@), None => None }) ==> ({
        if inp.atlas_width == 0 || inp.atlas_height == 0 {
            r matches Err(Error::AtlasSizeUnknown)
        } else if inp.sprite_names@.len() == 0 {
            r matches Err(Error::EmptySheet)
        } else {
            match parse_guid_result(inp.atlas_meta_text@) {
                Err(None) => r matches Err(Error::Meta(MetaError::NoGuidField)),
                Err(Some(v)) => r matches Err(Error::Meta(MetaError::InvalidGuid(x))) && x@ == v,
                Ok(g) => match alpha_pass(segments(inp.atlas_meta_text@), inp.alpha_is_transparency) {
                    AlphaPass::Bad(v) => r matches Err(Error::Meta(MetaError::InvalidAlphaIsTransparencyValue(x)))
                        && x@ == v,
                    AlphaPass::Pass(out, false) => r matches Err(Error::Meta(MetaError::NoAlphaIsTransparencyField)),
                    AlphaPass::Pass(out, true) => match sheet_steps(
                        Set::empty(),
                        inp.prefix@,
                        strs(inp.sprite_names@),
                        inp.parts@,
                        inp.combined@,
                    ) {
                        Err(d) => r matches Err(Error::DuplicateSpriteName(x)) && x@ == d,
                        Ok((steps, reg1)) => match combined_steps(reg1, inp.prefix@, strs(inp.combined@)) {
                            Err(d) => r matches Err(Error::DuplicateSpriteName(x)) && x@ == d,
                            Ok((outs, reg2)) => r matches Ok(
                                GeneratePlan::Run {
                                    atlas_guid,
                                    atlas_meta_rewrite,
                                    sprite_steps,
                                    combined_outputs,
                                    orphans,
                                },
                            ) && atlas_guid@ == g && (match atlas_meta_rewrite {
                                Some(t) => t@ == out && out != inp.atlas_meta_text@,
                                None => out == inp.atlas_meta_text@,
                            }) && sprite_steps@.map_values(|x: SpriteStep| x@) == steps
                                && strs(combined_outputs@) == outs
                                && strs(orphans@) == orphans_of(reg2, strs(inp.sprite_dir_entries@)),
                        },
                    },
                },
            }
        }
    })
}

/// The decisions of one generate run on plain inputs, in the order the run
/// makes them; every error comes before anything is written:
/// unchanged SmartUpdate key → `UpToDate`; a zero atlas size →
/// `AtlasSizeUnknown`; no sprites → `EmptySheet`; the atlas `.png.meta`'s
/// GUID and alpha-flag rewrite → their `Meta` errors; the sheet sprites,
/// then the combined trees → the first `DuplicateSpriteName`; then the
/// orphans among the sprite-folder entries.
pub fn plan_generate(inp: &GeneratePlanInputs) -> (r: Result<GeneratePlan, Error>)
    ensures
        generate_plan_holds(*inp, r),
{
    if let Some(key) = extract_smart_update_key(inp.tpsheet_text) {
        if let Some(stored) = inp.stored_key {
            if smart_update_unchanged(stored, key.as_str()) {
                return Ok(GeneratePlan::UpToDate);
            }
        }
    }
    if inp.atlas_width == 0 || inp.atlas_height == 0 {
        return Err(Error::AtlasSizeUnknown);
    }
    if inp.sprite_names.len() == 0 {
        return Err(Error::EmptySheet);
    }
    let atlas_guid = match parse_guid(inp.atlas_meta_text) {
        Ok(g) => g,
        Err(e) => return Err(Error::Meta(e)),
    };
    let new_meta = match update_alpha_is_transparency(inp.atlas_meta_text, inp.alpha_is_transparency) {
        Ok(t) => t,
        Err(e) => return Err(Error::Meta(e)),
    };
    let atlas_meta_rewrite = if smart_texts_equal(new_meta.as_str(), inp.atlas_meta_text) {
        None
    } else {
        Some(new_meta)
    };
    let mut reg = NameRegistry::new();
    let sprite_steps = match plan_sheet_sprites(&mut reg, inp.prefix, inp.sprite_names, inp.parts, inp.combined) {
        Ok(st) => st,
        Err(e) => return Err(e),
    };
    let combined_outputs = match plan_combined(&mut reg, inp.prefix, inp.combined) {
        Ok(c) => c,
        Err(e) => return Err(e),
    };
    let orphans = orphans_among(&reg, inp.sprite_dir_entries);
    Ok(GeneratePlan::Run { atlas_guid, atlas_meta_rewrite, sprite_steps, combined_outputs, orphans })
}

/// The re-import list of a planned run: the written assets that changed
/// on disk, in order, then the atlas `.png` when the plan rewrites its
/// `.png.meta`.
pub open spec fn spec_plan_imports(
    plan: GeneratePlan,
    written: Seq<String>,
    changed: Seq<String>,
    atlas_png: Seq<char>,
) -> Seq<Seq<char>> {
    changed_assets(written, changed) + match plan {
        GeneratePlan::Run { atlas_meta_rewrite: Some(_), .. } => seq![atlas_png],
        _ => Seq::<Seq<char>>::empty(),
    }
}

/// What Unity must re-import after the commit of `plan`: the written assets
/// that changed, then `atlas_png` exactly when the plan rewrote its
/// `.png.meta` (the `.png` itself is never among the writes).
pub fn plan_imports(plan: &GeneratePlan, written: &[String], changed: &[String], atlas_png: &str) -> (r: Vec<
    String,
>)
    ensures
        texts_of(r@) == spec_plan_imports(*plan, written@, changed@, atlas_png@),
{
    let png = match plan {
        GeneratePlan::Run { atlas_meta_rewrite: Some(_), .. } => Some(atlas_png),
        _ => None,
    };
    select_imports(written, changed, png)
}

/// The text of the atlas `.png.meta` after its alpha flag is set to `want`
/// (the text itself when the rewrite cannot be made).
pub open spec fn alpha_rewritten(meta_text: Seq<char>, want: bool) -> Seq<char> {
    match alpha_pass(segments(meta_text), want) {
        AlphaPass::Pass(out, true) => out,
        _ => meta_text,
    }
}

proof fn lemma_changed_assets_from_written(written: Seq<String>, changed: Seq<String>, x: Seq<char>)
    requires
        changed_assets(written, changed).contains(x),
    ensures
        exists|i: int| 0 <= i < written.len() && (#[trigger] written[i])@ == x,
    decreases written.len(),
{
    let rest = changed_assets(written.drop_last(), changed);
    if rest.contains(x) {
        lemma_changed_assets_from_written(written.drop_last(), changed, x);
        let i = choose|i: int| 0 <= i < written.drop_last().len() && (#[trigger] written.drop_last()[i])@ == x;
        assert(written[i] == written.drop_last()[i]);
    } else {
        assert(written[written.len() - 1] == written.last());
    }
}

/// A run re-imports the atlas `.png` exactly when it rewrites the atlas
/// `.png.meta`, that is when setting the alpha flag changes the text; an
/// already synced `.meta` triggers no texture re-import. (The `.png` is
/// not one of the written assets.)
pub proof fn lemma_png_reimported_iff_meta_changed(
    inp: GeneratePlanInputs,
    plan: GeneratePlan,
    written: Seq<String>,
    changed: Seq<String>,
    atlas_png: Seq<char>,
)
    requires
        generate_plan_holds(inp, Ok(plan)),
        plan is Run,
        forall|i: int| 0 <= i < written.len() ==> (#[trigger] written[i])@ != atlas_png,
    ensures
        spec_plan_imports(plan, written, changed, atlas_png).contains(atlas_png) <==> alpha_rewritten(
            inp.atlas_meta_text@,
            inp.alpha_is_transparency,
        ) != inp.atlas_meta_text@,
{
    let ca = changed_assets(written, changed);
    let imports = spec_plan_imports(plan, written, changed, atlas_png);
    if ca.contains(atlas_png) {
        lemma_changed_assets_from_written(written, changed, atlas_png);
    }
    match plan {
        GeneratePlan::Run { atlas_meta_rewrite: Some(_), .. } => {
            assert(imports[ca.len() as int] == atlas_png);
        },
        _ => {
            assert(imports =~= ca);
        },
    }
}

fn smart_texts_equal(a: &str, b: &str) -> (r: bool)
    ensures
        r == (a@ == b@),
{
    let x = chars_of(a);
    let y = chars_of(b);
    if x.len() != y.len() {
        return false;
    }
    let mut i: usize = 0;
    while i < x.len()
        invariant
            i <= x@.len(),
            x@.len() == y@.len(),
            x@ == a@,
            y@ == b@,
            forall|k: int| 0 <= k < i ==> x@[k] == y@[k],
        decreases x@.len() - i,
    {
        if x[i] != y[i] {
            return false;
        }
        i = i + 1;
    }
    assert(x@ =~= y@);
    true
}

/// Register the combined trees `names`, in order, after the sheet sprites
/// (see [`combined_steps`]).
pub fn plan_combined(reg: &mut NameRegistry, prefix: &str, names: &[String]) -> (r: Result<Vec<String>, Error>)
    ensures
        match combined_steps(old(reg)@, prefix@, strs(names@)) {
            Ok((outs, after)) => r is Ok && strs(r->Ok_0@) == outs && final(reg)@ == after,
            Err(d) => r matches Err(Error::DuplicateSpriteName(n)) && n@ == d,
        },
{
    let ghost ns = strs(names@);
    let mut outs: Vec<String> = Vec::new();
    let mut i: usize = 0;
    proof {
        assert(ns.take(0) =~= Seq::<Seq<char>>::empty());
        assert(strs(outs@) =~= Seq::<Seq<char>>::empty());
    }
    while i < names.len()
        invariant
            i <= names@.len(),
            ns == strs(names@),
            combined_steps(old(reg)@, prefix@, ns.take(i as int)) == Ok::<
                (Seq<Seq<char>>, Set<Seq<char>>),
                Seq<char>,
            >((strs(outs@), reg@)),
        decreases names@.len() - i,
    {
        proof {
            assert(ns.take(i + 1).drop_last() =~= ns.take(i as int));
            assert(ns.take(i + 1).last() == names@[i as int]@);
        }
        let ghost before = strs(outs@);
        match combined_step(reg, prefix, names[i].as_str()) {
            Err(e) => {
                proof {
                    lemma_combined_steps_err_extends(old(reg)@, prefix@, ns, i + 1);
                }
                return Err(e);
            },
            Ok(a) => {
                let ghost av = a@;
                outs.push(a);
                proof {
                    assert(strs(outs@) =~= before.push(av));
                }
            },
        }
        i = i + 1;
    }
    proof {
        assert(ns.take(names@.len() as int) =~= ns);
    }
    Ok(outs)
}

proof fn lemma_combined_steps_err_extends(reg: Set<Seq<char>>, prefix: Seq<char>, names: Seq<Seq<char>>, k: int)
    requires
        0 <= k <= names.len(),
        combined_steps(reg, prefix, names.take(k)) is Err,
    ensures
        combined_steps(reg, prefix, names) == combined_steps(reg, prefix, names.take(k)),
    decreases names.len() - k,
{
    if k < names.len() {
        assert(names.take(k + 1).drop_last() =~= names.take(k));
        lemma_combined_steps_err_extends(reg, prefix, names, k + 1);
    } else {
        assert(names.take(k) =~= names);
    }
}

/// The orphan `.asset` entries among `files` (see [`orphans_of`]).
pub fn orphans_among(reg: &NameRegistry, files: &[String]) -> (r: Vec<String>)
    ensures
        strs(r@) == orphans_of(reg@, strs(files@)),
{
    let ghost fs = strs(files@);
    let ghost pred = |f: Seq<char>| is_orphan(reg@, f);
    let mut out: Vec<String> = Vec::new();
    let mut i: usize = 0;
    proof {
        reveal(Seq::filter);
        assert(fs.take(0) =~= Seq::<Seq<char>>::empty());
        assert(fs.take(0).filter(pred) =~= Seq::<Seq<char>>::empty());
        assert(strs(out@) =~= Seq::<Seq<char>>::empty());
    }
    while i < files.len()
        invariant
            i <= files@.len(),
            fs == strs(files@),
            pred == (|f: Seq<char>| is_orphan(reg@, f)),
            strs(out@) == fs.take(i as int).filter(pred),
        decreases files@.len() - i,
    {
        let ghost before = strs(out@);
        proof {
            reveal(Seq::filter);
            assert(fs.take(i + 1).drop_last() =~= fs.take(i as int));
            assert(fs.take(i + 1).last() == files@[i as int]@);
        }
        if orphan_asset(reg, files[i].as_str()) {
            out.push(files[i].clone());
            proof {
                assert(strs(out@) =~= before.push(files@[i as int]@));
            }
        }
        i = i + 1;
    }
    proof {
        assert(fs.take(files@.len() as int) =~= fs);
    }
    out
}

} // verus!
