//! Persisted UI preferences: preview toggles, the last File > Open
//! directory, and the most-recently-opened files (newest first, capped).

use vstd::prelude::*;
use crate::pipeline::{parent_of, path_parent};

verus! {

/// What `Path::new(a) == Path::new(b)` answers (component-wise comparison).
pub uninterp spec fn spec_path_eq(a: Seq<char>, b: Seq<char>) -> bool;

/// `Path::new(a) == Path::new(b)`: paths compare by their components.
/// Equal texts are equal paths (`Path` is `Eq`); which other texts compare
/// equal (`a//b` vs `a/b`, a trailing `/`) is left to the name.
#[verifier::external_body]
fn path_eq(a: &str, b: &str) -> (r: bool)
    ensures
        r == spec_path_eq(a@, b@),
        a@ == b@ ==> r,
{
    std::path::Path::new(a) == std::path::Path::new(b)
}

/// The most-recently-opened list is capped at this many entries.
pub const RECENT_CAP: usize = 8;

#[derive(Debug, Clone)]
pub struct Preferences {
    pub show_polygon: bool,
    pub show_pivot_markers: bool,
    pub show_part_outlines: bool,
    pub show_atlas_aabb: bool,
    /// Last directory used in File > Open.
    pub last_open_dir: Option<String>,
    /// Most-recently-opened fab.json paths (newest first, capped at 8).
    pub recent_files: Vec<String>,
}

/// The recent-files list as texts.
pub open spec fn texts(v: Seq<String>) -> Seq<Seq<char>> {
    v.map_values(|s: String| s@)
}

/// The recent list after opening `p`: `p` first, every entry that is the
/// same path dropped, capped at 8.
pub open spec fn spec_note_open(recent: Seq<Seq<char>>, p: Seq<char>) -> Seq<Seq<char>> {
    let l = seq![p] + recent.filter(other_path(p));
    if l.len() <= 8 {
        l
    } else {
        l.take(8)
    }
}

/// The entries that are not the same path as `p`.
pub open spec fn other_path(p: Seq<char>) -> spec_fn(Seq<char>) -> bool {
    |q: Seq<char>| !spec_path_eq(q, p)
}

impl Default for Preferences {
    fn default() -> (r: Preferences)
        ensures
            r.show_polygon && r.show_pivot_markers && r.show_part_outlines && r.show_atlas_aabb,
            r.last_open_dir is None,
            r.recent_files@.len() == 0,
    {
        Preferences {
            show_polygon: true,
            show_pivot_markers: true,
            show_part_outlines: true,
            show_atlas_aabb: true,
            last_open_dir: None,
            recent_files: Vec::new(),
        }
    }
}

impl Preferences {
    /// Key under which the preferences are stored.
    pub const STORAGE_KEY: &'static str = "preferences";

    /// Push `path` to the front of `recent_files`, dropping any entry that
    /// is the same path and capping the list at 8; remember the path's
    /// directory as the File > Open default.
    pub fn note_open(&mut self, path: String)
        ensures
            texts(final(self).recent_files@) == spec_note_open(texts(old(self).recent_files@), path@),
            final(self).last_open_dir == (match path_parent(path@) {
                Some(_) => final(self).last_open_dir,
                None => old(self).last_open_dir,
            }),
            path_parent(path@) matches Some(d) ==> (final(self).last_open_dir is Some
                && final(self).last_open_dir->0@ == d),
            final(self).show_polygon == old(self).show_polygon,
            final(self).show_pivot_markers == old(self).show_pivot_markers,
            final(self).show_part_outlines == old(self).show_part_outlines,
            final(self).show_atlas_aabb == old(self).show_atlas_aabb,
    {
        let ghost old_t = texts(self.recent_files@);
        let ghost keep = other_path(path@);
        let mut kept: Vec<String> = Vec::new();
        kept.push(path.clone());
        let mut i: usize = 0;
        proof {
            assert(old_t.take(0).filter(keep) =~= Seq::<Seq<char>>::empty());
            assert(texts(kept@) =~= seq![path@] + old_t.take(0).filter(keep));
        }
        while i < self.recent_files.len()
            invariant
                i <= self.recent_files@.len(),
                old_t == texts(self.recent_files@),
                keep == other_path(path@),
                texts(kept@) == seq![path@] + old_t.take(i as int).filter(keep),
            decreases self.recent_files@.len() - i,
        {
            let ghost before = texts(kept@);
            proof {
                assert(old_t.take(i + 1).drop_last() =~= old_t.take(i as int));
                assert(old_t.take(i + 1).last() == self.recent_files@[i as int]@);
                reveal(Seq::filter);
            }
            if !path_eq(self.recent_files[i].as_str(), path.as_str()) {
                kept.push(self.recent_files[i].clone());
                proof {
                    assert(texts(kept@) =~= before.push(self.recent_files@[i as int]@));
                }
            }
            i = i + 1;
        }
        proof {
            assert(old_t.take(self.recent_files@.len() as int) =~= old_t);
        }
        kept.truncate(RECENT_CAP);
        proof {
            assert(texts(kept@) =~= spec_note_open(old_t, path@));
        }
        self.recent_files = kept;
        if let Some(parent) = parent_of(path.as_str()) {
            self.last_open_dir = Some(parent);
        }
    }
}

/// After opening `p`: `p` is the newest entry, the list holds at most 8
/// entries, no other entry is the same path as `p`, and re-opening a path
/// already listed does not grow the list.
pub proof fn lemma_note_open(recent: Seq<Seq<char>>, p: Seq<char>)
    ensures
        spec_note_open(recent, p).len() <= 8,
        spec_note_open(recent, p)[0] == p,
        forall|i: int| 1 <= i < spec_note_open(recent, p).len() ==> !spec_path_eq(
            #[trigger] spec_note_open(recent, p)[i],
            p,
        ),
        (exists|j: int| 0 <= j < recent.len() && spec_path_eq(recent[j], p)) ==> spec_note_open(
            recent,
            p,
        ).len() <= recent.len(),
{
    let keep = other_path(p);
    let f = recent.filter(keep);
    let r = seq![p] + f;
    assert forall|i: int| 1 <= i < spec_note_open(recent, p).len() implies !spec_path_eq(
        #[trigger] spec_note_open(recent, p)[i],
        p,
    ) by {
        assert(spec_note_open(recent, p)[i] == f[i - 1]);
        recent.lemma_filter_pred(keep, i - 1);
    }
    if exists|j: int| 0 <= j < recent.len() && spec_path_eq(recent[j], p) {
        let j = choose|j: int| 0 <= j < recent.len() && spec_path_eq(recent[j], p);
        lemma_filter_len_drops(recent, keep, j);
    }
}

/// Filtering out an element that fails the predicate shortens the list.
proof fn lemma_filter_len_drops(s: Seq<Seq<char>>, f: spec_fn(Seq<char>) -> bool, j: int)
    requires
        0 <= j < s.len(),
        !f(s[j]),
    ensures
        s.filter(f).len() < s.len(),
    decreases s.len(),
{
    reveal(Seq::filter);
    s.drop_last().lemma_filter_len(f);
    if j < s.len() - 1 {
        lemma_filter_len_drops(s.drop_last(), f, j);
    }
}

} // verus!
