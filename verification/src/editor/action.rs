//! Central action dispatch: every user-facing command is one `Action`, and
//! the palette-callable ones are listed in a static registry that a fuzzy
//! filter narrows and ranks.

use vstd::prelude::*;
use vstd::utf8::encode_utf8;
use crate::editor::ui::NewGraphic;
use crate::pipeline::{ascii_lower, lower_char};
use crate::text::{
    chars_of, contains_exec, contains_seq, find_seq, is_ws, is_ws_char, lead_ws, occurs_at,
    skip_ws_forward,
};

verus! {

broadcast use vstd::string::group_string_axioms;

/// One unit of user intent.
#[derive(Debug, Clone, Copy, PartialEq, Eq, Structural)]
pub enum Action {
    OpenDialog,
    SaveActive,
    SaveAll,
    CloseActiveTab,
    Undo,
    Redo,
    AddUnderSelection(NewGraphic),
    DuplicateSelection,
    DeleteSelection,
    Fit,
    ToggleShowPolygon,
    ToggleShowPivot,
    ToggleShowOutlines,
    ToggleShowAABB,
    NextTab,
    PrevTab,
    OpenPalette,
}

/// A palette-listable command: a parameterless `Action` with its label,
/// lowercase filter keywords (synonyms included) and the shortcut hint.
#[derive(Debug, Clone, Copy)]
pub struct CommandEntry {
    pub label: &'static str,
    pub keywords: &'static [&'static str],
    pub accelerator: Option<&'static str>,
    pub action: Action,
}

impl CommandEntry {
    /// The command's action, fresh.
    pub fn action_factory(&self) -> (r: Action)
        ensures
            r == self.action,
    {
        self.action
    }
}

/// The registry, in menu order.
pub open spec fn command_table() -> Seq<CommandEntry> {
    seq![
        CommandEntry { label: "Open File…", keywords: &["open", "file"], accelerator: Some("⌘O"), action: Action::OpenDialog },
        CommandEntry { label: "Save", keywords: &["save"], accelerator: Some("⌘S"), action: Action::SaveActive },
        CommandEntry { label: "Save All", keywords: &["save", "all"], accelerator: Some("⌘⇧S"), action: Action::SaveAll },
        CommandEntry { label: "Close Tab", keywords: &["close", "tab"], accelerator: Some("⌘W"), action: Action::CloseActiveTab },
        CommandEntry { label: "Undo", keywords: &["undo"], accelerator: Some("⌘Z"), action: Action::Undo },
        CommandEntry { label: "Redo", keywords: &["redo"], accelerator: Some("⌘⇧Z"), action: Action::Redo },
        CommandEntry { label: "New Sprite", keywords: &["new", "sprite"], accelerator: Some("⌘N"), action: Action::AddUnderSelection(NewGraphic::Sprite) },
        CommandEntry { label: "New Container", keywords: &["new", "container", "group"], accelerator: Some("⌘⇧N"), action: Action::AddUnderSelection(NewGraphic::Container) },
        CommandEntry { label: "New Rect", keywords: &["new", "rect", "rectangle"], accelerator: None, action: Action::AddUnderSelection(NewGraphic::Rect) },
        CommandEntry { label: "New Polygon", keywords: &["new", "polygon"], accelerator: None, action: Action::AddUnderSelection(NewGraphic::Polygon) },
        CommandEntry { label: "New SpriteRenderer (SMA)", keywords: &["new", "sprite", "renderer", "sma"], accelerator: None, action: Action::AddUnderSelection(NewGraphic::SpriteRenderer) },
        CommandEntry { label: "Duplicate Selection", keywords: &["duplicate"], accelerator: Some("⌘D"), action: Action::DuplicateSelection },
        CommandEntry { label: "Delete Selection", keywords: &["delete", "remove"], accelerator: Some("⌫"), action: Action::DeleteSelection },
        CommandEntry { label: "Fit View", keywords: &["fit", "zoom", "view"], accelerator: None, action: Action::Fit },
        CommandEntry { label: "Toggle Show Polygons", keywords: &["toggle", "show", "polygon"], accelerator: None, action: Action::ToggleShowPolygon },
        CommandEntry { label: "Toggle Show Pivot Markers", keywords: &["toggle", "show", "pivot"], accelerator: None, action: Action::ToggleShowPivot },
        CommandEntry { label: "Toggle Show Part Outlines", keywords: &["toggle", "show", "outline"], accelerator: None, action: Action::ToggleShowOutlines },
        CommandEntry { label: "Toggle Show Atlas AABB", keywords: &["toggle", "show", "aabb"], accelerator: None, action: Action::ToggleShowAABB },
        CommandEntry { label: "Next Tab", keywords: &["next", "tab"], accelerator: Some("⌘⇧]"), action: Action::NextTab },
        CommandEntry { label: "Previous Tab", keywords: &["previous", "prev", "tab"], accelerator: Some("⌘⇧["), action: Action::PrevTab },
    ]
}

/// The registry of palette-callable commands.
pub fn commands() -> (r: Vec<CommandEntry>)
    ensures
        r@ == command_table(),
{
    let v = vec![
        CommandEntry { label: "Open File…", keywords: &["open", "file"], accelerator: Some("⌘O"), action: Action::OpenDialog },
        CommandEntry { label: "Save", keywords: &["save"], accelerator: Some("⌘S"), action: Action::SaveActive },
        CommandEntry { label: "Save All", keywords: &["save", "all"], accelerator: Some("⌘⇧S"), action: Action::SaveAll },
        CommandEntry { label: "Close Tab", keywords: &["close", "tab"], accelerator: Some("⌘W"), action: Action::CloseActiveTab },
        CommandEntry { label: "Undo", keywords: &["undo"], accelerator: Some("⌘Z"), action: Action::Undo },
        CommandEntry { label: "Redo", keywords: &["redo"], accelerator: Some("⌘⇧Z"), action: Action::Redo },
        CommandEntry { label: "New Sprite", keywords: &["new", "sprite"], accelerator: Some("⌘N"), action: Action::AddUnderSelection(NewGraphic::Sprite) },
        CommandEntry { label: "New Container", keywords: &["new", "container", "group"], accelerator: Some("⌘⇧N"), action: Action::AddUnderSelection(NewGraphic::Container) },
        CommandEntry { label: "New Rect", keywords: &["new", "rect", "rectangle"], accelerator: None, action: Action::AddUnderSelection(NewGraphic::Rect) },
        CommandEntry { label: "New Polygon", keywords: &["new", "polygon"], accelerator: None, action: Action::AddUnderSelection(NewGraphic::Polygon) },
        CommandEntry { label: "New SpriteRenderer (SMA)", keywords: &["new", "sprite", "renderer", "sma"], accelerator: None, action: Action::AddUnderSelection(NewGraphic::SpriteRenderer) },
        CommandEntry { label: "Duplicate Selection", keywords: &["duplicate"], accelerator: Some("⌘D"), action: Action::DuplicateSelection },
        CommandEntry { label: "Delete Selection", keywords: &["delete", "remove"], accelerator: Some("⌫"), action: Action::DeleteSelection },
        CommandEntry { label: "Fit View", keywords: &["fit", "zoom", "view"], accelerator: None, action: Action::Fit },
        CommandEntry { label: "Toggle Show Polygons", keywords: &["toggle", "show", "polygon"], accelerator: None, action: Action::ToggleShowPolygon },
        CommandEntry { label: "Toggle Show Pivot Markers", keywords: &["toggle", "show", "pivot"], accelerator: None, action: Action::ToggleShowPivot },
        CommandEntry { label: "Toggle Show Part Outlines", keywords: &["toggle", "show", "outline"], accelerator: None, action: Action::ToggleShowOutlines },
        CommandEntry { label: "Toggle Show Atlas AABB", keywords: &["toggle", "show", "aabb"], accelerator: None, action: Action::ToggleShowAABB },
        CommandEntry { label: "Next Tab", keywords: &["next", "tab"], accelerator: Some("⌘⇧]"), action: Action::NextTab },
        CommandEntry { label: "Previous Tab", keywords: &["previous", "prev", "tab"], accelerator: Some("⌘⇧["), action: Action::PrevTab },
    ];
    v
}

// ---------------------------------------------------------------------------
// Filter

/// What `str::to_lowercase` gives for `s` (full Unicode lowercase mapping).
pub uninterp spec fn spec_lowercase(s: Seq<char>) -> Seq<char>;

/// All characters of `s` are ASCII.
pub open spec fn all_ascii(s: Seq<char>) -> bool {
    forall|i: int| 0 <= i < s.len() ==> (#[trigger] s[i] as u32) < 0x80
}

/// `str::to_lowercase`. Claimed: the result is `spec_lowercase` of the
/// text, a function of the text alone; on ASCII text it maps `A`–`Z` to
/// `a`–`z` and keeps every other character (the Unicode lowercase mapping
/// of ASCII). Beyond ASCII, where a character may lower to several, the
/// result is left to the name.
#[verifier::external_body]
pub(crate) fn to_lowercase(s: &str) -> (r: String)
    ensures
        r@ == spec_lowercase(s@),
        all_ascii(s@) ==> r@ == ascii_lower(s@),
{
    s.to_lowercase()
}

/// Length of the leading run of non-whitespace of `s`.
pub open spec fn word_len(s: Seq<char>) -> nat
    decreases s.len(),
{
    if s.len() > 0 && !is_ws(s[0]) {
        1 + word_len(s.drop_first())
    } else {
        0
    }
}

pub proof fn lemma_word_len(s: Seq<char>)
    ensures
        word_len(s) <= s.len(),
        forall|k: int| 0 <= k < word_len(s) ==> !is_ws(#[trigger] s[k]),
        word_len(s) < s.len() ==> is_ws(s[word_len(s) as int]),
    decreases s.len(),
{
    if s.len() > 0 && !is_ws(s[0]) {
        lemma_word_len(s.drop_first());
        assert forall|k: int| 0 <= k < word_len(s) implies !is_ws(#[trigger] s[k]) by {
            if k > 0 {
                assert(s[k] == s.drop_first()[k - 1]);
            }
        }
    }
}

proof fn lemma_word_len_unique(s: Seq<char>, n: int)
    requires
        0 <= n <= s.len(),
        forall|k: int| 0 <= k < n ==> !is_ws(#[trigger] s[k]),
        n < s.len() ==> is_ws(s[n]),
    ensures
        word_len(s) == n,
    decreases s.len(),
{
    if n > 0 {
        assert(!is_ws(s[0]));
        lemma_word_len_unique(s.drop_first(), n - 1);
    }
}

/// `str::split_whitespace`: the maximal runs of non-whitespace.
pub open spec fn words(s: Seq<char>) -> Seq<Seq<char>>
    decreases s.len(),
{
    let rest = s.skip(lead_ws(s) as int);
    if lead_ws(s) >= s.len() {
        Seq::empty()
    } else {
        proof {
            crate::text::lemma_lead_ws(s);
            lemma_word_len(rest);
            assert(!is_ws(rest[0]));
        }
        seq![rest.take(word_len(rest) as int)] + words(rest.skip(word_len(rest) as int))
    }
}

/// The words of `s`, each as its own character vector.
fn split_whitespace(s: &[char]) -> (r: Vec<Vec<char>>)
    ensures
        r@.len() == words(s@).len(),
        forall|i: int| 0 <= i < r@.len() ==> (#[trigger] r@[i])@ == words(s@)[i],
{
    let mut r: Vec<Vec<char>> = Vec::new();
    let mut pos: usize = 0;
    let n = s.len();
    proof {
        assert(s@.skip(0) =~= s@);
    }
    while pos < n
        invariant
            n == s@.len(),
            pos <= n,
            r@.len() + words(s@.skip(pos as int)).len() == words(s@).len(),
            forall|i: int| 0 <= i < r@.len() ==> (#[trigger] r@[i])@ == words(s@)[i],
            forall|i: int| 0 <= i < words(s@.skip(pos as int)).len() ==> words(s@)[r@.len() + i]
                == #[trigger] words(s@.skip(pos as int))[i],
        decreases n - pos,
    {
        let ghost cur = s@.skip(pos as int);
        let a = skip_ws_forward(s, pos, n);
        proof {
            assert(s@.subrange(pos as int, n as int) =~= cur);
            crate::text::lemma_lead_ws(cur);
        }
        if a == n {
            proof {
                assert(words(cur) =~= Seq::<Seq<char>>::empty());
            }
            pos = n;
            proof {
                assert(s@.skip(n as int) =~= Seq::<char>::empty());
                assert(words(s@.skip(n as int)) =~= Seq::<Seq<char>>::empty());
            }
        } else {
            let mut b = a;
            while b < n && !is_ws_char(s[b])
                invariant
                    a <= b <= n,
                    n == s@.len(),
                    forall|k: int| a <= k < b ==> !is_ws(#[trigger] s@[k]),
                decreases n - b,
            {
                b = b + 1;
            }
            let mut w: Vec<char> = Vec::new();
            let mut k = a;
            while k < b
                invariant
                    a <= k <= b <= n,
                    n == s@.len(),
                    w@ == s@.subrange(a as int, k as int),
                decreases b - k,
            {
                w.push(s[k]);
                proof {
                    assert(w@ =~= s@.subrange(a as int, k + 1));
                }
                k = k + 1;
            }
            proof {
                let rest = cur.skip(lead_ws(cur) as int);
                assert(rest =~= s@.skip(a as int));
                assert forall|k2: int| 0 <= k2 < b - a implies !is_ws(#[trigger] rest[k2]) by {
                    assert(rest[k2] == s@[a + k2]);
                }
                if b < n {
                    assert(rest[b - a] == s@[b as int]);
                }
                lemma_word_len_unique(rest, b - a);
                assert(rest.take(word_len(rest) as int) =~= w@);
                assert(rest.skip(word_len(rest) as int) =~= s@.skip(b as int));
                assert(words(cur) == seq![w@] + words(s@.skip(b as int)));
            }
            let ghost old_r = r@;
            r.push(w);
            proof {
                assert forall|i: int| 0 <= i < r@.len() implies (#[trigger] r@[i])@ == words(s@)[i] by {
                    if i < old_r.len() {
                        assert(r@[i] == old_r[i]);
                    } else {
                        assert(words(cur)[0] == w@);
                    }
                }
                assert forall|i: int| 0 <= i < words(s@.skip(b as int)).len() implies words(s@)[r@.len() + i]
                    == #[trigger] words(s@.skip(b as int))[i] by {
                    assert(words(cur)[i + 1] == words(s@.skip(b as int))[i]);
                }
            }
            pos = b;
        }
    }
    proof {
        assert(s@.skip(n as int) =~= Seq::<char>::empty());
    }
    r
}

/// Every term appears in the command's lowercased label or in one of its
/// keywords.
pub open spec fn qualifies(c: CommandEntry, terms: Seq<Seq<char>>) -> bool {
    forall|t: int| 0 <= t < terms.len() ==> #[trigger] term_hits(c, terms[t])
}

pub open spec fn term_hits(c: CommandEntry, t: Seq<char>) -> bool {
    contains_seq(spec_lowercase(c.label@), t) || exists|k: int| 0 <= k < c.keywords@.len()
        && contains_seq(#[trigger] c.keywords@[k]@, t)
}

/// Index of the first occurrence of `p` in `s`.
pub open spec fn first_occurrence(s: Seq<char>, p: Seq<char>) -> int {
    choose|i: int| occurs_at(s, p, i) && forall|j: int| 0 <= j < i ==> !occurs_at(s, p, j)
}

/// Relevance: a label hit at UTF-8 byte offset `pos` scores `1000 - pos`
/// (earlier is better); a keyword-only hit of the whole query scores 100.
pub open spec fn score(c: CommandEntry, q: Seq<char>) -> int {
    let l = spec_lowercase(c.label@);
    if contains_seq(l, q) {
        1000 - encode_utf8(l.take(first_occurrence(l, q))).len()
    } else if exists|k: int| 0 <= k < c.keywords@.len() && contains_seq(#[trigger] c.keywords@[k]@, q) {
        100
    } else {
        0
    }
}

/// `a` ranks before `b`: higher score, ties in registry order.
pub open spec fn ranks_before(a: (int, int), b: (int, int)) -> bool {
    a.0 > b.0 || (a.0 == b.0 && a.1 < b.1)
}

/// `idx` lists exactly the commands of `table` that qualify for `q`, each
/// once, by descending score, ties in registry order.
pub open spec fn is_ranking(table: Seq<CommandEntry>, q: Seq<char>, idx: Seq<int>) -> bool {
    is_ranking_lower(table, spec_lowercase(q), idx)
}

/// [`is_ranking`] for the already lowercased query `lq`.
pub open spec fn is_ranking_lower(table: Seq<CommandEntry>, lq: Seq<char>, idx: Seq<int>) -> bool {
    let terms = words(lq);
    &&& forall|i: int| 0 <= i < idx.len() ==> 0 <= #[trigger] idx[i] < table.len()
    &&& forall|k: int| 0 <= k < table.len() ==> (qualifies(#[trigger] table[k], terms) <==> idx.contains(k))
    &&& forall|i: int, j: int| 0 <= i < j < idx.len() ==> ranks_before(
        (score(table[idx[i]], lq), idx[i]),
        (score(table[idx[j]], lq), idx[j]),
    )
}

fn char_utf8_len(c: char) -> (r: usize)
    ensures
        r == encode_utf8(seq![c]).len(),
        r <= 4,
{
    proof {
        let e: Seq<char> = seq![c];
        assert(e.drop_first() =~= Seq::<char>::empty());
        vstd::utf8::char_is_scalar(c);
        assert(e[0] == c);
        assert(encode_utf8(Seq::<char>::empty()) =~= Seq::<u8>::empty());
        assert(encode_utf8(e) =~= vstd::utf8::encode_scalar(c as u32));
    }
    if (c as u32) < 0x80 {
        1
    } else if (c as u32) < 0x800 {
        2
    } else if (c as u32) < 0x10000 {
        3
    } else {
        4
    }
}

proof fn lemma_encode_utf8_push(s: Seq<char>, c: char)
    ensures
        encode_utf8(s.push(c)).len() == encode_utf8(s).len() + encode_utf8(seq![c]).len(),
    decreases s.len(),
{
    if s.len() == 0 {
        assert(s.push(c) =~= seq![c]);
    } else {
        assert(s.push(c).drop_first() =~= s.drop_first().push(c));
        lemma_encode_utf8_push(s.drop_first(), c);
    }
}

/// UTF-8 length of `s[..n]`.
fn utf8_prefix_len(s: &[char], n: usize) -> (r: u128)
    requires
        n <= s@.len(),
    ensures
        r == encode_utf8(s@.take(n as int)).len(),
        r <= 4 * n,
{
    let mut total: u128 = 0;
    let mut i: usize = 0;
    proof {
        assert(s@.take(0) =~= Seq::<char>::empty());
    }
    while i < n
        invariant
            i <= n <= s@.len(),
            total <= 4 * i,
            total == encode_utf8(s@.take(i as int)).len(),
        decreases n - i,
    {
        let l = char_utf8_len(s[i]);
        proof {
            assert(s@.take(i + 1) =~= s@.take(i as int).push(s@[i as int]));
            lemma_encode_utf8_push(s@.take(i as int), s@[i as int]);
        }
        total = total + l as u128;
        i = i + 1;
    }
    total
}

/// Entries strictly ordered by `ranks_before`.
pub open spec fn ranked(v: Seq<(i128, usize)>) -> bool {
    forall|i: int, j: int| 0 <= i < j < v.len() ==> ranks_before(
        (v[i].0 as int, v[i].1 as int),
        (v[j].0 as int, v[j].1 as int),
    )
}

/// Insert `(s, k)` after every entry that ranks at least as high; `k` is
/// larger than every registry index already present.
fn insert_ranked(v: &mut Vec<(i128, usize)>, s: i128, k: usize)
    requires
        ranked(old(v)@),
        forall|i: int| 0 <= i < old(v)@.len() ==> (#[trigger] old(v)@[i]).1 < k,
    ensures
        ranked(final(v)@),
        forall|e: (i128, usize)| final(v)@.contains(e) <==> (old(v)@.contains(e) || e == (s, k)),
{
    let ghost old_s = v@;
    let mut p: usize = 0;
    while p < v.len() && v[p].0 >= s
        invariant
            p <= v@.len(),
            v@ == old_s,
            forall|i: int| 0 <= i < p ==> (#[trigger] v@[i]).0 >= s,
        decreases v@.len() - p,
    {
        p = p + 1;
    }
    v.insert(p, (s, k));
    proof {
        let ns = v@;
        assert forall|i: int, j: int| 0 <= i < j < ns.len() implies ranks_before(
            (ns[i].0 as int, ns[i].1 as int),
            (ns[j].0 as int, ns[j].1 as int),
        ) by {
            if j < p {
                assert(ns[i] == old_s[i] && ns[j] == old_s[j]);
            } else if j == p {
                assert(ns[i] == old_s[i]);
                assert(old_s[i].0 >= s);
                assert(old_s[i].1 < k);
            } else if i == p {
                assert(ns[j] == old_s[j - 1]);
                assert(old_s[p as int].0 < s);
                if j - 1 > p {
                    assert(ranks_before(
                        (old_s[p as int].0 as int, old_s[p as int].1 as int),
                        (old_s[j - 1].0 as int, old_s[j - 1].1 as int),
                    ));
                }
            } else if i < p {
                assert(ns[i] == old_s[i] && ns[j] == old_s[j - 1]);
            } else {
                assert(ns[i] == old_s[i - 1] && ns[j] == old_s[j - 1]);
            }
        }
        assert forall|e: (i128, usize)| ns.contains(e) <==> (old_s.contains(e) || e == (s, k)) by {
            if ns.contains(e) {
                let i = choose|i: int| 0 <= i < ns.len() && ns[i] == e;
                if i < p {
                    assert(old_s[i] == e);
                } else if i > p {
                    assert(old_s[i - 1] == e);
                }
            }
            if old_s.contains(e) {
                let i = choose|i: int| 0 <= i < old_s.len() && old_s[i] == e;
                if i < p {
                    assert(ns[i] == e);
                } else {
                    assert(ns[i + 1] == e);
                }
            }
            if e == (s, k) {
                assert(ns[p as int] == e);
            }
        }
    }
}

/// The relevance of `c` for the lowercased query `q`, given its lowercased
/// label.
fn command_score(c: &CommandEntry, label_lc: &[char], q: &[char]) -> (s: i128)
    requires
        label_lc@ == spec_lowercase(c.label@),
    ensures
        s == score(*c, q@),
{
    match find_seq(label_lc, q) {
        Some(pos) => {
            let bytes = utf8_prefix_len(label_lc, pos);
            proof {
                let l = label_lc@;
                let lq = q@;
                assert(contains_seq(l, lq));
                assert(first_occurrence(l, lq) == pos) by {
                    let f = first_occurrence(l, lq);
                    assert(occurs_at(l, lq, pos as int) && forall|j: int|
                        0 <= j < pos ==> !occurs_at(l, lq, j));
                    assert(occurs_at(l, lq, f) && forall|j: int| 0 <= j < f ==> !occurs_at(l, lq, j));
                    if f < pos {
                        assert(!occurs_at(l, lq, f));
                    }
                    if f > pos {
                        assert(!occurs_at(l, lq, pos as int));
                    }
                }
            }
            1000 - bytes as i128
        },
        None => if keyword_hits(c, q) {
            100
        } else {
            0
        },
    }
}

/// Does some keyword of `c` contain `t`?
fn keyword_hits(c: &CommandEntry, t: &[char]) -> (r: bool)
    ensures
        r == exists|k: int| 0 <= k < c.keywords@.len() && contains_seq(#[trigger] c.keywords@[k]@, t@),
{
    let mut k: usize = 0;
    while k < c.keywords.len()
        invariant
            k <= c.keywords@.len(),
            forall|j: int| 0 <= j < k ==> !contains_seq(#[trigger] c.keywords@[j]@, t@),
        decreases c.keywords@.len() - k,
    {
        let kw = chars_of(c.keywords[k]);
        if contains_exec(kw.as_slice(), t) {
            return true;
        }
        k = k + 1;
    }
    false
}

/// `r` lists the registry commands in the ranking of the lowercased query
/// `lq`.
pub open spec fn ranked_by_lower(lq: Seq<char>, r: Seq<CommandEntry>) -> bool {
    exists|idx: Seq<int>|
        is_ranking_lower(command_table(), lq, idx) && idx.len() == r.len() && forall|i: int|
            0 <= i < idx.len() ==> r[i] == command_table()[#[trigger] idx[i]]
}

/// Fuzzy filter over the registry: a command qualifies when every
/// whitespace-separated term of the lowercased query appears in its
/// lowercased label or one of its keywords; matches come by relevance
/// (label hit, earlier first; then keyword hit; then the rest), ties in
/// registry order. An empty query returns the full registry in order.
pub fn filter_commands(query: &str) -> (r: Vec<CommandEntry>)
    ensures
        query@.len() == 0 ==> r@ == command_table(),
        query@.len() > 0 ==> exists|idx: Seq<int>|
            is_ranking(command_table(), query@, idx) && idx.len() == r@.len() && forall|i: int|
                0 <= i < idx.len() ==> r@[i] == command_table()[#[trigger] idx[i]],
        // an ASCII query is matched in ASCII lower case
        query@.len() > 0 && all_ascii(query@) ==> ranked_by_lower(ascii_lower(query@), r@),
{
    let cmds = commands();
    if query.is_empty() {
        return cmds;
    }
    let q_string = to_lowercase(query);
    let q = chars_of(q_string.as_str());
    let terms = split_whitespace(q.as_slice());
    let ghost table = command_table();
    let ghost lq = spec_lowercase(query@);
    let ghost ts = words(lq);
    // (score, registry index), kept ranked.
    let mut scored: Vec<(i128, usize)> = Vec::new();
    let mut k: usize = 0;
    while k < cmds.len()
        invariant
            cmds@ == table,
            table == command_table(),
            q@ == lq,
            lq == spec_lowercase(query@),
            ts == words(lq),
            terms@.len() == ts.len(),
            forall|i: int| 0 <= i < terms@.len() ==> (#[trigger] terms@[i])@ == ts[i],
            k <= cmds@.len(),
            forall|i: int| 0 <= i < scored@.len() ==> (#[trigger] scored@[i]).1 < k,
            forall|i: int| 0 <= i < scored@.len() ==> (#[trigger] scored@[i]).0 == score(
                table[scored@[i].1 as int],
                lq,
            ),
            forall|j: int| 0 <= j < k ==> (qualifies(#[trigger] table[j], ts) <==> exists|i: int|
                0 <= i < scored@.len() && scored@[i].1 == j),
            ranked(scored@),
        decreases cmds@.len() - k,
    {
        let c = &cmds[k];
        let label_lc_s = to_lowercase(c.label);
        let label_lc = chars_of(label_lc_s.as_str());
        // Narrow first: every term must hit.
        let mut qualified = true;
        let mut t: usize = 0;
        while t < terms.len()
            invariant
                t <= terms@.len(),
                terms@.len() == ts.len(),
                forall|i: int| 0 <= i < terms@.len() ==> (#[trigger] terms@[i])@ == ts[i],
                label_lc@ == spec_lowercase(c.label@),
                qualified == forall|i: int| 0 <= i < t ==> #[trigger] term_hits(*c, ts[i]),
            decreases terms@.len() - t,
        {
            let term = &terms[t];
            let hit = contains_exec(label_lc.as_slice(), term.as_slice()) || keyword_hits(
                c,
                term.as_slice(),
            );
            proof {
                assert(hit == term_hits(*c, ts[t as int]));
            }
            if !hit {
                qualified = false;
            }
            t = t + 1;
        }
        proof {
            assert(qualified == qualifies(*c, ts));
        }
        let ghost old_s = scored@;
        if qualified {
            let s = command_score(c, label_lc.as_slice(), q.as_slice());
            insert_ranked(&mut scored, s, k);
            proof {
                let ns = scored@;
                assert forall|i: int| 0 <= i < ns.len() implies (#[trigger] ns[i]).1 < k + 1 && ns[i].0
                    == score(table[ns[i].1 as int], lq) by {
                    assert(ns.contains(ns[i]));
                    if ns[i] != (s, k) {
                        let i0 = choose|i0: int| 0 <= i0 < old_s.len() && old_s[i0] == ns[i];
                    }
                }
                assert forall|j: int| 0 <= j < k + 1 implies (qualifies(#[trigger] table[j], ts)
                    <==> exists|i: int| 0 <= i < ns.len() && ns[i].1 == j) by {
                    if j == k {
                        assert(ns.contains((s, k)));
                    } else {
                        if qualifies(table[j], ts) {
                            let i0 = choose|i: int| 0 <= i < old_s.len() && old_s[i].1 == j;
                            assert(old_s.contains(old_s[i0]));
                            assert(ns.contains(old_s[i0]));
                        }
                        if exists|i: int| 0 <= i < ns.len() && ns[i].1 == j {
                            let i0 = choose|i: int| 0 <= i < ns.len() && ns[i].1 == j;
                            assert(ns.contains(ns[i0]));
                            let i1 = choose|i1: int| 0 <= i1 < old_s.len() && old_s[i1] == ns[i0];
                        }
                    }
                }
            }
        } else {
            proof {
                assert forall|j: int| 0 <= j < k + 1 implies (qualifies(#[trigger] table[j], ts)
                    <==> exists|i: int| 0 <= i < scored@.len() && scored@[i].1 == j) by {
                    if j == k {
                        assert(!qualifies(table[j], ts));
                        if exists|i: int| 0 <= i < scored@.len() && scored@[i].1 == j {
                            let i0 = choose|i: int| 0 <= i < scored@.len() && scored@[i].1 == j;
                            assert(scored@[i0].1 < k);
                        }
                    }
                }
            }
        }
        k = k + 1;
    }
    let mut out: Vec<CommandEntry> = Vec::with_capacity(scored.len());
    let mut i: usize = 0;
    while i < scored.len()
        invariant
            i <= scored@.len(),
            cmds@ == command_table(),
            forall|j: int| 0 <= j < scored@.len() ==> (#[trigger] scored@[j]).1 < cmds@.len(),
            out@.len() == i,
            forall|j: int| 0 <= j < i ==> out@[j] == cmds@[(#[trigger] scored@[j]).1 as int],
        decreases scored@.len() - i,
    {
        out.push(cmds[scored[i].1]);
        i = i + 1;
    }
    proof {
        let idx = scored@.map_values(|e: (i128, usize)| e.1 as int);
        assert forall|kk: int| 0 <= kk < table.len() implies (qualifies(#[trigger] table[kk], ts)
            <==> idx.contains(kk)) by {
            if qualifies(table[kk], ts) {
                let i0 = choose|i: int| 0 <= i < scored@.len() && scored@[i].1 == kk;
                assert(idx[i0] == kk);
            }
            if idx.contains(kk) {
                let i0 = choose|i: int| 0 <= i < idx.len() && idx[i] == kk;
                assert(scored@[i0].1 == kk);
            }
        }
        assert forall|a: int, b: int| 0 <= a < b < idx.len() implies ranks_before(
            (score(table[idx[a]], lq), idx[a]),
            (score(table[idx[b]], lq), idx[b]),
        ) by {
            assert(ranks_before(
                (scored@[a].0 as int, scored@[a].1 as int),
                (scored@[b].0 as int, scored@[b].1 as int),
            ));
        }
        assert(is_ranking(command_table(), query@, idx));
        assert forall|j: int| 0 <= j < idx.len() implies out@[j] == command_table()[#[trigger] idx[j]] by {
            assert(out@[j] == cmds@[scored@[j].1 as int]);
        }
    }
    out
}

/// Lowering an ASCII query twice is lowering it once, and keeps it ASCII.
pub proof fn lemma_ascii_lower_idempotent(q: Seq<char>)
    requires
        all_ascii(q),
    ensures
        all_ascii(ascii_lower(q)),
        ascii_lower(ascii_lower(q)) == ascii_lower(q),
        ascii_lower(q).len() == q.len(),
{
    assert forall|i: int| 0 <= i < q.len() implies (#[trigger] ascii_lower(q)[i] as u32) < 0x80 by {
        assert(ascii_lower(q)[i] == lower_char(q[i]));
    }
    assert(ascii_lower(ascii_lower(q)) =~= ascii_lower(q));
}

/// Two sequences of indices, each strictly ordered by `ranks_before` on
/// `key`, with the same members, are the same sequence.
proof fn lemma_sorted_same_members(a: Seq<int>, b: Seq<int>, key: spec_fn(int) -> (int, int))
    requires
        forall|i: int, j: int| 0 <= i < j < a.len() ==> ranks_before(key(#[trigger] a[i]), key(#[trigger] a[j])),
        forall|i: int, j: int| 0 <= i < j < b.len() ==> ranks_before(key(#[trigger] b[i]), key(#[trigger] b[j])),
        forall|x: int| a.contains(x) <==> b.contains(x),
    ensures
        a == b,
    decreases a.len(),
{
    if a.len() == 0 {
        if b.len() > 0 {
            assert(b.contains(b[0]));
        }
        assert(a =~= b);
    } else {
        assert(a.contains(a[0]));
        let jb = choose|j: int| 0 <= j < b.len() && b[j] == a[0];
        assert(b.contains(b[0]));
        let ja = choose|j: int| 0 <= j < a.len() && a[j] == b[0];
        if jb > 0 {
            assert(ranks_before(key(b[0]), key(b[jb])));
            if ja > 0 {
                assert(ranks_before(key(a[0]), key(a[ja])));
            }
        }
        assert(a[0] == b[0]);
        let a1 = a.drop_first();
        let b1 = b.drop_first();
        assert forall|x: int| a1.contains(x) implies b1.contains(x) by {
            let i = choose|i: int| 0 <= i < a1.len() && a1[i] == x;
            assert(a[i + 1] == x);
            assert(ranks_before(key(a[0]), key(a[i + 1])));
            assert(b.contains(x));
            let k = choose|k: int| 0 <= k < b.len() && b[k] == x;
            assert(k != 0);
            assert(b1[k - 1] == x);
        }
        assert forall|x: int| b1.contains(x) implies a1.contains(x) by {
            let i = choose|i: int| 0 <= i < b1.len() && b1[i] == x;
            assert(b[i + 1] == x);
            assert(ranks_before(key(b[0]), key(b[i + 1])));
            assert(a.contains(x));
            let k = choose|k: int| 0 <= k < a.len() && a[k] == x;
            assert(k != 0);
            assert(a1[k - 1] == x);
        }
        assert forall|i: int, j: int| 0 <= i < j < a1.len() implies ranks_before(
            key(#[trigger] a1[i]),
            key(#[trigger] a1[j]),
        ) by {
            assert(a1[i] == a[i + 1] && a1[j] == a[j + 1]);
        }
        assert forall|i: int, j: int| 0 <= i < j < b1.len() implies ranks_before(
            key(#[trigger] b1[i]),
            key(#[trigger] b1[j]),
        ) by {
            assert(b1[i] == b[i + 1] && b1[j] == b[j + 1]);
        }
        lemma_sorted_same_members(a1, b1, key);
        assert(a =~= seq![a[0]] + a1);
        assert(b =~= seq![b[0]] + b1);
    }
}

/// The ranking of a query is unique: one order of one set of commands.
pub proof fn lemma_ranking_unique(table: Seq<CommandEntry>, lq: Seq<char>, a: Seq<int>, b: Seq<int>)
    requires
        is_ranking_lower(table, lq, a),
        is_ranking_lower(table, lq, b),
    ensures
        a == b,
{
    let key = |x: int| (score(table[x], lq), x);
    let terms = words(lq);
    assert forall|x: int| a.contains(x) implies b.contains(x) by {
        let i = choose|i: int| 0 <= i < a.len() && a[i] == x;
        assert(0 <= a[i] < table.len());
        assert(qualifies(table[x], terms));
    }
    assert forall|x: int| b.contains(x) implies a.contains(x) by {
        let i = choose|i: int| 0 <= i < b.len() && b[i] == x;
        assert(0 <= b[i] < table.len());
        assert(qualifies(table[x], terms));
    }
    assert forall|i: int, j: int| 0 <= i < j < a.len() implies ranks_before(key(#[trigger] a[i]), key(#[trigger] a[j])) by {
    }
    assert forall|i: int, j: int| 0 <= i < j < b.len() implies ranks_before(key(#[trigger] b[i]), key(#[trigger] b[j])) by {
    }
    lemma_sorted_same_members(a, b, key);
}

/// The palette filter does not care about the case of an ASCII query: what
/// `filter_commands` returns for `q` it returns for `q` lowered ("UNDO" and
/// "undo" both give `Undo`).
pub proof fn lemma_filter_case_insensitive(q: Seq<char>, r1: Seq<CommandEntry>, r2: Seq<CommandEntry>)
    requires
        all_ascii(q),
        ranked_by_lower(ascii_lower(q), r1),
        ranked_by_lower(ascii_lower(ascii_lower(q)), r2),
    ensures
        all_ascii(ascii_lower(q)),
        ascii_lower(q).len() == q.len(),
        r1 == r2,
{
    lemma_ascii_lower_idempotent(q);
    let lq = ascii_lower(q);
    let i1 = choose|idx: Seq<int>|
        is_ranking_lower(command_table(), lq, idx) && idx.len() == r1.len() && forall|i: int|
            0 <= i < idx.len() ==> r1[i] == command_table()[#[trigger] idx[i]];
    let i2 = choose|idx: Seq<int>|
        is_ranking_lower(command_table(), lq, idx) && idx.len() == r2.len() && forall|i: int|
            0 <= i < idx.len() ==> r2[i] == command_table()[#[trigger] idx[i]];
    lemma_ranking_unique(command_table(), lq, i1, i2);
    assert forall|i: int| 0 <= i < r1.len() implies r1[i] == r2[i] by {
        assert(r1[i] == command_table()[i1[i]]);
        assert(r2[i] == command_table()[i2[i]]);
    }
    assert(r1 =~= r2);
}

} // verus!
