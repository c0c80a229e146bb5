//! Character-level text handling shared by the `.meta` / `.tpsheet` line
//! parsers and the command filter: line splitting, whitespace trimming,
//! prefix and substring search, each pinned to a spec over `Seq<char>`.

use vstd::prelude::*;

verus! {

broadcast use vstd::string::group_string_axioms;

// ---------------------------------------------------------------------------
// Conversions between `str` / `String` and character vectors

/// The characters of `s`, in order.
pub fn chars_of(s: &str) -> (r: Vec<char>)
    ensures
        r@ == s@,
{
    let mut r: Vec<char> = Vec::new();
    for c in it: s.chars()
        invariant
            r@ == it.seq().take(it.index() as int),
    {
        r.push(c);
    }
    proof {
        assert(r@ =~= s@);
    }
    r
}

/// Append the characters of `s` to `out`.
pub fn push_text(out: &mut Vec<char>, s: &str)
    ensures
        final(out)@ == old(out)@ + s@,
{
    let cs = chars_of(s);
    let mut k: usize = 0;
    while k < cs.len()
        invariant
            k <= cs@.len(),
            cs@ == s@,
            out@ == old(out)@ + cs@.take(k as int),
        decreases cs@.len() - k,
    {
        out.push(cs[k]);
        proof {
            assert(cs@.take(k + 1) =~= cs@.take(k as int).push(cs@[k as int]));
        }
        k = k + 1;
    }
    assert(cs@.take(cs@.len() as int) =~= cs@);
}

/// Build a `String` holding exactly the characters `v`, one for one:
/// std's `String: FromIterator<&char>`.
#[verifier::external_body]
pub fn string_of(v: &[char]) -> (r: String)
    ensures
        r@ == v@,
{
    String::from_iter(v.iter())
}

// ---------------------------------------------------------------------------
// Whitespace and trimming

/// `char::is_whitespace`: the Unicode `White_Space` property.
pub open spec fn is_ws(c: char) -> bool {
    ||| c == ' '
    ||| ('\u{9}' <= c && c <= '\u{D}')
    ||| c == '\u{85}'
    ||| c == '\u{A0}'
    ||| c == '\u{1680}'
    ||| ('\u{2000}' <= c && c <= '\u{200A}')
    ||| c == '\u{2028}'
    ||| c == '\u{2029}'
    ||| c == '\u{202F}'
    ||| c == '\u{205F}'
    ||| c == '\u{3000}'
}

/// Executable `is_ws`.
pub fn is_ws_char(c: char) -> (r: bool)
    ensures
        r == is_ws(c),
{
    c == ' ' || ('\u{9}' <= c && c <= '\u{D}') || c == '\u{85}' || c == '\u{A0}'
        || c == '\u{1680}' || ('\u{2000}' <= c && c <= '\u{200A}') || c == '\u{2028}'
        || c == '\u{2029}' || c == '\u{202F}' || c == '\u{205F}' || c == '\u{3000}'
}

/// Number of leading whitespace characters of `s`.
pub open spec fn lead_ws(s: Seq<char>) -> nat
    decreases s.len(),
{
    if s.len() > 0 && is_ws(s[0]) {
        1 + lead_ws(s.drop_first())
    } else {
        0
    }
}

/// Number of trailing whitespace characters of `s`.
pub open spec fn trail_ws(s: Seq<char>) -> nat
    decreases s.len(),
{
    if s.len() > 0 && is_ws(s.last()) {
        1 + trail_ws(s.drop_last())
    } else {
        0
    }
}

/// `str::trim_start`.
pub open spec fn trim_start(s: Seq<char>) -> Seq<char> {
    s.skip(lead_ws(s) as int)
}

/// `str::trim_end`.
pub open spec fn trim_end(s: Seq<char>) -> Seq<char> {
    s.take(s.len() - trail_ws(s))
}

/// `str::trim`.
pub open spec fn trim(s: Seq<char>) -> Seq<char> {
    trim_end(trim_start(s))
}

pub proof fn lemma_lead_ws(s: Seq<char>)
    ensures
        lead_ws(s) <= s.len(),
        forall|k: int| 0 <= k < lead_ws(s) ==> is_ws(#[trigger] s[k]),
        lead_ws(s) < s.len() ==> !is_ws(s[lead_ws(s) as int]),
    decreases s.len(),
{
    if s.len() > 0 && is_ws(s[0]) {
        lemma_lead_ws(s.drop_first());
        assert forall|k: int| 0 <= k < lead_ws(s) implies is_ws(#[trigger] s[k]) by {
            if k > 0 {
                assert(s[k] == s.drop_first()[k - 1]);
            }
        }
    }
}

pub proof fn lemma_trail_ws(s: Seq<char>)
    ensures
        trail_ws(s) <= s.len(),
        forall|k: int| s.len() - trail_ws(s) <= k < s.len() ==> is_ws(#[trigger] s[k]),
        trail_ws(s) < s.len() ==> !is_ws(s[s.len() - trail_ws(s) - 1]),
    decreases s.len(),
{
    if s.len() > 0 && is_ws(s.last()) {
        lemma_trail_ws(s.drop_last());
        assert forall|k: int| s.len() - trail_ws(s) <= k < s.len() implies is_ws(#[trigger] s[k]) by {
            if k < s.len() - 1 {
                assert(s[k] == s.drop_last()[k]);
            }
        }
    }
}

/// A count of leading whitespace characterized by its two edges is `lead_ws`.
pub proof fn lemma_lead_ws_unique(s: Seq<char>, n: int)
    requires
        0 <= n <= s.len(),
        forall|k: int| 0 <= k < n ==> is_ws(#[trigger] s[k]),
        n < s.len() ==> !is_ws(s[n]),
    ensures
        lead_ws(s) == n,
    decreases s.len(),
{
    if n > 0 {
        assert(is_ws(s[0]));
        lemma_lead_ws_unique(s.drop_first(), n - 1);
    }
}

/// A count of trailing whitespace characterized by its two edges is `trail_ws`.
pub proof fn lemma_trail_ws_unique(s: Seq<char>, n: int)
    requires
        0 <= n <= s.len(),
        forall|k: int| s.len() - n <= k < s.len() ==> is_ws(#[trigger] s[k]),
        n < s.len() ==> !is_ws(s[s.len() - n - 1]),
    ensures
        trail_ws(s) == n,
    decreases s.len(),
{
    if n > 0 {
        assert(is_ws(s.last()));
        let t = s.drop_last();
        assert forall|k: int| t.len() - (n - 1) <= k < t.len() implies is_ws(#[trigger] t[k]) by {
            assert(t[k] == s[k]);
        }
        if n - 1 < t.len() {
            assert(t[t.len() - (n - 1) - 1] == s[s.len() - n - 1]);
        }
        lemma_trail_ws_unique(t, n - 1);
    }
}

/// Index of the first non-whitespace character of `s[from..to]` (or `to`).
pub fn skip_ws_forward(s: &[char], from: usize, to: usize) -> (r: usize)
    requires
        from <= to <= s@.len(),
    ensures
        from <= r <= to,
        r == from + lead_ws(s@.subrange(from as int, to as int)),
{
    let mut i = from;
    while i < to && is_ws_char(s[i])
        invariant
            from <= i <= to <= s@.len(),
            forall|k: int| from <= k < i ==> is_ws(#[trigger] s@[k]),
        decreases to - i,
    {
        i = i + 1;
    }
    proof {
        let sub = s@.subrange(from as int, to as int);
        assert forall|k: int| 0 <= k < i - from implies is_ws(#[trigger] sub[k]) by {
            assert(sub[k] == s@[from + k]);
        }
        lemma_lead_ws_unique(sub, i - from);
    }
    i
}

/// One past the last non-whitespace character of `s[from..to]` (or `from`).
pub fn skip_ws_backward(s: &[char], from: usize, to: usize) -> (r: usize)
    requires
        from <= to <= s@.len(),
    ensures
        from <= r <= to,
        r == to - trail_ws(s@.subrange(from as int, to as int)),
{
    let mut j = to;
    while j > from && is_ws_char(s[j - 1])
        invariant
            from <= j <= to <= s@.len(),
            forall|k: int| j <= k < to ==> is_ws(#[trigger] s@[k]),
        decreases j - from,
    {
        j = j - 1;
    }
    proof {
        let sub = s@.subrange(from as int, to as int);
        assert forall|k: int| sub.len() - (to - j) <= k < sub.len() implies is_ws(#[trigger] sub[k]) by {
            assert(sub[k] == s@[from + k]);
        }
        if to - j < sub.len() {
            assert(sub[sub.len() - (to - j) - 1] == s@[j - 1]);
        }
        lemma_trail_ws_unique(sub, to - j);
    }
    j
}

/// `trim` of `s[from..to]`, as the bounds of the trimmed range.
pub fn trim_range(s: &[char], from: usize, to: usize) -> (r: (usize, usize))
    requires
        from <= to <= s@.len(),
    ensures
        from <= r.0 <= r.1 <= to,
        s@.subrange(r.0 as int, r.1 as int) == trim(s@.subrange(from as int, to as int)),
{
    let a = skip_ws_forward(s, from, to);
    let b = skip_ws_backward(s, a, to);
    proof {
        let sub = s@.subrange(from as int, to as int);
        assert(trim_start(sub) =~= s@.subrange(a as int, to as int));
        assert(s@.subrange(a as int, b as int) =~= trim(sub));
    }
    (a, b)
}

// ---------------------------------------------------------------------------
// Prefixes and substrings

/// `p` occurs in `s` at index `i`.
pub open spec fn occurs_at(s: Seq<char>, p: Seq<char>, i: int) -> bool {
    0 <= i && i + p.len() <= s.len() && s.subrange(i, i + p.len()) == p
}

/// `str::starts_with`.
pub open spec fn has_prefix(s: Seq<char>, p: Seq<char>) -> bool {
    occurs_at(s, p, 0)
}

/// `str::contains` (for a string pattern).
pub open spec fn contains_seq(s: Seq<char>, p: Seq<char>) -> bool {
    exists|i: int| occurs_at(s, p, i)
}

/// Does `p` occur in `s` at index `i`?
pub fn occurs_at_exec(s: &[char], p: &[char], i: usize) -> (r: bool)
    ensures
        r == occurs_at(s@, p@, i as int),
{
    if p.len() > s.len() || i > s.len() - p.len() {
        return false;
    }
    let mut k: usize = 0;
    while k < p.len()
        invariant
            k <= p@.len(),
            i + p@.len() <= s@.len(),
            p@.len() == p.len(),
            s@.len() == s.len(),
            forall|m: int| 0 <= m < k ==> s@[i + m] == p@[m],
        decreases p@.len() - k,
    {
        if s[i + k] != p[k] {
            proof {
                assert(s@.subrange(i as int, i + p@.len())[k as int] != p@[k as int]);
            }
            return false;
        }
        k = k + 1;
    }
    proof {
        assert(s@.subrange(i as int, i + p@.len()) =~= p@);
    }
    true
}

/// `s.starts_with(p)`.
pub fn starts_with(s: &[char], p: &[char]) -> (r: bool)
    ensures
        r == has_prefix(s@, p@),
{
    occurs_at_exec(s, p, 0)
}

/// First index at which `p` occurs in `s` (`str::find`, counted in chars).
pub fn find_seq(s: &[char], p: &[char]) -> (r: Option<usize>)
    ensures
        r is Some ==> occurs_at(s@, p@, r->0 as int)
            && forall|j: int| 0 <= j < r->0 ==> !occurs_at(s@, p@, j),
        r is None ==> !contains_seq(s@, p@),
{
    if p.len() > s.len() {
        return None;
    }
    let last = s.len() - p.len();
    let mut i: usize = 0;
    loop
        invariant
            last == s@.len() - p@.len(),
            i <= last,
            forall|j: int| 0 <= j < i ==> !occurs_at(s@, p@, j),
        decreases last - i,
    {
        if occurs_at_exec(s, p, i) {
            return Some(i);
        }
        if i == last {
            proof {
                assert forall|j: int| occurs_at(s@, p@, j) implies false by {
                    assert(j <= last);
                }
            }
            return None;
        }
        i = i + 1;
    }
}

/// `s.contains(p)`.
pub fn contains_exec(s: &[char], p: &[char]) -> (r: bool)
    ensures
        r == contains_seq(s@, p@),
{
    match find_seq(s, p) {
        Some(_) => true,
        None => false,
    }
}

/// `str::strip_prefix`.
pub open spec fn strip_prefix(s: Seq<char>, p: Seq<char>) -> Option<Seq<char>> {
    if has_prefix(s, p) {
        Some(s.skip(p.len() as int))
    } else {
        None
    }
}

/// Does `s[a..e]` start with `p`?
pub fn range_has_prefix(s: &[char], a: usize, e: usize, p: &[char]) -> (r: bool)
    requires
        a <= e <= s@.len(),
    ensures
        r == has_prefix(s@.subrange(a as int, e as int), p@),
{
    if p.len() > e - a {
        return false;
    }
    let r = occurs_at_exec(s, p, a);
    proof {
        assert(s@.subrange(a as int, e as int).subrange(0, p@.len() as int) =~= s@.subrange(
            a as int,
            a + p@.len(),
        ));
    }
    r
}

/// A copy of `s[a..b]`.
pub fn sub_chars(s: &[char], a: usize, b: usize) -> (r: Vec<char>)
    requires
        a <= b <= s@.len(),
    ensures
        r@ == s@.subrange(a as int, b as int),
{
    let mut r: Vec<char> = Vec::new();
    let mut i = a;
    while i < b
        invariant
            a <= i <= b <= s@.len(),
            r@ == s@.subrange(a as int, i as int),
        decreases b - i,
    {
        r.push(s[i]);
        proof {
            assert(r@ =~= s@.subrange(a as int, i + 1));
        }
        i = i + 1;
    }
    r
}

/// The first `Some` that `f` gives over `xs`, in order.
pub open spec fn first_some<A, T>(xs: Seq<A>, f: spec_fn(A) -> Option<T>) -> Option<T>
    decreases xs.len(),
{
    if xs.len() == 0 {
        None
    } else {
        match f(xs[0]) {
            Some(v) => Some(v),
            None => first_some(xs.drop_first(), f),
        }
    }
}

pub proof fn lemma_first_some_skip<A, T>(xs: Seq<A>, f: spec_fn(A) -> Option<T>, i: int)
    requires
        0 <= i < xs.len(),
    ensures
        first_some(xs.skip(i), f) == (match f(xs[i]) {
            Some(v) => Some(v),
            None => first_some(xs.skip(i + 1), f),
        }),
{
    assert(xs.skip(i).drop_first() =~= xs.skip(i + 1));
    assert(xs.skip(i)[0] == xs[i]);
}

pub proof fn lemma_first_some_end<A, T>(xs: Seq<A>, f: spec_fn(A) -> Option<T>)
    ensures
        first_some(xs.skip(xs.len() as int), f) == None::<T>,
        first_some(xs.skip(0), f) == first_some(xs, f),
{
    assert(xs.skip(xs.len() as int) =~= Seq::<A>::empty());
    assert(xs.skip(0) =~= xs);
}

// ---------------------------------------------------------------------------
// Line splitting

/// Index of the first `'\n'` at or after `start`, or `s.len()` if none.
pub open spec fn nl_from(s: Seq<char>, start: int) -> int
    decreases s.len() - start,
{
    if start < 0 || start >= s.len() {
        s.len() as int
    } else if s[start] == '\n' {
        start
    } else {
        nl_from(s, start + 1)
    }
}

pub proof fn lemma_nl_from(s: Seq<char>, start: int)
    requires
        0 <= start <= s.len(),
    ensures
        start <= nl_from(s, start) <= s.len(),
        nl_from(s, start) < s.len() ==> s[nl_from(s, start)] == '\n',
        forall|k: int| start <= k < nl_from(s, start) ==> s[k] != '\n',
    decreases s.len() - start,
{
    if start < s.len() && s[start] != '\n' {
        lemma_nl_from(s, start + 1);
    }
}

/// End (exclusive) of the `'\n'`-terminated segment that starts at `start`.
pub open spec fn seg_end(s: Seq<char>, start: int) -> int {
    let e = nl_from(s, start);
    if e < s.len() { e + 1 } else { e }
}

/// `str::split_inclusive('\n')` of `s[start..]`: each piece keeps its
/// terminating newline; an empty input has no pieces.
pub open spec fn segments_from(s: Seq<char>, start: int) -> Seq<Seq<char>>
    decreases s.len() - start,
{
    if start < 0 || start >= s.len() {
        Seq::empty()
    } else {
        proof {
            lemma_nl_from(s, start);
        }
        seq![s.subrange(start, seg_end(s, start))] + segments_from(s, seg_end(s, start))
    }
}

/// `str::split_inclusive('\n')`.
pub open spec fn segments(s: Seq<char>) -> Seq<Seq<char>> {
    segments_from(s, 0)
}

/// A line as `str::lines` yields it from its segment: a final `"\n"` or
/// `"\r\n"` is dropped.
pub open spec fn strip_eol(seg: Seq<char>) -> Seq<char> {
    if seg.len() > 0 && seg.last() == '\n' {
        let t = seg.drop_last();
        if t.len() > 0 && t.last() == '\r' {
            t.drop_last()
        } else {
            t
        }
    } else {
        seg
    }
}

/// `str::lines`.
pub open spec fn lines(s: Seq<char>) -> Seq<Seq<char>> {
    segments(s).map_values(|seg: Seq<char>| strip_eol(seg))
}

/// The text that a list of ranges selects.
pub open spec fn ranges_text(s: Seq<char>, r: Seq<(usize, usize)>) -> Seq<Seq<char>> {
    r.map_values(|p: (usize, usize)| s.subrange(p.0 as int, p.1 as int))
}

pub open spec fn ranges_ok(s: Seq<char>, r: Seq<(usize, usize)>) -> bool {
    forall|i: int| 0 <= i < r.len() ==> (#[trigger] r[i]).0 <= r[i].1 <= s.len()
}

/// The `split_inclusive('\n')` pieces of `s`, as index ranges.
pub fn segment_ranges(s: &[char]) -> (r: Vec<(usize, usize)>)
    ensures
        ranges_ok(s@, r@),
        ranges_text(s@, r@) == segments(s@),
{
    let mut r: Vec<(usize, usize)> = Vec::new();
    let mut start: usize = 0;
    let n = s.len();
    while start < n
        invariant
            n == s@.len(),
            start <= n,
            ranges_ok(s@, r@),
            ranges_text(s@, r@) + segments_from(s@, start as int) == segments(s@),
        decreases n - start,
    {
        let mut j = start;
        while j < n && s[j] != '\n'
            invariant
                start <= j <= n,
                n == s@.len(),
                nl_from(s@, start as int) == nl_from(s@, j as int),
            decreases n - j,
        {
            j = j + 1;
        }
        let end = if j < n { j + 1 } else { j };
        proof {
            lemma_nl_from(s@, start as int);
            assert(end == seg_end(s@, start as int));
            let old_r = r@;
            assert(segments_from(s@, start as int) == seq![s@.subrange(start as int, end as int)]
                + segments_from(s@, end as int));
            assert(ranges_text(s@, old_r.push((start, end))) =~= ranges_text(s@, old_r)
                + seq![s@.subrange(start as int, end as int)]);
        }
        r.push((start, end));
        start = end;
    }
    proof {
        assert(segments_from(s@, start as int) =~= Seq::<Seq<char>>::empty());
        assert(ranges_text(s@, r@) =~= segments(s@));
    }
    r
}

/// The range that `strip_eol` keeps of `s[a..b]`.
pub fn strip_eol_range(s: &[char], a: usize, b: usize) -> (r: usize)
    requires
        a <= b <= s@.len(),
    ensures
        a <= r <= b,
        s@.subrange(a as int, r as int) == strip_eol(s@.subrange(a as int, b as int)),
{
    let seg = Ghost(s@.subrange(a as int, b as int));
    if b > a && s[b - 1] == '\n' {
        proof {
            assert(seg@.drop_last() =~= s@.subrange(a as int, b - 1));
        }
        if b - 1 > a && s[b - 2] == '\r' {
            proof {
                assert(seg@.drop_last().drop_last() =~= s@.subrange(a as int, b - 2));
            }
            b - 2
        } else {
            b - 1
        }
    } else {
        b
    }
}

/// The lines of `s` (`str::lines`), as index ranges.
pub fn line_ranges(s: &[char]) -> (r: Vec<(usize, usize)>)
    ensures
        ranges_ok(s@, r@),
        ranges_text(s@, r@) == lines(s@),
{
    let segs = segment_ranges(s);
    let mut r: Vec<(usize, usize)> = Vec::new();
    let mut i: usize = 0;
    while i < segs.len()
        invariant
            i <= segs@.len(),
            ranges_ok(s@, segs@),
            ranges_text(s@, segs@) == segments(s@),
            ranges_ok(s@, r@),
            r@.len() == i,
            forall|k: int| 0 <= k < i ==> #[trigger] ranges_text(s@, r@)[k] == lines(s@)[k],
        decreases segs@.len() - i,
    {
        let (a, b) = segs[i];
        let e = strip_eol_range(s, a, b);
        proof {
            assert(ranges_text(s@, segs@)[i as int] == s@.subrange(a as int, b as int));
        }
        let ghost old_r = r@;
        r.push((a, e));
        proof {
            assert(segments(s@)[i as int] == s@.subrange(a as int, b as int));
            assert(lines(s@)[i as int] == strip_eol(segments(s@)[i as int]));
            assert forall|k: int| 0 <= k < i + 1 implies #[trigger] ranges_text(s@, r@)[k] == lines(s@)[k] by {
                if k < i {
                    assert(r@[k] == old_r[k]);
                    assert(ranges_text(s@, old_r)[k] == lines(s@)[k]);
                } else {
                    assert(r@[k] == (a, e));
                }
            }
        }
        i = i + 1;
    }
    proof {
        assert(ranges_text(s@, r@) =~= lines(s@));
    }
    r
}

// ---------------------------------------------------------------------------
// Lines of a text built line by line

proof fn lemma_nl_from_shift(p: Seq<char>, r: Seq<char>, j: int)
    requires
        0 <= j <= r.len(),
    ensures
        nl_from(p + r, p.len() + j) == p.len() + nl_from(r, j),
    decreases r.len() - j,
{
    let s = p + r;
    if j < r.len() {
        assert(s[p.len() + j] == r[j]);
        if r[j] != '\n' {
            lemma_nl_from_shift(p, r, j + 1);
        }
    }
}

proof fn lemma_segments_shift(p: Seq<char>, r: Seq<char>, j: int)
    requires
        0 <= j <= r.len(),
    ensures
        segments_from(p + r, p.len() + j) == segments_from(r, j),
    decreases r.len() - j,
{
    let s = p + r;
    if j < r.len() {
        lemma_nl_from_shift(p, r, j);
        lemma_nl_from(r, j);
        let e = seg_end(r, j);
        assert(seg_end(s, p.len() + j) == p.len() + e);
        assert(s.subrange(p.len() + j, p.len() + e) =~= r.subrange(j, e));
        lemma_segments_shift(p, r, e);
    }
}

proof fn lemma_nl_from_first(s: Seq<char>, k: int, e: int)
    requires
        0 <= k <= e < s.len(),
        s[e] == '\n',
        forall|i: int| k <= i < e ==> s[i] != '\n',
    ensures
        nl_from(s, k) == e,
    decreases e - k,
{
    if k < e {
        lemma_nl_from_first(s, k + 1, e);
    }
}

/// A line without line breaks, not ending in a carriage return.
pub open spec fn plain_line(a: Seq<char>) -> bool {
    &&& forall|i: int| 0 <= i < a.len() ==> a[i] != '\n'
    &&& (a.len() == 0 || a.last() != '\r')
}

/// `lines` of a first line and the rest: the line, then the rest's lines.
pub proof fn lemma_lines_cons(a: Seq<char>, r: Seq<char>)
    requires
        plain_line(a),
    ensures
        lines(a.push('\n') + r) == seq![a] + lines(r),
{
    let h = a.push('\n');
    let s = h + r;
    assert(s[a.len() as int] == '\n');
    assert forall|i: int| 0 <= i < a.len() implies s[i] != '\n' by {
        assert(s[i] == a[i]);
    }
    lemma_nl_from_first(s, 0, a.len() as int);
    assert(seg_end(s, 0) == h.len());
    assert(s.subrange(0, h.len() as int) =~= h);
    lemma_segments_shift(h, r, 0);
    assert(segments(s) == seq![h] + segments(r));
    assert(strip_eol(h) =~= a);
    assert(lines(s) =~= seq![a] + lines(r));
}

/// No line break of `s` follows a space, and `s` does not open with one.
pub open spec fn no_space_before_nl(s: Seq<char>) -> bool {
    &&& forall|k: int| 0 < k < s.len() && #[trigger] s[k] == '\n' ==> s[k - 1] != ' '
    &&& (s.len() > 0 ==> s[0] != '\n')
}

pub proof fn lemma_no_space_before_nl_cons(a: Seq<char>, r: Seq<char>)
    requires
        plain_line(a),
        a.len() > 0,
        a.last() != ' ',
        no_space_before_nl(r),
    ensures
        no_space_before_nl(a.push('\n') + r),
{
    let s = a.push('\n') + r;
    let n = a.len() as int;
    assert forall|k: int| 0 < k < s.len() && #[trigger] s[k] == '\n' implies s[k - 1] != ' ' by {
        if k < n {
            assert(s[k] == a[k]);
        } else if k == n {
            assert(s[k - 1] == a[n - 1]);
        } else if k == n + 1 {
            assert(s[k] == r[0]);
        } else {
            assert(s[k] == r[k - n - 1]);
            assert(s[k - 1] == r[k - n - 2]);
        }
    }
    assert(s[0] == a[0]);
}

/// Lines joined, each ended by `'\n'`.
pub open spec fn join_lines(ls: Seq<Seq<char>>) -> Seq<char>
    decreases ls.len(),
{
    if ls.len() == 0 {
        Seq::empty()
    } else {
        ls[0].push('\n') + join_lines(ls.drop_first())
    }
}

/// Splitting joined plain lines gives the lines back.
pub proof fn lemma_lines_of_join(ls: Seq<Seq<char>>)
    requires
        forall|k: int| 0 <= k < ls.len() ==> #[trigger] plain_line(ls[k]),
    ensures
        lines(join_lines(ls)) == ls,
    decreases ls.len(),
{
    if ls.len() == 0 {
        assert(lines(Seq::<char>::empty()) =~= Seq::<Seq<char>>::empty());
    } else {
        let rest = ls.drop_first();
        assert forall|k: int| 0 <= k < rest.len() implies #[trigger] plain_line(rest[k]) by {
            assert(rest[k] == ls[k + 1]);
        }
        lemma_lines_of_join(rest);
        assert(plain_line(ls[0]));
        lemma_lines_cons(ls[0], join_lines(rest));
        assert(seq![ls[0]] + rest =~= ls);
    }
}

/// In joined lines that are non-empty, plain and do not end in a space,
/// no line break follows a space.
pub proof fn lemma_join_no_space_before_nl(ls: Seq<Seq<char>>)
    requires
        forall|k: int| 0 <= k < ls.len() ==> #[trigger] plain_line(ls[k]),
        forall|k: int| 0 <= k < ls.len() ==> (#[trigger] ls[k]).len() > 0 && ls[k].last() != ' ',
    ensures
        no_space_before_nl(join_lines(ls)),
    decreases ls.len(),
{
    if ls.len() > 0 {
        let rest = ls.drop_first();
        assert forall|k: int| 0 <= k < rest.len() implies #[trigger] plain_line(rest[k]) by {
            assert(rest[k] == ls[k + 1]);
        }
        assert forall|k: int| 0 <= k < rest.len() implies (#[trigger] rest[k]).len() > 0 && rest[k].last() != ' ' by {
            assert(rest[k] == ls[k + 1]);
        }
        lemma_join_no_space_before_nl(rest);
        assert(plain_line(ls[0]));
        assert(ls[0].len() > 0 && ls[0].last() != ' ');
        lemma_no_space_before_nl_cons(ls[0], join_lines(rest));
    }
}

/// Joining one more line appends it and its line break.
pub proof fn lemma_join_push(ls: Seq<Seq<char>>, l: Seq<char>)
    ensures
        join_lines(ls.push(l)) == join_lines(ls) + l.push('\n'),
    decreases ls.len(),
{
    if ls.len() == 0 {
        assert(ls.push(l).drop_first() =~= Seq::<Seq<char>>::empty());
        assert(join_lines(Seq::<Seq<char>>::empty()) == Seq::<char>::empty());
        assert(ls =~= Seq::<Seq<char>>::empty());
        assert(ls.push(l)[0] == l);
        assert(join_lines(ls.push(l)) == l.push('\n') + Seq::<char>::empty());
        assert(join_lines(ls.push(l)) =~= join_lines(ls) + l.push('\n'));
    } else {
        assert(ls.push(l).drop_first() =~= ls.drop_first().push(l));
        lemma_join_push(ls.drop_first(), l);
        assert(ls.push(l)[0] == ls[0]);
        let h = ls[0].push('\n');
        let j = join_lines(ls.drop_first());
        assert(join_lines(ls.push(l)) == h + (j + l.push('\n')));
        assert(join_lines(ls) == h + j);
        vstd::seq_lib::lemma_concat_associative(h, j, l.push('\n'));
    }
}

/// Joining two runs of lines concatenates their texts.
pub proof fn lemma_join_append(a: Seq<Seq<char>>, b: Seq<Seq<char>>)
    ensures
        join_lines(a + b) == join_lines(a) + join_lines(b),
    decreases a.len(),
{
    if a.len() == 0 {
        assert(a + b =~= b);
        assert(join_lines(a) + join_lines(b) =~= join_lines(b));
    } else {
        assert((a + b).drop_first() =~= a.drop_first() + b);
        lemma_join_append(a.drop_first(), b);
        assert((a + b)[0] == a[0]);
        assert(join_lines(a + b) =~= join_lines(a) + join_lines(b));
    }
}


// ---------------------------------------------------------------------------
// Pieces of `split_inclusive('\n')` put back together

/// A piece of `split_inclusive('\n')`: not empty, with a line break at most
/// as its last character.
pub open spec fn is_piece(x: Seq<char>) -> bool {
    &&& x.len() > 0
    &&& forall|i: int| 0 <= i < x.len() - 1 ==> x[i] != '\n'
}

/// Pieces as `split_inclusive('\n')` gives them: each a piece, each but the
/// last ending in a line break.
pub open spec fn well_split(ps: Seq<Seq<char>>) -> bool {
    &&& forall|k: int| 0 <= k < ps.len() ==> is_piece(#[trigger] ps[k])
    &&& forall|k: int| 0 <= k < ps.len() - 1 ==> (#[trigger] ps[k]).last() == '\n'
}

/// Pieces joined back into one text.
pub open spec fn concat_pieces(ps: Seq<Seq<char>>) -> Seq<char>
    decreases ps.len(),
{
    if ps.len() == 0 {
        Seq::empty()
    } else {
        concat_pieces(ps.drop_last()) + ps.last()
    }
}

/// One piece splits into itself.
pub proof fn lemma_segments_of_piece(b: Seq<char>)
    requires
        is_piece(b),
    ensures
        segments(b) == seq![b],
{
    lemma_nl_from(b, 0);
    if b.last() == '\n' {
        lemma_nl_from_first(b, 0, b.len() - 1);
    } else {
        if nl_from(b, 0) < b.len() {
            assert(b[nl_from(b, 0)] == '\n');
        }
    }
    assert(seg_end(b, 0) == b.len());
    assert(b.subrange(0, b.len() as int) =~= b);
    assert(segments_from(b, b.len() as int) =~= Seq::<Seq<char>>::empty());
    assert(segments(b) =~= seq![b]);
}

proof fn lemma_segments_append_from(a: Seq<char>, b: Seq<char>, j: int)
    requires
        0 <= j <= a.len(),
        a.len() == 0 || a.last() == '\n',
    ensures
        segments_from(a + b, j) == segments_from(a, j) + segments(b),
    decreases a.len() - j,
{
    let s = a + b;
    if j == a.len() {
        lemma_segments_shift(a, b, 0);
        assert(segments_from(a, j) =~= Seq::<Seq<char>>::empty());
        assert(segments_from(a, j) + segments(b) =~= segments(b));
    } else {
        lemma_nl_from(a, j);
        let e = nl_from(a, j);
        if e == a.len() {
            assert(a[a.len() - 1] != '\n');
        }
        assert(s[e] == '\n');
        assert forall|k: int| j <= k < e implies s[k] != '\n' by {
            assert(s[k] == a[k]);
        }
        lemma_nl_from_first(s, j, e);
        assert(seg_end(s, j) == e + 1);
        assert(s.subrange(j, e + 1) =~= a.subrange(j, e + 1));
        lemma_segments_append_from(a, b, e + 1);
        assert(segments_from(s, j) == seq![a.subrange(j, e + 1)] + segments_from(s, e + 1));
        assert(segments_from(a, j) == seq![a.subrange(j, e + 1)] + segments_from(a, e + 1));
        assert(seq![a.subrange(j, e + 1)] + (segments_from(a, e + 1) + segments(b)) =~= (seq![
            a.subrange(j, e + 1),
        ] + segments_from(a, e + 1)) + segments(b));
    }
}

/// A text that is empty or ends in a line break splits apart from what
/// follows it.
pub proof fn lemma_segments_append(a: Seq<char>, b: Seq<char>)
    requires
        a.len() == 0 || a.last() == '\n',
    ensures
        segments(a + b) == segments(a) + segments(b),
{
    lemma_segments_append_from(a, b, 0);
}

/// Pieces joined back together split into the same pieces.
pub proof fn lemma_segments_of_concat(ps: Seq<Seq<char>>)
    requires
        well_split(ps),
    ensures
        segments(concat_pieces(ps)) == ps,
    decreases ps.len(),
{
    if ps.len() == 0 {
        assert(segments(Seq::<char>::empty()) =~= ps);
    } else {
        let q = ps.drop_last();
        assert forall|k: int| 0 <= k < q.len() implies is_piece(#[trigger] q[k]) by {
            assert(q[k] == ps[k]);
        }
        assert forall|k: int| 0 <= k < q.len() - 1 implies (#[trigger] q[k]).last() == '\n' by {
            assert(q[k] == ps[k]);
        }
        lemma_segments_of_concat(q);
        let c = concat_pieces(q);
        if q.len() > 0 {
            assert(q.last() == ps[ps.len() - 2]);
            assert(is_piece(ps[ps.len() - 2]));
            assert(c == concat_pieces(q.drop_last()) + q.last());
            assert(c.last() == q.last().last());
        } else {
            assert(c =~= Seq::<char>::empty());
        }
        lemma_segments_append(c, ps.last());
        assert(is_piece(ps[ps.len() - 1]));
        lemma_segments_of_piece(ps.last());
        assert(q + seq![ps.last()] =~= ps);
    }
}

proof fn lemma_segments_from_well_split(s: Seq<char>, j: int)
    requires
        0 <= j <= s.len(),
    ensures
        well_split(segments_from(s, j)),
    decreases s.len() - j,
{
    if j < s.len() {
        lemma_nl_from(s, j);
        let e = seg_end(s, j);
        let x = s.subrange(j, e);
        lemma_segments_from_well_split(s, e);
        let rest = segments_from(s, e);
        let ps = seq![x] + rest;
        assert(segments_from(s, j) == ps);
        assert forall|i: int| 0 <= i < x.len() - 1 implies x[i] != '\n' by {
            assert(x[i] == s[j + i]);
        }
        assert forall|k: int| 0 <= k < ps.len() implies is_piece(#[trigger] ps[k]) by {
            if k > 0 {
                assert(ps[k] == rest[k - 1]);
            }
        }
        assert forall|k: int| 0 <= k < ps.len() - 1 implies (#[trigger] ps[k]).last() == '\n' by {
            if k > 0 {
                assert(ps[k] == rest[k - 1]);
            } else {
                assert(rest.len() > 0);
                assert(e < s.len());
                assert(x.last() == s[e - 1]);
            }
        }
    }
}

/// `split_inclusive('\n')` gives pieces.
pub proof fn lemma_segments_well_split(s: Seq<char>)
    ensures
        well_split(segments(s)),
{
    lemma_segments_from_well_split(s, 0);
}

} // verus!
