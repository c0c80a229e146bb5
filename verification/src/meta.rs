//! Unity `.meta` text: pulling the `guid:` out of any `.meta`, rendering the
//! sprite `.asset.meta` in the two byte shapes found in the corpus, sniffing
//! which shape an existing file uses, and surgically rewriting the atlas
//! `.png.meta`'s `alphaIsTransparency:` line.
//!
//!   - Modern186: 186 bytes, no trailing spaces. The fresh-mint shape.
//!   - Legacy189: 189 bytes, trailing spaces after userData/assetBundle*.

use std::hash::BuildHasher;
use vstd::prelude::*;
use vstd::utf8::encode_utf8;
use crate::text::{
    chars_of, contains_exec, contains_seq, first_some, has_prefix, lead_ws, line_ranges, lines,
    lemma_first_some_end, lemma_first_some_skip, range_has_prefix, ranges_text, segment_ranges,
    segments, skip_ws_forward, string_of, strip_prefix, sub_chars, trim, trim_range, trim_start,
};

verus! {

broadcast use vstd::string::group_string_axioms;

/// Errors of the `.meta` helpers: a disk failure (its message), a malformed
/// or missing `guid:` line, and a missing or malformed
/// `alphaIsTransparency:` line.
#[derive(Debug)]
pub enum MetaError {
    Io(String),
    InvalidGuid(String),
    NoGuidField,
    NoAlphaIsTransparencyField,
    InvalidAlphaIsTransparencyValue(String),
}

// ---------------------------------------------------------------------------
// Hex

/// Value of an ASCII hex digit byte (either case).
pub open spec fn hex_val(b: u8) -> Option<u8> {
    if 0x30 <= b <= 0x39 {
        Some((b - 0x30) as u8)
    } else if 0x61 <= b <= 0x66 {
        Some((b - 0x61 + 10) as u8)
    } else if 0x41 <= b <= 0x46 {
        Some((b - 0x41 + 10) as u8)
    } else {
        None
    }
}

pub(crate) fn hex_val_exec(b: u8) -> (r: Option<u8>)
    ensures
        r == hex_val(b),
{
    if 0x30 <= b && b <= 0x39 {
        Some(b - 0x30)
    } else if 0x61 <= b && b <= 0x66 {
        Some(b - 0x61 + 10)
    } else if 0x41 <= b && b <= 0x46 {
        Some(b - 0x41 + 10)
    } else {
        None
    }
}

/// `u8::from_str_radix(pair, 16)` on a two-byte string: two hex digits, or
/// a `+` sign followed by one.
pub open spec fn hex_pair(b0: u8, b1: u8) -> Option<u8> {
    if b0 == 0x2B {
        hex_val(b1)
    } else {
        match (hex_val(b0), hex_val(b1)) {
            (Some(h), Some(l)) => Some((h * 16 + l) as u8),
            _ => None,
        }
    }
}

/// The byte that two ASCII hex digits write, high digit first; `None`
/// unless both are hex digits.
pub open spec fn hex_byte(b0: u8, b1: u8) -> Option<u8> {
    match (hex_val(b0), hex_val(b1)) {
        (Some(h), Some(l)) => Some((h * 16 + l) as u8),
        _ => None,
    }
}

/// The bytes that the 32 UTF-8 bytes `b` write as hex digit pairs, from
/// pair `i` on; `None` when some pair is not two hex digits.
pub open spec fn hex_pairs_from(b: Seq<u8>, i: int) -> Option<Seq<u8>>
    decreases 16 - i,
{
    if i < 0 || i >= 16 {
        Some(Seq::empty())
    } else {
        match hex_byte(b[2 * i], b[2 * i + 1]) {
            None => None,
            Some(v) => match hex_pairs_from(b, i + 1) {
                None => None,
                Some(rest) => Some(seq![v] + rest),
            },
        }
    }
}

/// The 16 bytes that the `guid:` value `hex` writes: `Some` exactly when
/// it is 32 hex digits.
pub open spec fn guid_hex_outcome(hex: Seq<char>) -> Option<Seq<u8>> {
    let b = encode_utf8(hex);
    if b.len() != 32 {
        None
    } else {
        hex_pairs_from(b, 0)
    }
}

/// Lowercase hex digit for a nibble.
pub open spec fn hex_digit_lower(n: int) -> char {
    if n < 10 {
        (n + 48) as char
    } else {
        (n + 87) as char
    }
}

/// Lowercase hex rendering of `bytes`, high nibble first.
pub open spec fn hex_lower(bytes: Seq<u8>) -> Seq<char>
    decreases bytes.len(),
{
    if bytes.len() == 0 {
        Seq::empty()
    } else {
        hex_lower(bytes.drop_last()) + seq![
            hex_digit_lower((bytes.last() / 16) as int),
            hex_digit_lower((bytes.last() % 16) as int),
        ]
    }
}

fn hex_digit_lower_exec(n: u8) -> (c: char)
    requires
        n < 16,
    ensures
        c == hex_digit_lower(n as int),
{
    if n < 10 {
        (n + 48) as char
    } else {
        (n + 87) as char
    }
}

/// Lowercase 32-digit hex of a GUID (the `guid:` value in a `.meta`).
pub fn guid_hex(guid: &[u8; 16]) -> (s: String)
    ensures
        s@ == hex_lower(guid@),
{
    let mut out: Vec<char> = Vec::new();
    let mut i: usize = 0;
    while i < 16
        invariant
            i <= 16,
            guid@.len() == 16,
            out@ == hex_lower(guid@.take(i as int)),
        decreases 16 - i,
    {
        let b = guid[i];
        out.push(hex_digit_lower_exec(b / 16));
        out.push(hex_digit_lower_exec(b % 16));
        proof {
            let t = guid@.take(i + 1);
            assert(t.drop_last() =~= guid@.take(i as int));
            assert(out@ =~= hex_lower(t));
        }
        i = i + 1;
    }
    proof {
        assert(guid@.take(16) =~= guid@);
    }
    string_of(out.as_slice())
}

/// `prepend(vals, o)`: the outcome `o` with `vals` in front of its values.
pub open spec fn prepend_vals(vals: Seq<u8>, o: Option<Seq<u8>>) -> Option<Seq<u8>> {
    match o {
        Some(r) => Some(vals + r),
        None => None,
    }
}

/// Parse the 32 hex digits of a `guid:` value into 16 bytes;
/// `InvalidGuid` for anything else.
pub fn parse_guid_hex(hex: &str) -> (r: Result<[u8; 16], MetaError>)
    ensures
        match guid_hex_outcome(hex@) {
            Some(v) => r is Ok && r->Ok_0@ == v,
            None => r matches Err(MetaError::InvalidGuid(s)) && s@ == hex@,
        },
{
    let b = hex.as_bytes();
    if b.len() != 32 {
        return Err(MetaError::InvalidGuid(hex.to_owned()));
    }
    let mut out: [u8; 16] = [0u8; 16];
    let mut i: usize = 0;
    assert(b@ == encode_utf8(hex@));
    assert(out@.take(0) =~= Seq::<u8>::empty());
    assert(prepend_vals(Seq::empty(), hex_pairs_from(b@, 0)) == hex_pairs_from(b@, 0)) by {
        match hex_pairs_from(b@, 0) {
            Some(x) => { assert(Seq::<u8>::empty() + x =~= x); }
            None => {}
        }
    }
    while i < 16
        invariant
            i <= 16,
            b@.len() == 32,
            b@ == encode_utf8(hex@),
            out@.len() == 16,
            hex_pairs_from(b@, 0) == prepend_vals(out@.take(i as int), hex_pairs_from(b@, i as int)),
        decreases 16 - i,
    {
        let b0 = b[2 * i];
        let b1 = b[2 * i + 1];
        let v = match (hex_val_exec(b0), hex_val_exec(b1)) {
            (Some(h), Some(l)) => Some(h * 16 + l),
            _ => None,
        };
        assert(v == hex_byte(b0, b1));
        match v {
            None => {
                proof {
                    assert(hex_pairs_from(b@, i as int) == None::<Seq<u8>>);
                }
                return Err(MetaError::InvalidGuid(hex.to_owned()));
            }
            Some(x) => {
                let ghost old_out = out@;
                out[i] = x;
                proof {
                    assert(out@.take(i + 1) =~= old_out.take(i as int) + seq![x]);
                    match hex_pairs_from(b@, i + 1) {
                        Some(rest) => {
                            assert(old_out.take(i as int) + (seq![x] + rest) =~= out@.take(i + 1) + rest);
                        }
                        _ => {}
                    }
                }
                i = i + 1;
            }
        }
    }
    proof {
        assert(out@.take(16) =~= out@);
        assert(out@ + Seq::<u8>::empty() =~= out@);
    }
    Ok(out)
}

/// The `guid:` line's value: the trimmed text after `"guid: "` on the first
/// line that starts with it.
pub open spec fn guid_field(text: Seq<char>) -> Option<Seq<char>> {
    first_some(lines(text), guid_line())
}

/// The `guid:` value that one line carries, if it is the `guid:` line.
pub open spec fn guid_line() -> spec_fn(Seq<char>) -> Option<Seq<char>> {
    |l: Seq<char>|
        if has_prefix(l, "guid: "@) {
            Some(trim(l.skip("guid: "@.len() as int)))
        } else {
            None
        }
}

/// What `parse_guid` answers for `text`.
pub open spec fn parse_guid_result(text: Seq<char>) -> Result<Seq<u8>, Option<Seq<char>>> {
    match guid_field(text) {
        None => Err(None),
        Some(v) => match guid_hex_outcome(v) {
            Some(g) => Ok(g),
            None => Err(Some(v)),
        },
    }
}

/// Pull the 16-byte GUID out of a Unity `.meta` payload (any `.meta`: the
/// `guid:` line is shared). `NoGuidField` when no line starts with
/// `"guid: "`, `InvalidGuid` when its value is not 32 hex digits.
pub fn parse_guid(meta_text: &str) -> (r: Result<[u8; 16], MetaError>)
    ensures
        match parse_guid_result(meta_text@) {
            Ok(g) => r is Ok && r->Ok_0@ == g,
            Err(None) => r matches Err(MetaError::NoGuidField),
            Err(Some(v)) => r matches Err(MetaError::InvalidGuid(s)) && s@ == v,
        },
{
    match guid_value(meta_text) {
        None => Err(MetaError::NoGuidField),
        Some(s) => parse_guid_hex(s.as_str()),
    }
}

/// The trimmed value of the first `guid: ` line, if any.
fn guid_value(meta_text: &str) -> (r: Option<String>)
    ensures
        match r {
            Some(s) => guid_field(meta_text@) == Some(s@),
            None => guid_field(meta_text@) is None,
        },
{
    let chars = chars_of(meta_text);
    let ls = line_ranges(chars.as_slice());
    let prefix = chars_of("guid: ");
    let ghost f = guid_line();
    let ghost text_lines = lines(meta_text@);
    proof {
        lemma_first_some_end(text_lines, f);
    }
    let mut i: usize = 0;
    while i < ls.len()
        invariant
            i <= ls@.len(),
            chars@ == meta_text@,
            prefix@ == "guid: "@,
            ranges_text(chars@, ls@) == text_lines,
            text_lines == lines(meta_text@),
            f == guid_line(),
            forall|k: int| 0 <= k < ls@.len() ==> (#[trigger] ls@[k]).0 <= ls@[k].1 <= chars@.len(),
            first_some(text_lines.skip(i as int), f) == guid_field(meta_text@),
        decreases ls@.len() - i,
    {
        let (a, e) = ls[i];
        proof {
            lemma_first_some_skip(text_lines, f, i as int);
            assert(text_lines[i as int] == chars@.subrange(a as int, e as int));
        }
        if range_has_prefix(chars.as_slice(), a, e, prefix.as_slice()) {
            let (x, y) = trim_range(chars.as_slice(), a + prefix.len(), e);
            let value = sub_chars(chars.as_slice(), x, y);
            let s = string_of(value.as_slice());
            proof {
                assert(chars@.subrange(a as int, e as int).skip(prefix@.len() as int) =~= chars@.subrange(
                    a + prefix@.len(),
                    e as int,
                ));
                let l = text_lines[i as int];
                assert(has_prefix(l, "guid: "@));
                assert(l.skip("guid: "@.len() as int) == chars@.subrange(a + prefix@.len(), e as int));
                assert(trim(l.skip("guid: "@.len() as int)) == value@);
                assert(f(l) == Some(value@));
            }
            return Some(s);
        }
        i = i + 1;
    }
    proof {
        assert(text_lines.skip(i as int) =~= Seq::<Seq<char>>::empty());
    }
    None
}

// ---------------------------------------------------------------------------
// Shape of a sprite `.asset.meta`

/// Trailing-space style of a sprite `.asset.meta`.
#[derive(Debug, Clone, Copy, PartialEq, Eq, Structural)]
pub enum MetaFormat {
    /// Current Unity emit: `userData:\n` (no trailing space). 186 bytes.
    Modern186,
    /// Older Unity emit: `userData: \n` (with trailing space, plus the
    /// same on `assetBundleName` and `assetBundleVariant`). 189 bytes.
    Legacy189,
}

/// Per-file emit shape preserved across rewrites: the trailing-space
/// format and the `mainObjectFileID` (usually 21300000, the Sprite class
/// fileID; transient sprites carry 0).
#[derive(Debug, Clone, Copy, PartialEq, Eq, Structural)]
pub struct MetaShape {
    pub format: MetaFormat,
    pub main_object_file_id: i64,
}

/// The Sprite class fileID, the default `mainObjectFileID`.
pub const SPRITE_FILE_ID: i64 = 21300000;

impl MetaShape {
    /// The shape of every fresh mint: Modern186 + `mainObjectFileID: 21300000`.
    pub open spec fn spec_fresh() -> MetaShape {
        MetaShape { format: MetaFormat::Modern186, main_object_file_id: 21300000 }
    }

    /// The shape of every fresh mint: Modern186 + `mainObjectFileID: 21300000`.
    pub fn fresh() -> (r: MetaShape)
        ensures
            r == MetaShape::spec_fresh(),
    {
        MetaShape { format: MetaFormat::Modern186, main_object_file_id: SPRITE_FILE_ID }
    }
}

/// The format that `detect_format` reads off `text`.
pub open spec fn spec_detect_format(text: Seq<char>) -> MetaFormat {
    if contains_seq(text, "  userData: \n"@) {
        MetaFormat::Legacy189
    } else {
        MetaFormat::Modern186
    }
}

/// Detect the trailing-space style of an existing `.asset.meta` by sniffing
/// the `userData:` line.
pub fn detect_format(meta_text: &str) -> (r: MetaFormat)
    ensures
        r == spec_detect_format(meta_text@),
{
    let chars = chars_of(meta_text);
    let pat = chars_of("  userData: \n");
    if contains_exec(chars.as_slice(), pat.as_slice()) {
        MetaFormat::Legacy189
    } else {
        MetaFormat::Modern186
    }
}

// ---------------------------------------------------------------------------
// Decimal integers

pub open spec fn is_digit(c: char) -> bool {
    '0' <= c && c <= '9'
}

pub open spec fn all_digits(d: Seq<char>) -> bool {
    forall|i: int| 0 <= i < d.len() ==> is_digit(#[trigger] d[i])
}

/// The value of a run of decimal digits.
pub open spec fn digits_value(d: Seq<char>) -> int
    decreases d.len(),
{
    if d.len() == 0 {
        0
    } else {
        digits_value(d.drop_last()) * 10 + (d.last() as int - 48)
    }
}

/// `str::parse::<i64>`: an optional `+` or `-`, then one or more ASCII
/// digits, in range.
pub open spec fn parse_i64_spec(s: Seq<char>) -> Option<i64> {
    let neg = s.len() > 0 && s[0] == '-';
    let d = if s.len() > 0 && (s[0] == '-' || s[0] == '+') {
        s.drop_first()
    } else {
        s
    };
    let v = if neg {
        -digits_value(d)
    } else {
        digits_value(d)
    };
    if d.len() == 0 || !all_digits(d) || v < i64::MIN || v > i64::MAX {
        None
    } else {
        Some(v as i64)
    }
}

pub proof fn lemma_digits_value_nonneg(d: Seq<char>)
    requires
        all_digits(d),
    ensures
        digits_value(d) >= 0,
    decreases d.len(),
{
    if d.len() > 0 {
        assert(all_digits(d.drop_last())) by {
            assert forall|i: int| 0 <= i < d.drop_last().len() implies is_digit(
                #[trigger] d.drop_last()[i],
            ) by {
                assert(d.drop_last()[i] == d[i]);
            }
        }
        lemma_digits_value_nonneg(d.drop_last());
        assert(is_digit(d[d.len() - 1]));
    }
}

/// A prefix of a digit run has no larger value.
pub proof fn lemma_digits_value_prefix(d: Seq<char>, k: int)
    requires
        all_digits(d),
        0 <= k <= d.len(),
    ensures
        0 <= digits_value(d.take(k)) <= digits_value(d),
    decreases d.len(),
{
    assert(all_digits(d.take(k))) by {
        assert forall|i: int| 0 <= i < d.take(k).len() implies is_digit(#[trigger] d.take(k)[i]) by {
            assert(d.take(k)[i] == d[i]);
        }
    }
    lemma_digits_value_nonneg(d.take(k));
    if k < d.len() {
        let p = d.drop_last();
        assert(all_digits(p)) by {
            assert forall|i: int| 0 <= i < p.len() implies is_digit(#[trigger] p[i]) by {
                assert(p[i] == d[i]);
            }
        }
        assert(p.take(k) =~= d.take(k));
        lemma_digits_value_prefix(p, k);
        assert(is_digit(d[d.len() - 1]));
        lemma_digits_value_nonneg(p);
    } else {
        assert(d.take(k) =~= d);
    }
}

/// Parse `s[a..b]` as an `i64` (`str::parse::<i64>`).
pub fn parse_i64_range(s: &[char], a: usize, b: usize) -> (r: Option<i64>)
    requires
        a <= b <= s@.len(),
    ensures
        r == parse_i64_spec(s@.subrange(a as int, b as int)),
{
    let ghost t = s@.subrange(a as int, b as int);
    let mut i = a;
    let mut neg = false;
    if a < b && (s[a] == '-' || s[a] == '+') {
        neg = s[a] == '-';
        i = a + 1;
    }
    let ghost d = s@.subrange(i as int, b as int);
    proof {
        if a < b && (s@[a as int] == '-' || s@[a as int] == '+') {
            assert(t.drop_first() =~= d);
        } else {
            assert(t =~= d);
        }
    }
    if i == b {
        return None;
    }
    let start = i;
    let mut acc: u128 = 0;
    while i < b
        invariant
            a <= start <= i <= b <= s@.len(),
            d == s@.subrange(start as int, b as int),
            t == s@.subrange(a as int, b as int),
            d.len() > 0,
            neg == (t.len() > 0 && t[0] == '-'),
            d == (if t.len() > 0 && (t[0] == '-' || t[0] == '+') {
                t.drop_first()
            } else {
                t
            }),
            all_digits(s@.subrange(start as int, i as int)),
            acc == digits_value(s@.subrange(start as int, i as int)),
            acc <= 0x8000_0000_0000_0000u128,
        decreases b - i,
    {
        let c = s[i];
        if !('0' <= c && c <= '9') {
            proof {
                assert(d[i - start] == c);
                assert(!is_digit(d[i - start]));
            }
            return None;
        }
        let dv = (c as u32 - 48u32) as u128;
        acc = acc * 10 + dv;
        proof {
            let p = s@.subrange(start as int, i + 1);
            assert(p.drop_last() =~= s@.subrange(start as int, i as int));
            assert(all_digits(p)) by {
                assert forall|k: int| 0 <= k < p.len() implies is_digit(#[trigger] p[k]) by {
                    if k < p.len() - 1 {
                        assert(p[k] == s@.subrange(start as int, i as int)[k]);
                    }
                }
            }
        }
        if acc > 0x8000_0000_0000_0000u128 {
            proof {
                let p = s@.subrange(start as int, i + 1);
                assert(p =~= d.take(i + 1 - start));
                if all_digits(d) {
                    lemma_digits_value_prefix(d, i + 1 - start);
                }
            }
            return None;
        }
        i = i + 1;
    }
    proof {
        assert(s@.subrange(start as int, i as int) =~= d);
    }
    if neg {
        if acc <= 0x8000_0000_0000_0000u128 {
            Some((0i128 - acc as i128) as i64)
        } else {
            None
        }
    } else {
        if acc <= 0x7FFF_FFFF_FFFF_FFFFu128 {
            Some(acc as i64)
        } else {
            None
        }
    }
}

/// Decimal digits of `n`, most significant first, no leading zeros.
pub open spec fn dec_digits(n: nat) -> Seq<char>
    decreases n,
{
    if n < 10 {
        seq![(n + 48) as char]
    } else {
        dec_digits(n / 10).push(((n % 10) + 48) as char)
    }
}

/// `i64` formatted with `{}`.
pub open spec fn dec_i64(x: i64) -> Seq<char> {
    if x < 0 {
        seq!['-'] + dec_digits((-x) as nat)
    } else {
        dec_digits(x as nat)
    }
}

pub(crate) fn push_dec_digits(n: u64, out: &mut Vec<char>)
    ensures
        final(out)@ == old(out)@ + dec_digits(n as nat),
    decreases n,
{
    if n < 10 {
        out.push(((n as u8) + 48) as char);
        proof {
            assert(out@ =~= old(out)@ + dec_digits(n as nat));
        }
    } else {
        push_dec_digits(n / 10, out);
        out.push((((n % 10) as u8) + 48) as char);
        proof {
            assert(out@ =~= old(out)@ + dec_digits(n as nat));
        }
    }
}

/// Append `x` formatted with `{}`.
pub fn push_dec_i64(x: i64, out: &mut Vec<char>)
    ensures
        final(out)@ == old(out)@ + dec_i64(x),
{
    if x < 0 {
        out.push('-');
        let m: u64 = (0i128 - x as i128) as u64;
        push_dec_digits(m, out);
        proof {
            assert(out@ =~= old(out)@ + dec_i64(x));
        }
    } else {
        push_dec_digits(x as u64, out);
    }
}

// ---------------------------------------------------------------------------
// Detecting and rendering the shape

/// The `mainObjectFileID` that one line carries, if any.
pub open spec fn main_object_line() -> spec_fn(Seq<char>) -> Option<i64> {
    |l: Seq<char>|
        match strip_prefix(trim_start(l), "mainObjectFileID: "@) {
            Some(rest) => parse_i64_spec(trim(rest)),
            None => None,
        }
}

/// The shape that `detect_shape` reads off `text`: the format, and the
/// first parseable `mainObjectFileID:` (21300000 when there is none).
pub open spec fn spec_detect_shape(text: Seq<char>) -> MetaShape {
    MetaShape {
        format: spec_detect_format(text),
        main_object_file_id: match first_some(lines(text), main_object_line()) {
            Some(v) => v,
            None => 21300000,
        },
    }
}

/// Detect the full shape (format + `mainObjectFileID`) of an existing
/// `.asset.meta`.
pub fn detect_shape(meta_text: &str) -> (r: MetaShape)
    ensures
        r == spec_detect_shape(meta_text@),
{
    let chars = chars_of(meta_text);
    let ls = line_ranges(chars.as_slice());
    let prefix = chars_of("mainObjectFileID: ");
    let ghost f = main_object_line();
    let ghost text_lines = lines(meta_text@);
    proof {
        lemma_first_some_end(text_lines, f);
    }
    let mut id: i64 = SPRITE_FILE_ID;
    let mut i: usize = 0;
    while i < ls.len()
        invariant
            i <= ls@.len(),
            chars@ == meta_text@,
            prefix@ == "mainObjectFileID: "@,
            ranges_text(chars@, ls@) == text_lines,
            text_lines == lines(meta_text@),
            f == main_object_line(),
            id == 21300000,
            forall|k: int| 0 <= k < ls@.len() ==> (#[trigger] ls@[k]).0 <= ls@[k].1 <= chars@.len(),
            first_some(text_lines.skip(i as int), f) == first_some(text_lines, f),
        decreases ls@.len() - i,
    {
        let (a, e) = ls[i];
        let ghost l = text_lines[i as int];
        proof {
            lemma_first_some_skip(text_lines, f, i as int);
            assert(l == chars@.subrange(a as int, e as int));
        }
        let t = skip_ws_forward(chars.as_slice(), a, e);
        proof {
            assert(trim_start(l) =~= chars@.subrange(t as int, e as int));
        }
        if range_has_prefix(chars.as_slice(), t, e, prefix.as_slice()) {
            let (x, y) = trim_range(chars.as_slice(), t + prefix.len(), e);
            proof {
                assert(trim_start(l).skip(prefix@.len() as int) =~= chars@.subrange(
                    t + prefix@.len(),
                    e as int,
                ));
            }
            match parse_i64_range(chars.as_slice(), x, y) {
                Some(v) => {
                    proof {
                        assert(f(l) == Some(v));
                    }
                    id = v;
                    return MetaShape { format: detect_format(meta_text), main_object_file_id: id };
                },
                None => {
                    proof {
                        assert(f(l) == None::<i64>);
                    }
                },
            }
        } else {
            proof {
                assert(f(l) == None::<i64>);
            }
        }
        i = i + 1;
    }
    proof {
        assert(text_lines.skip(i as int) =~= Seq::<Seq<char>>::empty());
    }
    MetaShape { format: detect_format(meta_text), main_object_file_id: id }
}

/// The trailing text after each of the last three keys.
pub open spec fn trail_of(format: MetaFormat) -> Seq<char> {
    match format {
        MetaFormat::Modern186 => Seq::empty(),
        MetaFormat::Legacy189 => seq![' '],
    }
}

/// The sprite `.asset.meta` for `guid` in the exact `shape`.
pub open spec fn spec_asset_meta(guid: Seq<u8>, shape: MetaShape) -> Seq<char> {
    let t = trail_of(shape.format);
    "fileFormatVersion: 2\n"@ + "guid: "@ + hex_lower(guid) + "\n"@ + "NativeFormatImporter:\n"@
        + "  externalObjects: {}\n"@ + "  mainObjectFileID: "@ + dec_i64(shape.main_object_file_id)
        + "\n"@ + "  userData:"@ + t + "\n"@ + "  assetBundleName:"@ + t + "\n"@
        + "  assetBundleVariant:"@ + t + "\n"@
}

fn push_str(out: &mut Vec<char>, s: &str)
    ensures
        final(out)@ == old(out)@ + s@,
{
    let cs = chars_of(s);
    let mut i: usize = 0;
    while i < cs.len()
        invariant
            i <= cs@.len(),
            cs@ == s@,
            out@ == old(out)@ + cs@.take(i as int),
        decreases cs@.len() - i,
    {
        out.push(cs[i]);
        proof {
            assert(cs@.take(i + 1) =~= cs@.take(i as int).push(cs@[i as int]));
        }
        i = i + 1;
    }
    proof {
        assert(cs@.take(cs@.len() as int) =~= cs@);
    }
}

/// Render a sprite `.asset.meta` for `guid` in the exact `shape`: the entry
/// point of the preserve branch, which threads the detected shape through.
pub fn render_asset_meta_with_shape(guid: &[u8; 16], shape: MetaShape) -> (r: String)
    ensures
        r@ == spec_asset_meta(guid@, shape),
{
    let trail: &str = match shape.format {
        MetaFormat::Modern186 => "",
        MetaFormat::Legacy189 => " ",
    };
    proof {
        reveal_strlit("");
        reveal_strlit(" ");
        assert(trail@ == trail_of(shape.format));
    }
    let mut s: Vec<char> = Vec::with_capacity(192);
    push_str(&mut s, "fileFormatVersion: 2\n");
    push_str(&mut s, "guid: ");
    let hex = guid_hex(guid);
    push_str(&mut s, hex.as_str());
    push_str(&mut s, "\n");
    push_str(&mut s, "NativeFormatImporter:\n");
    push_str(&mut s, "  externalObjects: {}\n");
    push_str(&mut s, "  mainObjectFileID: ");
    push_dec_i64(shape.main_object_file_id, &mut s);
    push_str(&mut s, "\n");
    push_str(&mut s, "  userData:");
    push_str(&mut s, trail);
    push_str(&mut s, "\n");
    push_str(&mut s, "  assetBundleName:");
    push_str(&mut s, trail);
    push_str(&mut s, "\n");
    push_str(&mut s, "  assetBundleVariant:");
    push_str(&mut s, trail);
    push_str(&mut s, "\n");
    proof {
        assert(s@ =~= spec_asset_meta(guid@, shape));
    }
    string_of(s.as_slice())
}

/// Render a sprite `.asset.meta` in `format` with the default
/// `mainObjectFileID: 21300000`.
pub fn render_asset_meta_with_format(guid: &[u8; 16], format: MetaFormat) -> (r: String)
    ensures
        r@ == spec_asset_meta(guid@, MetaShape { format, main_object_file_id: 21300000 }),
{
    render_asset_meta_with_shape(guid, MetaShape { format, main_object_file_id: SPRITE_FILE_ID })
}

/// Render a sprite `.asset.meta` in the fresh-mint shape.
pub fn render_asset_meta(guid: &[u8; 16]) -> (r: String)
    ensures
        r@ == spec_asset_meta(guid@, MetaShape::spec_fresh()),
{
    render_asset_meta_with_shape(guid, MetaShape::fresh())
}

// ---------------------------------------------------------------------------
// `alphaIsTransparency:` rewrite

/// Number of trailing `'\r'` / `'\n'` characters of `s`.
pub open spec fn trail_crlf(s: Seq<char>) -> nat
    decreases s.len(),
{
    if s.len() > 0 && (s.last() == '\r' || s.last() == '\n') {
        1 + trail_crlf(s.drop_last())
    } else {
        0
    }
}

/// `s.trim_end_matches(['\r', '\n'])`.
pub open spec fn trim_end_crlf(s: Seq<char>) -> Seq<char> {
    s.take(s.len() - trail_crlf(s))
}

pub(crate) proof fn lemma_trail_crlf_unique(s: Seq<char>, n: int)
    requires
        0 <= n <= s.len(),
        forall|k: int| s.len() - n <= k < s.len() ==> (#[trigger] s[k] == '\r' || s[k] == '\n'),
        n < s.len() ==> !(s[s.len() - n - 1] == '\r' || s[s.len() - n - 1] == '\n'),
    ensures
        trail_crlf(s) == n,
    decreases s.len(),
{
    if n > 0 {
        let t = s.drop_last();
        assert(s.last() == '\r' || s.last() == '\n');
        assert forall|k: int| t.len() - (n - 1) <= k < t.len() implies (#[trigger] t[k] == '\r'
            || t[k] == '\n') by {
            assert(t[k] == s[k]);
        }
        if n - 1 < t.len() {
            assert(t[t.len() - (n - 1) - 1] == s[s.len() - n - 1]);
        }
        lemma_trail_crlf_unique(t, n - 1);
    }
}

fn trim_end_crlf_range(s: &[char], a: usize, b: usize) -> (r: usize)
    requires
        a <= b <= s@.len(),
    ensures
        a <= r <= b,
        s@.subrange(a as int, r as int) == trim_end_crlf(s@.subrange(a as int, b as int)),
{
    let mut j = b;
    while j > a && (s[j - 1] == '\r' || s[j - 1] == '\n')
        invariant
            a <= j <= b <= s@.len(),
            forall|k: int| j <= k < b ==> (#[trigger] s@[k] == '\r' || s@[k] == '\n'),
        decreases j - a,
    {
        j = j - 1;
    }
    proof {
        let sub = s@.subrange(a as int, b as int);
        assert forall|k: int| sub.len() - (b - j) <= k < sub.len() implies (#[trigger] sub[k] == '\r'
            || sub[k] == '\n') by {
            assert(sub[k] == s@[a + k]);
        }
        if b - j < sub.len() {
            assert(sub[sub.len() - (b - j) - 1] == s@[j - 1]);
        }
        lemma_trail_crlf_unique(sub, b - j);
        assert(s@.subrange(a as int, j as int) =~= trim_end_crlf(sub));
    }
    j
}

/// The `alphaIsTransparency:` value on one `split_inclusive('\n')` piece,
/// if the piece is that field's line.
pub open spec fn alpha_value(seg: Seq<char>) -> Option<Seq<char>> {
    match strip_prefix(trim_start(seg), "alphaIsTransparency:"@) {
        Some(rest) => Some(trim(trim_end_crlf(rest))),
        None => None,
    }
}

/// The rewritten field line: original indent, canonical key, wanted bit.
pub open spec fn alpha_line(seg: Seq<char>, want: bool) -> Seq<char> {
    seg.take(lead_ws(seg) as int) + "alphaIsTransparency: "@ + seq![
        if want {
            '1'
        } else {
            '0'
        },
        '\n',
    ]
}

/// The state of the rewrite after a run of pieces: stopped on a bad value,
/// or the text so far and whether the field was seen.
pub enum AlphaPass {
    Bad(Seq<char>),
    Pass(Seq<char>, bool),
}

/// The rewrite over the pieces `segs`, in order.
pub open spec fn alpha_pass(segs: Seq<Seq<char>>, want: bool) -> AlphaPass
    decreases segs.len(),
{
    if segs.len() == 0 {
        AlphaPass::Pass(Seq::empty(), false)
    } else {
        match alpha_pass(segs.drop_last(), want) {
            AlphaPass::Bad(v) => AlphaPass::Bad(v),
            AlphaPass::Pass(out, found) => {
                let seg = segs.last();
                match alpha_value(seg) {
                    None => AlphaPass::Pass(out + seg, found),
                    Some(v) => if v == seq!['0'] || v == seq!['1'] {
                        AlphaPass::Pass(out + alpha_line(seg, want), true)
                    } else {
                        AlphaPass::Bad(v)
                    },
                }
            },
        }
    }
}

proof fn lemma_alpha_bad_extends(segs: Seq<Seq<char>>, want: bool, k: int)
    requires
        0 <= k <= segs.len(),
        alpha_pass(segs.take(k), want) is Bad,
    ensures
        alpha_pass(segs.take(segs.len() as int), want) == alpha_pass(segs.take(k), want),
    decreases segs.len(),
{
    if k < segs.len() {
        let p = segs.drop_last();
        assert(p.take(k) =~= segs.take(k));
        lemma_alpha_bad_extends(p, want, k);
        assert(p.take(p.len() as int) =~= p);
        assert(segs.take(segs.len() as int) =~= segs);
        assert(segs.drop_last() =~= p);
    }
}

/// Rewrite a png `.meta` so that every `alphaIsTransparency:` line says
/// `want` (`true` → `1`, straight alpha; `false` → `0`, premultiplied),
/// keeping each line's indent and every other byte as it was. The first
/// field line whose value is not `0`/`1` is an error, and so is a text
/// without the field.
pub fn update_alpha_is_transparency(meta_text: &str, want: bool) -> (r: Result<String, MetaError>)
    ensures
        match alpha_pass(segments(meta_text@), want) {
            AlphaPass::Bad(v) => r matches Err(MetaError::InvalidAlphaIsTransparencyValue(s)) && s@
                == v,
            AlphaPass::Pass(out, found) => if found {
                r is Ok && r->Ok_0@ == out
            } else {
                r matches Err(MetaError::NoAlphaIsTransparencyField)
            },
        },
{
    let desired: char = if want {
        '1'
    } else {
        '0'
    };
    let chars = chars_of(meta_text);
    let segs = segment_ranges(chars.as_slice());
    let key = chars_of("alphaIsTransparency:");
    let canon = chars_of("alphaIsTransparency: ");
    let ghost all = segments(meta_text@);
    let mut out: Vec<char> = Vec::with_capacity(chars.len());
    let mut found = false;
    let mut i: usize = 0;
    proof {
        assert(all.take(0) =~= Seq::<Seq<char>>::empty());
    }
    while i < segs.len()
        invariant
            i <= segs@.len(),
            chars@ == meta_text@,
            key@ == "alphaIsTransparency:"@,
            canon@ == "alphaIsTransparency: "@,
            desired == (if want {
                '1'
            } else {
                '0'
            }),
            all == segments(meta_text@),
            ranges_text(chars@, segs@) == all,
            forall|k: int| 0 <= k < segs@.len() ==> (#[trigger] segs@[k]).0 <= segs@[k].1
                <= chars@.len(),
            alpha_pass(all.take(i as int), want) == AlphaPass::Pass(out@, found),
        decreases segs@.len() - i,
    {
        let (a, b) = segs[i];
        let ghost seg = all[i as int];
        proof {
            assert(seg == chars@.subrange(a as int, b as int));
            assert(all.take(i + 1).drop_last() =~= all.take(i as int));
            assert(all.take(i + 1).last() == seg);
        }
        let t = skip_ws_forward(chars.as_slice(), a, b);
        proof {
            assert(trim_start(seg) =~= chars@.subrange(t as int, b as int));
        }
        if range_has_prefix(chars.as_slice(), t, b, key.as_slice()) {
            let e = trim_end_crlf_range(chars.as_slice(), t + key.len(), b);
            let (x, y) = trim_range(chars.as_slice(), t + key.len(), e);
            proof {
                assert(trim_start(seg).skip(key@.len() as int) =~= chars@.subrange(
                    t + key@.len(),
                    b as int,
                ));
                assert(alpha_value(seg) == Some(chars@.subrange(x as int, y as int)));
            }
            if !(y > x && y - x == 1 && (chars[x] == '0' || chars[x] == '1')) {
                let v = sub_chars(chars.as_slice(), x, y);
                proof {
                    if v@ =~= seq!['0'] || v@ =~= seq!['1'] {
                        assert(v@.len() == 1);
                        assert(v@[0] == chars@[x as int]);
                        assert(false);
                    }
                    assert(v@ != seq!['0'] && v@ != seq!['1']);
                    assert(alpha_value(seg) == Some(v@));
                    assert(alpha_pass(all.take(i + 1).drop_last(), want) == AlphaPass::Pass(out@, found));
                    assert(alpha_pass(all.take(i + 1), want) == AlphaPass::Bad(v@));
                    lemma_alpha_bad_extends(all, want, i + 1);
                    assert(all.take(all.len() as int) =~= all);
                }
                return Err(MetaError::InvalidAlphaIsTransparencyValue(string_of(v.as_slice())));
            }
            let ghost before = out@;
            let mut k = a;
            while k < t
                invariant
                    a <= k <= t <= b <= chars@.len(),
                    out@ == before + chars@.subrange(a as int, k as int),
                decreases t - k,
            {
                out.push(chars[k]);
                proof {
                    assert(out@ =~= before + chars@.subrange(a as int, k + 1));
                }
                k = k + 1;
            }
            let mut m: usize = 0;
            while m < canon.len()
                invariant
                    m <= canon@.len(),
                    a <= t <= chars@.len(),
                    out@ == before + chars@.subrange(a as int, t as int) + canon@.take(m as int),
                decreases canon@.len() - m,
            {
                out.push(canon[m]);
                proof {
                    assert(canon@.take(m + 1) =~= canon@.take(m as int).push(canon@[m as int]));
                }
                m = m + 1;
            }
            out.push(desired);
            out.push('\n');
            found = true;
            proof {
                assert(chars@.subrange(x as int, y as int) =~= seq![chars@[x as int]]);
                assert(lead_ws(seg) == t - a);
                assert(seg.take(lead_ws(seg) as int) =~= chars@.subrange(a as int, t as int));
                assert(canon@.take(canon@.len() as int) =~= canon@);
                assert(out@ =~= before + alpha_line(seg, want));
            }
        } else {
            let ghost before = out@;
            let mut k = a;
            while k < b
                invariant
                    a <= k <= b <= chars@.len(),
                    out@ == before + chars@.subrange(a as int, k as int),
                decreases b - k,
            {
                out.push(chars[k]);
                proof {
                    assert(out@ =~= before + chars@.subrange(a as int, k + 1));
                }
                k = k + 1;
            }
            proof {
                assert(alpha_value(seg) is None);
            }
        }
        i = i + 1;
    }
    proof {
        assert(all.take(i as int) =~= all);
    }
    if !found {
        return Err(MetaError::NoAlphaIsTransparencyField);
    }
    Ok(string_of(out.as_slice()))
}

// ---------------------------------------------------------------------------
// GUID minting and resolution

/// Little-endian bytes of a `u64`.
pub open spec fn le64(x: u64) -> Seq<u8> {
    Seq::new(8, |i: int| (x >> (8 * i) as u64) as u8)
}

/// Compose a 128-bit GUID from two entropy words, little-endian: `lo` fills
/// bytes 0..8, `hi` bytes 8..16.
pub fn mint_guid_from(lo: u64, hi: u64) -> (g: [u8; 16])
    ensures
        g@ == le64(lo) + le64(hi),
{
    let mut out: [u8; 16] = [0u8; 16];
    let mut i: usize = 0;
    while i < 8
        invariant
            i <= 8,
            out@.len() == 16,
            forall|k: int| 0 <= k < i ==> out@[k] == #[trigger] le64(lo)[k],
            forall|k: int| 0 <= k < i ==> out@[8 + k] == #[trigger] le64(hi)[k],
        decreases 8 - i,
    {
        let shift: u64 = 8 * i as u64;
        out[i] = (lo >> shift) as u8;
        out[8 + i] = (hi >> shift) as u8;
        i = i + 1;
    }
    proof {
        assert(out@ =~= le64(lo) + le64(hi));
    }
    out
}

/// One word from std's per-process randomly keyed hasher: a fresh
/// `RandomState` (keyed from the OS RNG) hashing `seed`. Nothing is known of
/// the word: it is random.
#[verifier::external_body]
fn random_word(seed: u64) -> u64 {
    BuildHasher::hash_one(&std::collections::hash_map::RandomState::new(), seed)
}

/// Mint a random 128-bit GUID from two freshly keyed hashers. Sufficient for
/// Unity GUID uniqueness; not crypto-grade.
pub fn mint_guid() -> (g: [u8; 16])
    ensures
        exists|lo: u64, hi: u64| g@ == le64(lo) + le64(hi),
{
    let lo = random_word(0);
    let hi = random_word(1);
    mint_guid_from(lo, hi)
}

/// What `resolve_sprite_meta_text` answers: the preserve branch for an
/// existing `.asset.meta` text, the mint branch for none.
pub open spec fn resolve_ok(existing: Option<Seq<char>>, r: Result<([u8; 16], MetaShape), MetaError>) -> bool {
    match existing {
        Some(t) => match parse_guid_result(t) {
            Ok(g) => r is Ok && r->Ok_0.0@ == g && r->Ok_0.1 == spec_detect_shape(t),
            Err(None) => r matches Err(MetaError::NoGuidField),
            Err(Some(v)) => r matches Err(MetaError::InvalidGuid(s)) && s@ == v,
        },
        None => r is Ok && r->Ok_0.1 == MetaShape::spec_fresh() && exists|lo: u64, hi: u64|
            r->Ok_0.0@ == le64(lo) + le64(hi),
    }
}

/// Resolve `(guid, shape)` for a sprite from the text of its `.asset.meta`
/// (`None` when the file does not exist): preserve both when it exists,
/// else mint a fresh GUID in the fresh shape.
pub fn resolve_sprite_meta_text(existing: Option<&str>) -> (r: Result<([u8; 16], MetaShape), MetaError>)
    ensures
        resolve_ok(
            match existing {
                Some(t) => Some(t@),
                None => None,
            },
            r,
        ),
{
    match existing {
        Some(text) => {
            let g = parse_guid(text)?;
            Ok((g, detect_shape(text)))
        },
        None => Ok((mint_guid(), MetaShape::fresh())),
    }
}

/// The GUID of a sprite from the text of its `.asset.meta` (`None` when the
/// file does not exist): preserved when it exists, else minted.
pub fn resolve_sprite_guid_text(existing: Option<&str>) -> (r: Result<[u8; 16], MetaError>)
    ensures
        match existing {
            Some(t) => match parse_guid_result(t@) {
                Ok(g) => r is Ok && r->Ok_0@ == g,
                Err(None) => r matches Err(MetaError::NoGuidField),
                Err(Some(v)) => r matches Err(MetaError::InvalidGuid(s)) && s@ == v,
            },
            None => r is Ok && exists|lo: u64, hi: u64| r->Ok_0@ == le64(lo) + le64(hi),
        },
{
    match existing {
        Some(text) => parse_guid(text),
        None => Ok(mint_guid()),
    }
}

/// The `_prefix:` value that one `.tps.meta` line carries, if any.
pub open spec fn prefix_line() -> spec_fn(Seq<char>) -> Option<Seq<char>> {
    |l: Seq<char>|
        match strip_prefix(trim_start(l), "_prefix:"@) {
            Some(rest) => Some(trim(rest)),
            None => None,
        }
}

/// The sprite filename prefix that a `.tps.meta` declares (the
/// TPSImporter's `_prefix:`): the first `_prefix:` line decides; an empty
/// value, like a missing field, is `None`.
pub fn tps_prefix_from_meta(meta_text: &str) -> (r: Option<String>)
    ensures
        match first_some(lines(meta_text@), prefix_line()) {
            Some(v) => if v.len() == 0 {
                r is None
            } else {
                r is Some && r->0@ == v
            },
            None => r is None,
        },
{
    let chars = chars_of(meta_text);
    let ls = line_ranges(chars.as_slice());
    let key = chars_of("_prefix:");
    let ghost f = prefix_line();
    let ghost text_lines = lines(meta_text@);
    proof {
        lemma_first_some_end(text_lines, f);
    }
    let mut i: usize = 0;
    while i < ls.len()
        invariant
            i <= ls@.len(),
            chars@ == meta_text@,
            key@ == "_prefix:"@,
            ranges_text(chars@, ls@) == text_lines,
            text_lines == lines(meta_text@),
            f == prefix_line(),
            forall|k: int| 0 <= k < ls@.len() ==> (#[trigger] ls@[k]).0 <= ls@[k].1 <= chars@.len(),
            first_some(text_lines.skip(i as int), f) == first_some(text_lines, f),
        decreases ls@.len() - i,
    {
        let (a, e) = ls[i];
        let ghost l = text_lines[i as int];
        proof {
            lemma_first_some_skip(text_lines, f, i as int);
            assert(l == chars@.subrange(a as int, e as int));
        }
        let t = skip_ws_forward(chars.as_slice(), a, e);
        proof {
            assert(trim_start(l) =~= chars@.subrange(t as int, e as int));
        }
        if range_has_prefix(chars.as_slice(), t, e, key.as_slice()) {
            let (x, y) = trim_range(chars.as_slice(), t + key.len(), e);
            proof {
                assert(trim_start(l).skip(key@.len() as int) =~= chars@.subrange(
                    t + key@.len(),
                    e as int,
                ));
                assert(f(l) == Some(chars@.subrange(x as int, y as int)));
            }
            if x == y {
                return None;
            }
            let v = sub_chars(chars.as_slice(), x, y);
            return Some(string_of(v.as_slice()));
        } else {
            proof {
                assert(f(l) == None::<Seq<char>>);
            }
        }
        i = i + 1;
    }
    proof {
        assert(text_lines.skip(i as int) =~= Seq::<Seq<char>>::empty());
    }
    None
}

} // verus!
