//! What the `.meta` helpers promise across calls: a rendered sprite
//! `.asset.meta` reads back to the GUID and shape it was rendered from, so
//! the preserve branch re-renders an existing file byte for byte.

use vstd::prelude::*;
use vstd::utf8::{encode_utf8, has_width_1_encoding, leading_byte_width_1};
use crate::meta::{
    all_digits, dec_digits, dec_i64, digits_value, guid_field, guid_hex_outcome, guid_line,
    hex_byte, hex_digit_lower, hex_lower, hex_pairs_from, hex_val, is_digit, main_object_line,
    parse_guid_result, parse_i64_spec, spec_asset_meta, spec_detect_format, spec_detect_shape, trail_of,
    MetaFormat, MetaShape, alpha_line, alpha_pass, alpha_value, lemma_trail_crlf_unique, trim_end_crlf,
    AlphaPass,
};
use crate::text::{
    concat_pieces, contains_seq, first_some, has_prefix, is_piece, is_ws, join_lines, lead_ws, lemma_first_some_skip,
    lemma_join_append, lemma_join_no_space_before_nl, lemma_join_push, lemma_lead_ws, lemma_lead_ws_unique,
    lemma_lines_of_join, lemma_segments_of_concat, lemma_segments_well_split, lemma_trail_ws_unique, lines,
    occurs_at, plain_line, segments, trim, trim_start, well_split,
};

verus! {

// ---------------------------------------------------------------------------
// Hex digits

/// ASCII characters encode to one byte each, of the same value.
pub proof fn lemma_encode_ascii(s: Seq<char>)
    requires
        forall|i: int| 0 <= i < s.len() ==> (#[trigger] s[i] as u32) < 0x80,
    ensures
        encode_utf8(s).len() == s.len(),
        forall|i: int| 0 <= i < s.len() ==> #[trigger] encode_utf8(s)[i] as u32 == s[i] as u32,
    decreases s.len(),
{
    if s.len() > 0 {
        let x = s[0] as u32;
        assert(x < 0x80);
        assert(has_width_1_encoding(x));
        let e0 = leading_byte_width_1(x);
        assert(e0 as u32 == x) by (bit_vector)
            requires
                e0 == leading_byte_width_1(x),
                x < 0x80,
        ;
        let d = s.drop_first();
        assert forall|i: int| 0 <= i < d.len() implies (#[trigger] d[i] as u32) < 0x80 by {
            assert(d[i] == s[i + 1]);
        }
        lemma_encode_ascii(d);
        let b = encode_utf8(s);
        assert(b == seq![e0] + encode_utf8(d));
        assert forall|i: int| 0 <= i < s.len() implies #[trigger] b[i] as u32 == s[i] as u32 by {
            if i > 0 {
                assert(b[i] == encode_utf8(d)[i - 1]);
                assert(d[i - 1] == s[i]);
            }
        }
    }
}

/// Where the two digits of each byte sit in `hex_lower`.
proof fn lemma_hex_lower_index(g: Seq<u8>)
    ensures
        hex_lower(g).len() == 2 * g.len(),
        forall|i: int|
            0 <= i < g.len() ==> hex_lower(g)[2 * i] == hex_digit_lower((#[trigger] g[i] / 16) as int) && hex_lower(
                g,
            )[2 * i + 1] == hex_digit_lower((g[i] % 16) as int),
    decreases g.len(),
{
    if g.len() > 0 {
        let p = g.drop_last();
        lemma_hex_lower_index(p);
        assert forall|i: int| 0 <= i < g.len() implies hex_lower(g)[2 * i] == hex_digit_lower(
            (#[trigger] g[i] / 16) as int,
        ) && hex_lower(g)[2 * i + 1] == hex_digit_lower((g[i] % 16) as int) by {
            if i < p.len() {
                assert(p[i] == g[i]);
            }
        }
    }
}

/// A lower-case hex digit is ASCII, is not `+`, and reads back as its
/// nibble.
proof fn lemma_hex_digit_byte(n: int)
    requires
        0 <= n < 16,
    ensures
        (hex_digit_lower(n) as u32) < 0x80,
        (hex_digit_lower(n) as u32) != 0x2B,
        hex_val((hex_digit_lower(n) as u32) as u8) == Some(n as u8),
        !is_ws(hex_digit_lower(n)),
{
}

/// The bytes of `hex_lower(g)` decode pair by pair back to `g`.
proof fn lemma_hex_pairs_decode(g: Seq<u8>, b: Seq<u8>, i: int)
    requires
        g.len() == 16,
        b.len() == 32,
        forall|k: int| 0 <= k < 32 ==> #[trigger] b[k] as u32 == hex_lower(g)[k] as u32,
        0 <= i <= 16,
    ensures
        hex_pairs_from(b, i) == Some(g.skip(i)),
    decreases 16 - i,
{
    lemma_hex_lower_index(g);
    if i < 16 {
        lemma_hex_pairs_decode(g, b, i + 1);
        let hi = (g[i] / 16) as int;
        let lo = (g[i] % 16) as int;
        lemma_hex_digit_byte(hi);
        lemma_hex_digit_byte(lo);
        assert(b[2 * i] as u32 == hex_digit_lower(hi) as u32);
        assert(b[2 * i + 1] as u32 == hex_digit_lower(lo) as u32);
        assert(b[2 * i] == (hex_digit_lower(hi) as u32) as u8);
        assert(b[2 * i + 1] == (hex_digit_lower(lo) as u32) as u8);
        assert(hex_byte(b[2 * i], b[2 * i + 1]) == Some(g[i]));
        assert(seq![g[i]] + g.skip(i + 1) =~= g.skip(i));
    } else {
        assert(g.skip(16) =~= Seq::<u8>::empty());
    }
}

/// The hex rendering of a 16-byte GUID parses back to it.
pub proof fn lemma_guid_hex_round_trip(g: Seq<u8>)
    requires
        g.len() == 16,
    ensures
        guid_hex_outcome(hex_lower(g)) == Some(g),
{
    let h = hex_lower(g);
    lemma_hex_lower_index(g);
    assert forall|i: int| 0 <= i < h.len() implies (#[trigger] h[i] as u32) < 0x80 by {
        let m = i / 2;
        lemma_hex_digit_byte((g[m] / 16) as int);
        lemma_hex_digit_byte((g[m] % 16) as int);
        if i % 2 == 0 {
            assert(i == 2 * m);
        } else {
            assert(i == 2 * m + 1);
        }
    }
    lemma_encode_ascii(h);
    let b = encode_utf8(h);
    lemma_hex_pairs_decode(g, b, 0);
    assert(g.skip(0) =~= g);
}

// ---------------------------------------------------------------------------
// Lines of a rendered `.asset.meta`

/// The eight lines of the sprite `.asset.meta` for `guid` in `shape`.
pub open spec fn meta_lines(guid: Seq<u8>, shape: MetaShape) -> Seq<Seq<char>> {
    let t = trail_of(shape.format);
    seq![
        "fileFormatVersion: 2"@,
        "guid: "@ + hex_lower(guid),
        "NativeFormatImporter:"@,
        "  externalObjects: {}"@,
        "  mainObjectFileID: "@ + dec_i64(shape.main_object_file_id),
        "  userData:"@ + t,
        "  assetBundleName:"@ + t,
        "  assetBundleVariant:"@ + t,
    ]
}

/// Decimal digits: at least one, all of them digits.
proof fn lemma_dec_digits(n: nat)
    ensures
        dec_digits(n).len() >= 1,
        all_digits(dec_digits(n)),
        digits_value(dec_digits(n)) == n,
    decreases n,
{
    if n >= 10 {
        lemma_dec_digits(n / 10);
        let p = dec_digits(n / 10);
        let d = dec_digits(n);
        assert(d.drop_last() =~= p);
        assert forall|i: int| 0 <= i < d.len() implies is_digit(#[trigger] d[i]) by {
            if i < p.len() {
                assert(d[i] == p[i]);
            }
        }
        assert(d.last() as int == (n % 10) + 48);
        assert(digits_value(d) == digits_value(d.drop_last()) * 10 + (d.last() as int - 48));
        assert(digits_value(d) == digits_value(p) * 10 + (n % 10));
        assert((n / 10) * 10 + n % 10 == n);
    } else {
        let d = dec_digits(n);
        assert(d.drop_last() =~= Seq::<char>::empty());
        assert(digits_value(Seq::<char>::empty()) == 0);
        assert(d.last() as int == n + 48);
        assert(digits_value(d) == digits_value(d.drop_last()) * 10 + (d.last() as int - 48));
    }
}

/// `i64` text parses back to the number.
pub proof fn lemma_dec_i64_round_trip(x: i64)
    ensures
        parse_i64_spec(dec_i64(x)) == Some(x),
        dec_i64(x).len() >= 1,
        is_digit(dec_i64(x).last()),
        forall|i: int| 0 <= i < dec_i64(x).len() ==> (#[trigger] dec_i64(x)[i] == '-' || is_digit(dec_i64(x)[i])),
{
    if x < 0 {
        let n = (-x) as nat;
        lemma_dec_digits(n);
        let s = dec_i64(x);
        assert(s.drop_first() =~= dec_digits(n));
        assert forall|i: int| 0 <= i < s.len() implies (#[trigger] s[i] == '-' || is_digit(s[i])) by {
            if i > 0 {
                assert(s[i] == dec_digits(n)[i - 1]);
            }
        }
        assert(s.last() == dec_digits(n).last());
    } else {
        lemma_dec_digits(x as nat);
        let s = dec_i64(x);
        assert(is_digit(s[0]));
    }
}

/// Each line of a rendered `.asset.meta` is plain, non-empty, and ends in
/// a space only at the trailing-space keys of the legacy shape.
proof fn lemma_meta_lines_plain(guid: Seq<u8>, shape: MetaShape)
    requires
        guid.len() == 16,
    ensures
        forall|k: int| 0 <= k < 8 ==> #[trigger] plain_line(meta_lines(guid, shape)[k]),
        forall|k: int| 0 <= k < 8 ==> (#[trigger] meta_lines(guid, shape)[k]).len() > 0,
        shape.format == MetaFormat::Modern186 ==> forall|k: int|
            0 <= k < 8 ==> (#[trigger] meta_lines(guid, shape)[k]).last() != ' ',
{
    reveal_strlit("fileFormatVersion: 2");
    reveal_strlit("guid: ");
    reveal_strlit("NativeFormatImporter:");
    reveal_strlit("  externalObjects: {}");
    reveal_strlit("  mainObjectFileID: ");
    reveal_strlit("  userData:");
    reveal_strlit("  assetBundleName:");
    reveal_strlit("  assetBundleVariant:");
    let ls = meta_lines(guid, shape);
    lemma_hex_lower_index(guid);
    lemma_dec_i64_round_trip(shape.main_object_file_id);
    let h = hex_lower(guid);
    assert forall|i: int| 0 <= i < h.len() implies h[i] != '\n' && h[i] != '\r' && h[i] != ' ' by {
        let m = i / 2;
        lemma_hex_digit_byte((guid[m] / 16) as int);
        lemma_hex_digit_byte((guid[m] % 16) as int);
        if i % 2 == 0 {
            assert(i == 2 * m);
        } else {
            assert(i == 2 * m + 1);
        }
    }
    assert forall|k: int| 0 <= k < 8 implies #[trigger] plain_line(ls[k]) && ls[k].len() > 0 && (shape.format
        == MetaFormat::Modern186 ==> ls[k].last() != ' ') by {
        let l = ls[k];
        if k == 1 {
            assert forall|i: int| 0 <= i < l.len() implies l[i] != '\n' by {
                if i >= 6 {
                    assert(l[i] == h[i - 6]);
                }
            }
            assert(l.last() == h[h.len() - 1]);
        } else if k == 4 {
            let d = dec_i64(shape.main_object_file_id);
            assert forall|i: int| 0 <= i < l.len() implies l[i] != '\n' by {
                if i >= 20 {
                    assert(l[i] == d[i - 20]);
                }
            }
            assert(l.last() == d.last());
        } else if k >= 5 {
            let t = trail_of(shape.format);
            assert(t.len() <= 1);
        }
    }
}

/// The text of a rendered `.asset.meta` is its eight lines joined.
proof fn lemma_meta_text(guid: Seq<u8>, shape: MetaShape)
    ensures
        spec_asset_meta(guid, shape) == join_lines(meta_lines(guid, shape)),
{
    reveal_strlit("\n");
    reveal_strlit("fileFormatVersion: 2\n");
    reveal_strlit("fileFormatVersion: 2");
    reveal_strlit("NativeFormatImporter:\n");
    reveal_strlit("NativeFormatImporter:");
    reveal_strlit("  externalObjects: {}\n");
    reveal_strlit("  externalObjects: {}");
    let ls = meta_lines(guid, shape);
    let t = trail_of(shape.format);
    let nl = "\n"@;
    assert(nl =~= seq!['\n']);
    let a1 = "fileFormatVersion: 2\n"@;
    assert(join_lines(Seq::<Seq<char>>::empty()) =~= Seq::<char>::empty());
    lemma_join_push(Seq::<Seq<char>>::empty(), ls[0]);
    assert(Seq::<Seq<char>>::empty().push(ls[0]) =~= ls.take(1));
    assert(a1 =~= join_lines(ls.take(1)));
    let a2 = a1 + "guid: "@ + hex_lower(guid) + nl;
    lemma_join_push(ls.take(1), ls[1]);
    assert(ls.take(1).push(ls[1]) =~= ls.take(2));
    assert(a2 =~= join_lines(ls.take(2)));
    let a3 = a2 + "NativeFormatImporter:\n"@;
    lemma_join_push(ls.take(2), ls[2]);
    assert(ls.take(2).push(ls[2]) =~= ls.take(3));
    assert(a3 =~= join_lines(ls.take(3)));
    let a4 = a3 + "  externalObjects: {}\n"@;
    lemma_join_push(ls.take(3), ls[3]);
    assert(ls.take(3).push(ls[3]) =~= ls.take(4));
    assert(a4 =~= join_lines(ls.take(4)));
    let a5 = a4 + "  mainObjectFileID: "@ + dec_i64(shape.main_object_file_id) + nl;
    lemma_join_push(ls.take(4), ls[4]);
    assert(ls.take(4).push(ls[4]) =~= ls.take(5));
    assert(a5 =~= join_lines(ls.take(5)));
    let a6 = a5 + "  userData:"@ + t + nl;
    lemma_join_push(ls.take(5), ls[5]);
    assert(ls.take(5).push(ls[5]) =~= ls.take(6));
    assert(a6 =~= join_lines(ls.take(6)));
    let a7 = a6 + "  assetBundleName:"@ + t + nl;
    lemma_join_push(ls.take(6), ls[6]);
    assert(ls.take(6).push(ls[6]) =~= ls.take(7));
    assert(a7 =~= join_lines(ls.take(7)));
    let a8 = a7 + "  assetBundleVariant:"@ + t + nl;
    lemma_join_push(ls.take(7), ls[7]);
    assert(ls.take(7).push(ls[7]) =~= ls.take(8));
    assert(a8 =~= join_lines(ls.take(8)));
    assert(ls.take(8) =~= ls);
    assert(spec_asset_meta(guid, shape) == a8);
}

/// A rendered `.asset.meta` splits into exactly its eight lines.
pub proof fn lemma_meta_lines(guid: Seq<u8>, shape: MetaShape)
    requires
        guid.len() == 16,
    ensures
        lines(spec_asset_meta(guid, shape)) == meta_lines(guid, shape),
{
    lemma_meta_lines_plain(guid, shape);
    lemma_meta_text(guid, shape);
    lemma_lines_of_join(meta_lines(guid, shape));
}

/// The hex text of a GUID has no surrounding whitespace.
proof fn lemma_hex_trimmed(guid: Seq<u8>)
    requires
        guid.len() == 16,
    ensures
        trim(hex_lower(guid)) == hex_lower(guid),
{
    let h = hex_lower(guid);
    lemma_hex_lower_index(guid);
    lemma_hex_digit_byte((guid[0] / 16) as int);
    lemma_hex_digit_byte((guid[15] % 16) as int);
    assert(h[0] == hex_digit_lower((guid[0] / 16) as int));
    assert(h[31] == hex_digit_lower((guid[15] % 16) as int));
    lemma_lead_ws_unique(h, 0);
    assert(h.skip(0) =~= h);
    lemma_trail_ws_unique(h, 0);
    assert(h.take(h.len() as int) =~= h);
}

/// Reading the GUID of a rendered sprite `.asset.meta` gives the GUID it
/// was rendered with, in either shape; the read never fails.
pub proof fn lemma_parse_guid_of_render(guid: Seq<u8>, shape: MetaShape)
    requires
        guid.len() == 16,
    ensures
        parse_guid_result(spec_asset_meta(guid, shape)) == Ok::<Seq<u8>, Option<Seq<char>>>(guid),
{
    reveal_strlit("fileFormatVersion: 2");
    reveal_strlit("guid: ");
    lemma_meta_lines(guid, shape);
    let text = spec_asset_meta(guid, shape);
    let ls = meta_lines(guid, shape);
    let f = guid_line();
    let h = hex_lower(guid);
    let key = "guid: "@;
    assert(key.len() == 6);
    assert(!has_prefix(ls[0], key)) by {
        if has_prefix(ls[0], key) {
            assert(ls[0].subrange(0, 6)[0] == ls[0][0]);
        }
    }
    assert(f(ls[0]) == None::<Seq<char>>);
    assert(ls[1].subrange(0, 6) =~= key);
    assert(ls[1].skip(6) =~= h);
    lemma_hex_trimmed(guid);
    assert(f(ls[1]) == Some(h));
    assert(ls.drop_first()[0] == ls[1]);
    assert(first_some(ls, f) == first_some(ls.drop_first(), f));
    assert(first_some(ls.drop_first(), f) == Some(h));
    assert(guid_field(text) == Some(h));
    lemma_guid_hex_round_trip(guid);
}

/// The format sniffed from a rendered `.asset.meta` is the one it was
/// rendered in.
proof fn lemma_detect_format_of_render(guid: Seq<u8>, shape: MetaShape)
    requires
        guid.len() == 16,
    ensures
        spec_detect_format(spec_asset_meta(guid, shape)) == shape.format,
{
    reveal_strlit("  userData: \n");
    reveal_strlit("  userData:");
    lemma_meta_text(guid, shape);
    lemma_meta_lines_plain(guid, shape);
    let ls = meta_lines(guid, shape);
    let text = spec_asset_meta(guid, shape);
    let pat = "  userData: \n"@;
    assert(pat.len() == 13);
    match shape.format {
        MetaFormat::Legacy189 => {
            lemma_join_append(ls.take(5), ls.skip(5));
            assert(ls.take(5) + ls.skip(5) =~= ls);
            let p: int = join_lines(ls.take(5)).len() as int;
            let rest = ls.skip(5);
            assert(rest[0] == ls[5]);
            assert(join_lines(rest) == rest[0].push('\n') + join_lines(rest.drop_first()));
            assert(ls[5].push('\n') =~= pat);
            assert(text.subrange(p, p + 13) =~= pat);
            assert(occurs_at(text, pat, p));
        },
        MetaFormat::Modern186 => {
            lemma_join_no_space_before_nl(ls);
            if contains_seq(text, pat) {
                let i = choose|i: int| occurs_at(text, pat, i);
                assert(text.subrange(i, i + 13)[12] == pat[12]);
                assert(text.subrange(i, i + 13)[11] == pat[11]);
                assert(text[i + 12] == '\n');
                assert(text[i + 11] == ' ');
            }
        },
    }
}

/// `trim_start` of a line that opens with `n` spaces and then a
/// non-space.
proof fn lemma_trim_start_spaces(l: Seq<char>, n: int)
    requires
        0 <= n < l.len(),
        forall|k: int| 0 <= k < n ==> l[k] == ' ',
        !is_ws(l[n]),
    ensures
        trim_start(l) == l.skip(n),
{
    lemma_lead_ws_unique(l, n);
}

/// The `mainObjectFileID` sniffed from a rendered `.asset.meta` is the one
/// it was rendered with.
proof fn lemma_main_object_of_render(guid: Seq<u8>, shape: MetaShape)
    requires
        guid.len() == 16,
    ensures
        first_some(lines(spec_asset_meta(guid, shape)), main_object_line()) == Some(shape.main_object_file_id),
{
    reveal_strlit("fileFormatVersion: 2");
    reveal_strlit("guid: ");
    reveal_strlit("NativeFormatImporter:");
    reveal_strlit("  externalObjects: {}");
    reveal_strlit("  mainObjectFileID: ");
    reveal_strlit("mainObjectFileID: ");
    lemma_meta_lines(guid, shape);
    let ls = meta_lines(guid, shape);
    let f = main_object_line();
    let key = "mainObjectFileID: "@;
    assert(key.len() == 18);
    lemma_trim_start_spaces(ls[0], 0);
    lemma_trim_start_spaces(ls[1], 0);
    lemma_trim_start_spaces(ls[2], 0);
    lemma_trim_start_spaces(ls[3], 2);
    lemma_trim_start_spaces(ls[4], 2);
    assert forall|k: int| 0 <= k < 4 implies #[trigger] f(ls[k]) == None::<i64> by {
        let ts = trim_start(ls[k]);
        if has_prefix(ts, key) {
            assert(ts.subrange(0, 18)[0] == ts[0]);
            if k < 3 {
                assert(ts =~= ls[k].skip(0));
            } else {
                assert(ts =~= ls[k].skip(2));
            }
        }
    }
    let d = dec_i64(shape.main_object_file_id);
    lemma_dec_i64_round_trip(shape.main_object_file_id);
    let ts4 = trim_start(ls[4]);
    assert(ts4 =~= key + d);
    assert(ts4.subrange(0, 18) =~= key);
    assert(ts4.skip(18) =~= d);
    assert(!is_ws(d[0]));
    assert(!is_ws(d[d.len() - 1]));
    lemma_lead_ws_unique(d, 0);
    lemma_trail_ws_unique(d, 0);
    assert(d.skip(0) =~= d);
    assert(d.take(d.len() as int) =~= d);
    assert(trim(d) == d);
    assert(f(ls[4]) == Some(shape.main_object_file_id));
    lemma_first_some_skip(ls, f, 0);
    lemma_first_some_skip(ls, f, 1);
    lemma_first_some_skip(ls, f, 2);
    lemma_first_some_skip(ls, f, 3);
    lemma_first_some_skip(ls, f, 4);
    assert(ls.skip(0) =~= ls);
}

/// Sniffing a rendered sprite `.asset.meta` gives back the shape it was
/// rendered in.
pub proof fn lemma_detect_shape_of_render(guid: Seq<u8>, shape: MetaShape)
    requires
        guid.len() == 16,
    ensures
        spec_detect_shape(spec_asset_meta(guid, shape)) == shape,
{
    lemma_detect_format_of_render(guid, shape);
    lemma_main_object_of_render(guid, shape);
}

/// The preserve branch is byte-idempotent: reading the GUID and shape of a
/// rendered sprite `.asset.meta` and rendering them again gives the same
/// text, so re-running the pipeline leaves the file untouched.
pub proof fn lemma_preserve_rerenders_identically(guid: Seq<u8>, shape: MetaShape)
    requires
        guid.len() == 16,
    ensures
        ({
            let text = spec_asset_meta(guid, shape);
            &&& parse_guid_result(text) == Ok::<Seq<u8>, Option<Seq<char>>>(guid)
            &&& spec_asset_meta(parse_guid_result(text)->Ok_0, spec_detect_shape(text)) == text
        }),
{
    lemma_parse_guid_of_render(guid, shape);
    lemma_detect_shape_of_render(guid, shape);
}


// ---------------------------------------------------------------------------
// `alphaIsTransparency:` rewrite run twice

/// What the rewrite makes of one piece: a field line is rewritten, any
/// other piece is kept.
pub open spec fn alpha_piece(seg: Seq<char>, want: bool) -> Seq<char> {
    if alpha_value(seg) is Some { alpha_line(seg, want) } else { seg }
}

/// What the rewrite makes of each piece.
pub open spec fn alpha_pieces(segs: Seq<Seq<char>>, want: bool) -> Seq<Seq<char>> {
    Seq::new(segs.len(), |i: int| alpha_piece(segs[i], want))
}

/// Every field line among the pieces carries `0` or `1`.
pub open spec fn alpha_values_ok(segs: Seq<Seq<char>>) -> bool {
    forall|k: int| 0 <= k < segs.len() ==> match alpha_value(#[trigger] segs[k]) {
        Some(v) => v == seq!['0'] || v == seq!['1'],
        None => true,
    }
}

/// Some piece is a field line.
pub open spec fn has_alpha_field(segs: Seq<Seq<char>>) -> bool {
    exists|k: int| 0 <= k < segs.len() && (#[trigger] alpha_value(segs[k])) is Some
}

proof fn lemma_alpha_pieces_drop_last(segs: Seq<Seq<char>>, want: bool)
    requires
        segs.len() > 0,
    ensures
        alpha_pieces(segs, want).drop_last() == alpha_pieces(segs.drop_last(), want),
        alpha_pieces(segs, want).last() == alpha_piece(segs.last(), want),
{
    assert(alpha_pieces(segs, want).drop_last() =~= alpha_pieces(segs.drop_last(), want));
}

/// A rewrite that goes through has joined the rewritten pieces, every field
/// value was `0` or `1`, and it saw a field exactly when there was one.
proof fn lemma_alpha_pass_shape(segs: Seq<Seq<char>>, want: bool)
    requires
        alpha_pass(segs, want) is Pass,
    ensures
        alpha_pass(segs, want) == AlphaPass::Pass(concat_pieces(alpha_pieces(segs, want)), has_alpha_field(segs)),
        alpha_values_ok(segs),
    decreases segs.len(),
{
    if segs.len() == 0 {
        assert(concat_pieces(alpha_pieces(segs, want)) =~= Seq::<char>::empty());
    } else {
        let q = segs.drop_last();
        lemma_alpha_pass_shape(q, want);
        lemma_alpha_pieces_drop_last(segs, want);
        assert forall|k: int| 0 <= k < segs.len() implies match alpha_value(#[trigger] segs[k]) {
            Some(v) => v == seq!['0'] || v == seq!['1'],
            None => true,
        } by {
            if k < q.len() {
                assert(segs[k] == q[k]);
            }
        }
        if has_alpha_field(segs) && !has_alpha_field(q) && alpha_value(segs.last()) is None {
            let k = choose|k: int| 0 <= k < segs.len() && (#[trigger] alpha_value(segs[k])) is Some;
            assert(k < q.len());
            assert(segs[k] == q[k]);
        }
        if has_alpha_field(q) {
            let k = choose|k: int| 0 <= k < q.len() && (#[trigger] alpha_value(q[k])) is Some;
            assert(segs[k] == q[k]);
        }
        if alpha_value(segs.last()) is Some {
            assert(alpha_value(segs[segs.len() - 1]) is Some);
        }
    }
}

/// A rewritten field line is a piece ending in a line break, reads back as
/// the wanted bit, keeps the original indent, and rewriting it again only
/// sets the bit.
proof fn lemma_alpha_line(seg: Seq<char>, w1: bool, w2: bool)
    requires
        is_piece(seg),
        alpha_value(seg) is Some,
    ensures
        is_piece(alpha_line(seg, w1)),
        alpha_line(seg, w1).last() == '\n',
        alpha_value(alpha_line(seg, w1)) == Some(seq![if w1 { '1' } else { '0' }]),
        alpha_line(alpha_line(seg, w1), w2) == alpha_line(seg, w2),
{
    reveal_strlit("alphaIsTransparency:");
    reveal_strlit("alphaIsTransparency: ");
    let key = "alphaIsTransparency:"@;
    let canon = "alphaIsTransparency: "@;
    let bit: char = if w1 { '1' } else { '0' };
    lemma_lead_ws(seg);
    let n = lead_ws(seg) as int;
    let t = trim_start(seg);
    assert(has_prefix(t, key));
    assert(t[0] == seg[n]);
    assert(t.subrange(0, 20)[0] == t[0]);
    assert(key[0] == 'a');
    assert(t[0] == 'a');
    assert(n + 20 <= seg.len());
    let indent = seg.take(n);
    let l = alpha_line(seg, w1);
    assert(l == indent + canon + seq![bit, '\n']);
    assert(l.len() == n + 23);
    // the indent is leading whitespace and stops at the key
    assert forall|k: int| 0 <= k < n implies is_ws(#[trigger] l[k]) by {
        assert(l[k] == seg[k]);
    }
    assert(l[n] == 'a');
    lemma_lead_ws_unique(l, n);
    assert(l.take(n) =~= indent);
    assert(alpha_line(l, w2) =~= alpha_line(seg, w2));
    // a piece that ends in its line break
    assert forall|i: int| 0 <= i < l.len() - 1 implies l[i] != '\n' by {
        if i < n {
            assert(l[i] == seg[i]);
            assert(i < seg.len() - 1);
        }
    }
    // it reads back as the bit
    let lt = trim_start(l);
    assert(lt =~= canon + seq![bit, '\n']);
    assert(lt.subrange(0, 20) =~= key);
    assert(has_prefix(lt, key));
    let rest = lt.skip(20);
    assert(rest =~= seq![' ', bit, '\n']);
    lemma_trail_crlf_unique(rest, 1);
    let body = trim_end_crlf(rest);
    assert(body =~= seq![' ', bit]);
    lemma_lead_ws_unique(body, 1);
    let b2 = trim_start(body);
    assert(b2 =~= seq![bit]);
    lemma_trail_ws_unique(b2, 0);
    assert(trim(body) =~= seq![bit]);
}

/// The rewritten pieces of a text split back apart as they are.
proof fn lemma_alpha_pieces_well_split(segs: Seq<Seq<char>>, w: bool)
    requires
        well_split(segs),
    ensures
        well_split(alpha_pieces(segs, w)),
{
    let ps = alpha_pieces(segs, w);
    assert forall|k: int| 0 <= k < ps.len() implies is_piece(#[trigger] ps[k]) by {
        assert(is_piece(segs[k]));
        if alpha_value(segs[k]) is Some {
            lemma_alpha_line(segs[k], w, w);
        }
    }
    assert forall|k: int| 0 <= k < ps.len() - 1 implies (#[trigger] ps[k]).last() == '\n' by {
        assert(is_piece(segs[k]));
        assert(segs[k].last() == '\n');
        if alpha_value(segs[k]) is Some {
            lemma_alpha_line(segs[k], w, w);
        }
    }
}

/// Rewriting the rewritten pieces with `w2` is rewriting the original
/// pieces with `w2`.
proof fn lemma_alpha_pass_again(segs: Seq<Seq<char>>, w1: bool, w2: bool)
    requires
        forall|k: int| 0 <= k < segs.len() ==> is_piece(#[trigger] segs[k]),
        alpha_values_ok(segs),
    ensures
        alpha_pass(alpha_pieces(segs, w1), w2) == AlphaPass::Pass(
            concat_pieces(alpha_pieces(segs, w2)),
            has_alpha_field(segs),
        ),
    decreases segs.len(),
{
    let ps = alpha_pieces(segs, w1);
    if segs.len() == 0 {
        assert(concat_pieces(alpha_pieces(segs, w2)) =~= Seq::<char>::empty());
    } else {
        let q = segs.drop_last();
        assert forall|k: int| 0 <= k < q.len() implies is_piece(#[trigger] q[k]) by {
            assert(q[k] == segs[k]);
        }
        assert forall|k: int| 0 <= k < q.len() implies match alpha_value(#[trigger] q[k]) {
            Some(v) => v == seq!['0'] || v == seq!['1'],
            None => true,
        } by {
            assert(q[k] == segs[k]);
        }
        lemma_alpha_pass_again(q, w1, w2);
        lemma_alpha_pieces_drop_last(segs, w1);
        lemma_alpha_pieces_drop_last(segs, w2);
        let last = segs.last();
        assert(last == segs[segs.len() - 1]);
        assert(is_piece(last));
        if alpha_value(last) is Some {
            lemma_alpha_line(last, w1, w2);
        }
        if has_alpha_field(segs) && !has_alpha_field(q) && alpha_value(last) is None {
            let k = choose|k: int| 0 <= k < segs.len() && (#[trigger] alpha_value(segs[k])) is Some;
            assert(k < q.len());
            assert(segs[k] == q[k]);
        }
        if has_alpha_field(q) {
            let k = choose|k: int| 0 <= k < q.len() && (#[trigger] alpha_value(q[k])) is Some;
            assert(segs[k] == q[k]);
        }
    }
}

/// Rewriting the `alphaIsTransparency:` line of a text that the rewrite
/// accepted, a second time, gives what rewriting the original text that
/// way gives: the last wish wins, and a re-run with the same wish gives
/// back the rewritten text byte for byte.
pub proof fn lemma_alpha_rewrite_twice(text: Seq<char>, w1: bool, w2: bool)
    requires
        alpha_pass(segments(text), w1) is Pass,
    ensures
        ({
            let out = alpha_pass(segments(text), w1)->Pass_0;
            &&& alpha_pass(segments(out), w2) == alpha_pass(segments(text), w2)
            &&& w1 == w2 ==> alpha_pass(segments(out), w2) == alpha_pass(segments(text), w1)
        }),
{
    let segs = segments(text);
    lemma_alpha_pass_shape(segs, w1);
    lemma_segments_well_split(text);
    lemma_alpha_pieces_well_split(segs, w1);
    lemma_segments_of_concat(alpha_pieces(segs, w1));
    assert forall|k: int| 0 <= k < segs.len() implies is_piece(#[trigger] segs[k]) by {}
    lemma_alpha_pass_again(segs, w1, w2);
    // the original text rewritten with `w2` goes through just the same
    assert(alpha_values_ok(segs));
    lemma_alpha_pass_ok(segs, w2);
}

/// With every field value `0` or `1`, the rewrite goes through.
proof fn lemma_alpha_pass_ok(segs: Seq<Seq<char>>, want: bool)
    requires
        alpha_values_ok(segs),
    ensures
        alpha_pass(segs, want) == AlphaPass::Pass(concat_pieces(alpha_pieces(segs, want)), has_alpha_field(segs)),
    decreases segs.len(),
{
    if segs.len() == 0 {
        assert(concat_pieces(alpha_pieces(segs, want)) =~= Seq::<char>::empty());
    } else {
        let q = segs.drop_last();
        assert forall|k: int| 0 <= k < q.len() implies match alpha_value(#[trigger] q[k]) {
            Some(v) => v == seq!['0'] || v == seq!['1'],
            None => true,
        } by {
            assert(q[k] == segs[k]);
        }
        lemma_alpha_pass_ok(q, want);
        lemma_alpha_pieces_drop_last(segs, want);
        assert(segs.last() == segs[segs.len() - 1]);
        if has_alpha_field(segs) && !has_alpha_field(q) && alpha_value(segs.last()) is None {
            let k = choose|k: int| 0 <= k < segs.len() && (#[trigger] alpha_value(segs[k])) is Some;
            assert(k < q.len());
            assert(segs[k] == q[k]);
        }
        if has_alpha_field(q) {
            let k = choose|k: int| 0 <= k < q.len() && (#[trigger] alpha_value(q[k])) is Some;
            assert(segs[k] == q[k]);
        }
    }
}

} // verus!
