//! The hex text of a color in the manifest (`RRGGBB` when opaque,
//! `RRGGBBAA` otherwise) and reading it back from what the user typed.

use vstd::prelude::*;
use vstd::utf8::{encode_utf8, is_continuation_byte};
use crate::meta::{hex_pair, hex_val, hex_val_exec};
use crate::meta_laws::lemma_encode_ascii;
use crate::text::{chars_of, is_ws, lemma_lead_ws_unique, lemma_trail_ws_unique, string_of, sub_chars, trim, trim_range};

verus! {

broadcast use vstd::string::group_string_axioms;

/// Upper-case hex digit of a nibble.
pub open spec fn hex_digit_upper(n: int) -> char {
    if n < 10 {
        (n + 48) as char
    } else {
        (n + 55) as char
    }
}

/// `{:02X}` of each byte, in order.
pub open spec fn hex_upper(bytes: Seq<u8>) -> Seq<char>
    decreases bytes.len(),
{
    if bytes.len() == 0 {
        Seq::empty()
    } else {
        hex_upper(bytes.drop_last()) + seq![
            hex_digit_upper((bytes.last() / 16) as int),
            hex_digit_upper((bytes.last() % 16) as int),
        ]
    }
}

/// The channels written for an RGBA color: alpha only when not opaque.
pub open spec fn color_channels(r: u8, g: u8, b: u8, a: u8) -> Seq<u8> {
    if a == 255 {
        seq![r, g, b]
    } else {
        seq![r, g, b, a]
    }
}

fn hex_digit_upper_exec(n: u8) -> (c: char)
    requires
        n < 16,
    ensures
        c == hex_digit_upper(n as int),
{
    if n < 10 {
        (n + 48) as char
    } else {
        (n + 55) as char
    }
}

/// The manifest's hex text of an RGBA color.
pub fn color_to_hex(r: u8, g: u8, b: u8, a: u8) -> (s: String)
    ensures
        s@ == hex_upper(color_channels(r, g, b, a)),
{
    let ch: Vec<u8> = if a == 255 {
        vec![r, g, b]
    } else {
        vec![r, g, b, a]
    };
    assert(ch@ =~= color_channels(r, g, b, a));
    let mut out: Vec<char> = Vec::new();
    let mut i: usize = 0;
    while i < ch.len()
        invariant
            i <= ch@.len(),
            out@ == hex_upper(ch@.take(i as int)),
        decreases ch@.len() - i,
    {
        let x = ch[i];
        out.push(hex_digit_upper_exec(x / 16));
        out.push(hex_digit_upper_exec(x % 16));
        proof {
            let t = ch@.take(i + 1);
            assert(t.drop_last() =~= ch@.take(i as int));
            assert(out@ =~= hex_upper(t));
        }
        i = i + 1;
    }
    assert(ch@.take(ch@.len() as int) =~= ch@);
    string_of(out.as_slice())
}

/// What reading pairs `i..n` of the UTF-8 bytes `b` does: `None` when
/// cutting out a pair splits a character (a panic), `Some(None)` when a
/// pair is not a hex byte, else the bytes.
pub open spec fn color_pairs(b: Seq<u8>, i: int, n: int) -> Option<Option<Seq<u8>>>
    decreases n - i,
{
    if i < 0 || i >= n {
        Some(Some(Seq::empty()))
    } else if 2 * i + 2 < b.len() && is_continuation_byte(b[2 * i + 2]) {
        None
    } else {
        match hex_pair(b[2 * i], b[2 * i + 1]) {
            None => Some(None),
            Some(v) => match color_pairs(b, i + 1, n) {
                None => None,
                Some(None) => Some(None),
                Some(Some(rest)) => Some(Some(seq![v] + rest)),
            },
        }
    }
}

/// What reading the typed text `hex` gives: surrounding whitespace
/// trimmed, then 6 or 8 bytes read pair by pair (alpha 255 when 6).
/// `None` when the reading would panic.
pub open spec fn color_outcome(hex: Seq<char>) -> Option<Option<(u8, u8, u8, u8)>> {
    let b = encode_utf8(trim(hex));
    if b.len() == 6 {
        match color_pairs(b, 0, 3) {
            None => None,
            Some(None) => Some(None),
            Some(Some(v)) => Some(Some((v[0], v[1], v[2], 255u8))),
        }
    } else if b.len() == 8 {
        match color_pairs(b, 0, 4) {
            None => None,
            Some(None) => Some(None),
            Some(Some(v)) => Some(Some((v[0], v[1], v[2], v[3]))),
        }
    } else {
        Some(None)
    }
}

proof fn lemma_color_pairs_len(b: Seq<u8>, i: int, n: int)
    requires
        0 <= i <= n,
    ensures
        color_pairs(b, i, n) matches Some(Some(v)) ==> v.len() == n - i,
    decreases n - i,
{
    if i < n {
        lemma_color_pairs_len(b, i + 1, n);
    }
}

/// Read the pairs of `b` from pair `i` up to pair `n` (`b` has `2n` bytes).
fn read_pairs(b: &[u8], n: usize) -> (r: Option<Vec<u8>>)
    requires
        n <= 4,
        b@.len() == 2 * n,
        color_pairs(b@, 0, n as int) is Some,
    ensures
        match color_pairs(b@, 0, n as int) {
            Some(Some(v)) => r is Some && r->0@ == v && v.len() == n,
            _ => r is None,
        },
{
    proof {
        lemma_color_pairs_len(b@, 0, n as int);
    }
    let mut out: Vec<u8> = Vec::new();
    let mut i: usize = 0;
    assert(out@ =~= Seq::<u8>::empty());
    assert(prepend_vals(out@, color_pairs(b@, 0, n as int)) == color_pairs(b@, 0, n as int)) by {
        match color_pairs(b@, 0, n as int) {
            Some(Some(x)) => {
                assert(Seq::<u8>::empty() + x =~= x);
            },
            _ => {},
        }
    }
    while i < n
        invariant
            i <= n <= 4,
            b@.len() == 2 * n,
            color_pairs(b@, 0, n as int) is Some,
            color_pairs(b@, 0, n as int) == prepend_vals(out@, color_pairs(b@, i as int, n as int)),
        decreases n - i,
    {
        let b0 = b[2 * i];
        let b1 = b[2 * i + 1];
        let v = if b0 == 0x2B {
            hex_val_exec(b1)
        } else {
            match (hex_val_exec(b0), hex_val_exec(b1)) {
                (Some(h), Some(l)) => Some(h * 16 + l),
                _ => None,
            }
        };
        assert(v == hex_pair(b0, b1));
        match v {
            None => {
                assert(!(2 * i + 2 < b@.len() && is_continuation_byte(b@[2 * i + 2])));
                assert(color_pairs(b@, i as int, n as int) == Some(None::<Seq<u8>>));
                return None;
            },
            Some(x) => {
                let ghost before = out@;
                out.push(x);
                proof {
                    assert(!(2 * i + 2 < b@.len() && is_continuation_byte(b@[2 * i + 2])));
                    match color_pairs(b@, i + 1, n as int) {
                        Some(Some(rest)) => {
                            assert(before + (seq![x] + rest) =~= out@ + rest);
                        },
                        _ => {},
                    }
                }
                i = i + 1;
            },
        }
    }
    assert(out@ + Seq::<u8>::empty() =~= out@);
    Some(out)
}

pub open spec fn prepend_vals(vals: Seq<u8>, o: Option<Option<Seq<u8>>>) -> Option<Option<Seq<u8>>> {
    match o {
        Some(Some(r)) => Some(Some(vals + r)),
        x => x,
    }
}

/// The trimmed text of `hex` and its UTF-8 bytes.
fn trimmed(hex: &str) -> (r: String)
    ensures
        r@ == trim(hex@),
{
    let cs = chars_of(hex);
    let (x, y) = trim_range(cs.as_slice(), 0, cs.len());
    assert(cs@.subrange(0, cs@.len() as int) =~= cs@);
    let t = sub_chars(cs.as_slice(), x, y);
    string_of(t.as_slice())
}

/// Cutting the pairs out of `hex` never splits a character, so reading it
/// does not panic.
pub fn color_hex_readable(hex: &str) -> (r: bool)
    ensures
        r == color_outcome(hex@) is Some,
{
    let t = trimmed(hex);
    let b = t.as_str().as_bytes();
    proof {
        assert(b@ == encode_utf8(t@));
    }
    let n: usize = if b.len() == 6 {
        3
    } else if b.len() == 8 {
        4
    } else {
        return true;
    };
    assert(color_outcome(hex@) is Some <==> color_pairs(b@, 0, n as int) is Some);
    let mut i: usize = 0;
    while i < n
        invariant
            i <= n <= 4,
            b@.len() == 2 * n,
            color_outcome(hex@) is Some <==> color_pairs(b@, 0, n as int) is Some,
            color_pairs(b@, 0, n as int) is Some <==> color_pairs(b@, i as int, n as int) is Some,
        decreases n - i,
    {
        if 2 * i + 2 < b.len() && 0x80 <= b[2 * i + 2] && b[2 * i + 2] <= 0xbf {
            return false;
        }
        if hex_pair_exec(b[2 * i], b[2 * i + 1]).is_none() {
            return true;
        }
        i = i + 1;
    }
    true
}

fn hex_pair_exec(b0: u8, b1: u8) -> (r: Option<u8>)
    ensures
        r == hex_pair(b0, b1),
{
    if b0 == 0x2B {
        hex_val_exec(b1)
    } else {
        match (hex_val_exec(b0), hex_val_exec(b1)) {
            (Some(h), Some(l)) => Some(h * 16 + l),
            _ => None,
        }
    }
}

/// Read a typed color: `RRGGBB` (opaque) or `RRGGBBAA`, either case, with
/// surrounding whitespace ignored. `None` for anything else.
pub fn parse_color_hex(hex: &str) -> (r: Option<(u8, u8, u8, u8)>)
    requires
        color_outcome(hex@) is Some,
    ensures
        Some(r) == color_outcome(hex@),
{
    let t = trimmed(hex);
    let b = t.as_str().as_bytes();
    proof {
        assert(b@ == encode_utf8(t@));
    }
    if b.len() == 6 {
        match read_pairs(b, 3) {
            None => None,
            Some(v) => Some((v[0], v[1], v[2], 255)),
        }
    } else if b.len() == 8 {
        match read_pairs(b, 4) {
            None => None,
            Some(v) => Some((v[0], v[1], v[2], v[3])),
        }
    } else {
        None
    }
}

proof fn lemma_hex_upper_index(g: Seq<u8>)
    ensures
        hex_upper(g).len() == 2 * g.len(),
        forall|i: int|
            0 <= i < g.len() ==> hex_upper(g)[2 * i] == hex_digit_upper((#[trigger] g[i] / 16) as int) && hex_upper(
                g,
            )[2 * i + 1] == hex_digit_upper((g[i] % 16) as int),
    decreases g.len(),
{
    if g.len() > 0 {
        let p = g.drop_last();
        lemma_hex_upper_index(p);
        assert forall|i: int| 0 <= i < g.len() implies hex_upper(g)[2 * i] == hex_digit_upper(
            (#[trigger] g[i] / 16) as int,
        ) && hex_upper(g)[2 * i + 1] == hex_digit_upper((g[i] % 16) as int) by {
            if i < p.len() {
                assert(p[i] == g[i]);
            }
        }
    }
}

proof fn lemma_upper_digit_byte(n: int)
    requires
        0 <= n < 16,
    ensures
        (hex_digit_upper(n) as u32) < 0x80,
        (hex_digit_upper(n) as u32) != 0x2B,
        hex_val((hex_digit_upper(n) as u32) as u8) == Some(n as u8),
        !is_ws(hex_digit_upper(n)),
{
}

proof fn lemma_color_pairs_decode(v: Seq<u8>, b: Seq<u8>, i: int)
    requires
        b.len() == 2 * v.len(),
        forall|k: int| 0 <= k < b.len() ==> #[trigger] b[k] as u32 == hex_upper(v)[k] as u32,
        0 <= i <= v.len(),
    ensures
        color_pairs(b, i, v.len() as int) == Some(Some(v.skip(i))),
    decreases v.len() - i,
{
    lemma_hex_upper_index(v);
    if i < v.len() {
        lemma_color_pairs_decode(v, b, i + 1);
        let hi = (v[i] / 16) as int;
        let lo = (v[i] % 16) as int;
        lemma_upper_digit_byte(hi);
        lemma_upper_digit_byte(lo);
        assert(b[2 * i] as u32 == hex_digit_upper(hi) as u32);
        assert(b[2 * i + 1] as u32 == hex_digit_upper(lo) as u32);
        assert(b[2 * i] == (hex_digit_upper(hi) as u32) as u8);
        assert(b[2 * i + 1] == (hex_digit_upper(lo) as u32) as u8);
        assert(hex_pair(b[2 * i], b[2 * i + 1]) == Some(v[i]));
        if 2 * i + 2 < b.len() {
            let m = i + 1;
            lemma_upper_digit_byte((v[m] / 16) as int);
            assert(b[2 * m] as u32 == hex_digit_upper((v[m] / 16) as int) as u32);
            assert(!is_continuation_byte(b[2 * i + 2]));
        }
        assert(seq![v[i]] + v.skip(i + 1) =~= v.skip(i));
    } else {
        assert(v.skip(i) =~= Seq::<u8>::empty());
    }
}

/// Writing a color and reading the text back gives the color.
pub proof fn lemma_color_round_trip(r: u8, g: u8, b: u8, a: u8)
    ensures
        color_outcome(hex_upper(color_channels(r, g, b, a))) == Some(Some((r, g, b, a))),
{
    let v = color_channels(r, g, b, a);
    let h = hex_upper(v);
    lemma_hex_upper_index(v);
    assert forall|i: int| 0 <= i < h.len() implies (#[trigger] h[i] as u32) < 0x80 && !is_ws(h[i]) by {
        let m = i / 2;
        lemma_upper_digit_byte((v[m] / 16) as int);
        lemma_upper_digit_byte((v[m] % 16) as int);
        if i % 2 == 0 {
            assert(i == 2 * m);
        } else {
            assert(i == 2 * m + 1);
        }
    }
    lemma_lead_ws_unique(h, 0);
    lemma_trail_ws_unique(h, 0);
    assert(h.skip(0) =~= h);
    assert(h.take(h.len() as int) =~= h);
    assert(trim(h) == h);
    lemma_encode_ascii(h);
    let bytes = encode_utf8(h);
    lemma_color_pairs_decode(v, bytes, 0);
    assert(v.skip(0) =~= v);
}

} // verus!
