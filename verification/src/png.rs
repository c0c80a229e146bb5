//! Hand-rolled encoder for a 1×1 RGBA PNG (the synthesized color swatches
//! that stand in for a flat polygon color inside a TexturePacker source dir).
//!
//! The stream is fixed at 73 bytes: signature, IHDR (8-bit RGBA, no
//! interlace), IDAT (zlib stored block holding one scanline) and IEND.
//! Every byte is pinned by `spec_png_1x1`, including both checksums.

use vstd::prelude::*;

verus! {

// ---------------------------------------------------------------------------
// Checksums

/// One bit of the reflected CRC-32 (polynomial 0xEDB88320).
pub open spec fn crc_step(c: u32) -> u32 {
    if c & 1 == 1 {
        (c >> 1) ^ 0xEDB8_8320u32
    } else {
        c >> 1
    }
}

/// `n` bit steps of the CRC register.
pub open spec fn crc_steps(c: u32, n: nat) -> u32
    decreases n,
{
    if n == 0 {
        c
    } else {
        crc_steps(crc_step(c), (n - 1) as nat)
    }
}

/// The register after absorbing one byte.
pub open spec fn crc_byte(c: u32, b: u8) -> u32 {
    crc_steps(c ^ (b as u32), 8)
}

/// The register after absorbing `bytes`, starting from all ones.
pub open spec fn crc_register(bytes: Seq<u8>) -> u32
    decreases bytes.len(),
{
    if bytes.len() == 0 {
        0xFFFF_FFFFu32
    } else {
        crc_byte(crc_register(bytes.drop_last()), bytes.last())
    }
}

/// CRC-32/ISO-HDLC of `bytes`: the final register, inverted.
pub open spec fn spec_crc32(bytes: Seq<u8>) -> u32 {
    !crc_register(bytes)
}

/// The two Adler-32 running sums `(a, b)` after `bytes`.
pub open spec fn adler_sums(bytes: Seq<u8>) -> (int, int)
    decreases bytes.len(),
{
    if bytes.len() == 0 {
        (1, 0)
    } else {
        let (a, b) = adler_sums(bytes.drop_last());
        let a2 = (a + bytes.last()) % 65521;
        (a2, (b + a2) % 65521)
    }
}

/// Adler-32 (zlib's checksum) of `bytes`: `(b << 16) | a`.
pub open spec fn spec_adler32(bytes: Seq<u8>) -> u32 {
    (adler_sums(bytes).1 * 65536 + adler_sums(bytes).0) as u32
}

proof fn lemma_adler_sums_bounded(bytes: Seq<u8>)
    ensures
        0 <= adler_sums(bytes).0 < 65521,
        0 <= adler_sums(bytes).1 < 65521,
    decreases bytes.len(),
{
    if bytes.len() > 0 {
        lemma_adler_sums_bounded(bytes.drop_last());
    }
}

proof fn lemma_crc_step_exec(c: u32)
    ensures
        (c >> 1) ^ (0xEDB8_8320u32 & !(c & 1).wrapping_sub(1)) == crc_step(c),
{
    let w = (c & 1).wrapping_sub(1);
    if c & 1 == 0 {
        assert(w == 0xFFFF_FFFFu32);
        assert((c >> 1) ^ (0xEDB8_8320u32 & !w) == c >> 1) by (bit_vector)
            requires
                w == 0xFFFF_FFFFu32,
        ;
    } else {
        assert(c & 1 == 1) by (bit_vector)
            requires
                c & 1 != 0,
        ;
        assert(w == 0u32);
        assert((c >> 1) ^ (0xEDB8_8320u32 & !w) == (c >> 1) ^ 0xEDB8_8320u32) by (bit_vector)
            requires
                w == 0u32,
        ;
    }
}

/// CRC-32/ISO-HDLC (IEEE 802.3 polynomial `0xEDB88320`), bitwise: PNG chunks
/// here are a few bytes long, so no table is needed.
pub fn crc32_ieee(bytes: &[u8]) -> (r: u32)
    ensures
        r == spec_crc32(bytes@),
{
    let mut crc: u32 = 0xFFFF_FFFF;
    let mut i: usize = 0;
    while i < bytes.len()
        invariant
            i <= bytes@.len(),
            crc == crc_register(bytes@.take(i as int)),
        decreases bytes@.len() - i,
    {
        let b = bytes[i];
        crc = crc ^ (b as u32);
        let ghost start = crc;
        let mut k: u32 = 0;
        while k < 8
            invariant
                k <= 8,
                crc == crc_steps(start, k as nat),
            decreases 8 - k,
        {
            proof {
                lemma_crc_step_exec(crc);
                lemma_crc_steps_snoc(start, k as nat);
            }
            let mask = !(crc & 1).wrapping_sub(1);
            crc = (crc >> 1) ^ (0xEDB8_8320 & mask);
            k = k + 1;
        }
        proof {
            let t = bytes@.take(i + 1);
            assert(t.drop_last() =~= bytes@.take(i as int));
            assert(t.last() == b);
        }
        i = i + 1;
    }
    proof {
        assert(bytes@.take(bytes@.len() as int) =~= bytes@);
    }
    !crc
}

proof fn lemma_crc_steps_snoc(c: u32, n: nat)
    ensures
        crc_steps(c, n + 1) == crc_step(crc_steps(c, n)),
    decreases n,
{
    assert(crc_steps(c, n + 1) == crc_steps(crc_step(c), n));
    if n > 0 {
        lemma_crc_steps_snoc(crc_step(c), (n - 1) as nat);
        assert(crc_steps(c, n) == crc_steps(crc_step(c), (n - 1) as nat));
    } else {
        assert(crc_steps(crc_step(c), 0) == crc_step(c));
    }
}

/// Adler-32 over the raw (uncompressed) scanline bytes.
pub fn adler32(bytes: &[u8]) -> (r: u32)
    ensures
        r == spec_adler32(bytes@),
{
    let mut a: u32 = 1;
    let mut b: u32 = 0;
    let mut i: usize = 0;
    while i < bytes.len()
        invariant
            i <= bytes@.len(),
            a == adler_sums(bytes@.take(i as int)).0,
            b == adler_sums(bytes@.take(i as int)).1,
        decreases bytes@.len() - i,
    {
        proof {
            lemma_adler_sums_bounded(bytes@.take(i as int));
            let t = bytes@.take(i + 1);
            assert(t.drop_last() =~= bytes@.take(i as int));
        }
        let x = bytes[i];
        a = (a + x as u32) % 65521;
        b = (b + a) % 65521;
        i = i + 1;
    }
    proof {
        assert(bytes@.take(bytes@.len() as int) =~= bytes@);
        lemma_adler_sums_bounded(bytes@);
        assert(b < 65521 && a < 65521);
        assert((b << 16) | a == b * 65536 + a) by (bit_vector)
            requires
                b < 65521u32,
                a < 65521u32,
        ;
    }
    (b << 16) | a
}

// ---------------------------------------------------------------------------
// Byte layout

/// Big-endian bytes of a `u32`.
pub open spec fn be32(x: u32) -> Seq<u8> {
    seq![(x >> 24) as u8, (x >> 16) as u8, (x >> 8) as u8, x as u8]
}

/// Little-endian bytes of a `u16`.
pub open spec fn le16(x: u16) -> Seq<u8> {
    seq![x as u8, (x >> 8) as u8]
}

/// `\x89PNG\r\n\x1a\n`.
pub open spec fn png_sig() -> Seq<u8> {
    seq![0x89u8, 0x50, 0x4E, 0x47, 0x0D, 0x0A, 0x1A, 0x0A]
}

/// Chunk tags, as ASCII bytes.
pub open spec fn tag_ihdr() -> Seq<u8> { seq![0x49u8, 0x48, 0x44, 0x52] }
pub open spec fn tag_idat() -> Seq<u8> { seq![0x49u8, 0x44, 0x41, 0x54] }
pub open spec fn tag_iend() -> Seq<u8> { seq![0x49u8, 0x45, 0x4E, 0x44] }

/// IHDR payload: width 1, height 1, bit depth 8, color type 6 (RGBA),
/// compression 0, filter 0, interlace 0.
pub open spec fn ihdr_data() -> Seq<u8> {
    seq![0u8, 0, 0, 1, 0, 0, 0, 1, 8, 6, 0, 0, 0]
}

/// One PNG chunk: length, tag, payload, CRC over tag + payload.
pub open spec fn spec_chunk(tag: Seq<u8>, data: Seq<u8>) -> Seq<u8> {
    be32(data.len() as u32) + tag + data + be32(spec_crc32(tag + data))
}

/// The one scanline of a 1×1 image: filter byte 0, then the pixel.
pub open spec fn scanline(rgba: Seq<u8>) -> Seq<u8> {
    seq![0u8, rgba[0], rgba[1], rgba[2], rgba[3]]
}

/// IDAT payload: zlib header (0x78 0x01), a final stored deflate block
/// (0x01, LEN, NLEN) carrying the scanline, then the Adler-32 trailer.
pub open spec fn idat_data(rgba: Seq<u8>) -> Seq<u8> {
    seq![0x78u8, 0x01, 0x01] + le16(5) + le16(!5u16) + scanline(rgba)
        + be32(spec_adler32(scanline(rgba)))
}

/// The complete 1×1 RGBA PNG for `rgba`.
pub open spec fn spec_png_1x1(rgba: Seq<u8>) -> Seq<u8> {
    png_sig() + spec_chunk(tag_ihdr(), ihdr_data()) + spec_chunk(tag_idat(), idat_data(rgba))
        + spec_chunk(tag_iend(), Seq::empty())
}

pub(crate) fn append_bytes(out: &mut Vec<u8>, s: &[u8])
    ensures
        final(out)@ == old(out)@ + s@,
{
    let mut i: usize = 0;
    while i < s.len()
        invariant
            i <= s@.len(),
            out@ == old(out)@ + s@.take(i as int),
        decreases s@.len() - i,
    {
        out.push(s[i]);
        proof {
            assert(s@.take(i + 1) =~= s@.take(i as int).push(s@[i as int]));
        }
        i = i + 1;
    }
    proof {
        assert(s@.take(s@.len() as int) =~= s@);
    }
}

fn push_be32(out: &mut Vec<u8>, x: u32)
    ensures
        final(out)@ == old(out)@ + be32(x),
{
    out.push((x >> 24) as u8);
    out.push((x >> 16) as u8);
    out.push((x >> 8) as u8);
    out.push(x as u8);
    proof {
        assert(out@ =~= old(out)@ + be32(x));
    }
}

/// Append one chunk (length, tag, payload, CRC) to `out`.
pub fn write_chunk(out: &mut Vec<u8>, ty: [u8; 4], data: &[u8])
    requires
        data@.len() + 4 <= usize::MAX,
    ensures
        final(out)@ == old(out)@ + spec_chunk(ty@, data@),
{
    push_be32(out, data.len() as u32);
    append_bytes(out, ty.as_slice());
    append_bytes(out, data);
    let mut crc_input: Vec<u8> = Vec::with_capacity(4 + data.len());
    append_bytes(&mut crc_input, ty.as_slice());
    append_bytes(&mut crc_input, data);
    let crc = crc32_ieee(crc_input.as_slice());
    push_be32(out, crc);
    proof {
        assert(out@ =~= old(out)@ + spec_chunk(ty@, data@));
    }
}

/// Encode a 1×1 RGBA PNG. The output is a pure function of `rgba`.
pub fn encode_1x1(rgba: [u8; 4]) -> (out: Vec<u8>)
    ensures
        out@ == spec_png_1x1(rgba@),
{
    let mut out: Vec<u8> = Vec::with_capacity(73);
    let sig: [u8; 8] = [0x89, 0x50, 0x4E, 0x47, 0x0D, 0x0A, 0x1A, 0x0A];
    append_bytes(&mut out, sig.as_slice());
    assert(sig@ =~= png_sig());

    let ihdr: [u8; 13] = [0, 0, 0, 1, 0, 0, 0, 1, 8, 6, 0, 0, 0];
    assert(ihdr@ =~= ihdr_data());
    write_chunk(&mut out, [0x49, 0x48, 0x44, 0x52], ihdr.as_slice());

    let line: [u8; 5] = [0, rgba[0], rgba[1], rgba[2], rgba[3]];
    assert(line@ =~= scanline(rgba@));
    let mut idat: Vec<u8> = Vec::with_capacity(16);
    idat.push(0x78);
    idat.push(0x01);
    idat.push(0x01);
    let len: u16 = 5;
    let nlen: u16 = !len;
    idat.push(len as u8);
    idat.push((len >> 8) as u8);
    idat.push(nlen as u8);
    idat.push((nlen >> 8) as u8);
    append_bytes(&mut idat, line.as_slice());
    let ad = adler32(line.as_slice());
    push_be32(&mut idat, ad);
    assert(idat@ =~= idat_data(rgba@));
    write_chunk(&mut out, [0x49, 0x44, 0x41, 0x54], idat.as_slice());

    let empty: [u8; 0] = [];
    write_chunk(&mut out, [0x49, 0x45, 0x4E, 0x44], empty.as_slice());
    proof {
        assert([0x49u8, 0x48, 0x44, 0x52]@ =~= tag_ihdr());
        assert([0x49u8, 0x44, 0x41, 0x54]@ =~= tag_idat());
        assert([0x49u8, 0x45, 0x4E, 0x44]@ =~= tag_iend());
        assert(empty@ =~= Seq::<u8>::empty());
        assert(out@ =~= spec_png_1x1(rgba@));
    }
    out
}

/// Every 1×1 PNG is 73 bytes: 8 (signature) + 25 (IHDR) + 28 (IDAT) +
/// 12 (IEND), opens with the PNG signature, carries the IHDR tag at bytes
/// 12..16, and closes with a zero-length IEND chunk.
pub proof fn lemma_png_1x1_layout(rgba: Seq<u8>)
    requires
        rgba.len() == 4,
    ensures
        spec_png_1x1(rgba).len() == 73,
        spec_png_1x1(rgba).subrange(0, 8) == png_sig(),
        spec_png_1x1(rgba).subrange(12, 16) == tag_ihdr(),
        spec_png_1x1(rgba).subrange(61, 65) == seq![0u8, 0, 0, 0],
        spec_png_1x1(rgba).subrange(65, 69) == tag_iend(),
{
    let p = spec_png_1x1(rgba);
    assert(idat_data(rgba).len() == 16);
    assert(p.subrange(0, 8) =~= png_sig());
    assert(p.subrange(12, 16) =~= tag_ihdr());
    assert((0u32 >> 24) as u8 == 0u8 && (0u32 >> 16) as u8 == 0u8 && (0u32 >> 8) as u8 == 0u8)
        by (bit_vector);
    assert(p.subrange(61, 65) =~= seq![0u8, 0, 0, 0]);
    assert(p.subrange(65, 69) =~= tag_iend());
}

/// The pixel bytes sit verbatim at offsets 49..53 of the stream (inside the
/// IDAT scanline), so two colors give the same stream only if they are the
/// same color.
pub proof fn lemma_png_1x1_injective(a: Seq<u8>, b: Seq<u8>)
    requires
        a.len() == 4,
        b.len() == 4,
        spec_png_1x1(a) == spec_png_1x1(b),
    ensures
        a == b,
{
    assert forall|i: int| 0 <= i < 4 implies spec_png_1x1(a)[49 + i] == a[i] by {
        assert(idat_data(a).len() == 16);
    }
    assert forall|i: int| 0 <= i < 4 implies spec_png_1x1(b)[49 + i] == b[i] by {
        assert(idat_data(b).len() == 16);
    }
    assert(a =~= b);
}

} // verus!
