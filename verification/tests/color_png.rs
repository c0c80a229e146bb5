use unity_sprite_author::png::{adler32, crc32_ieee, encode_1x1};

const PNG_SIG: [u8; 8] = [0x89, 0x50, 0x4E, 0x47, 0x0D, 0x0A, 0x1A, 0x0A];

#[test]
fn signature_and_ihdr_for_solid_white() {
    let png = encode_1x1([0xFF, 0xFF, 0xFF, 0xFF]);
    // 8 (sig) + 25 (IHDR) + 28 (IDAT) + 12 (IEND) = 73.
    assert_eq!(png.len(), 73);
    assert_eq!(&png[..8], &PNG_SIG);
    assert_eq!(&png[12..16], b"IHDR");
    // Last 12 bytes are the IEND chunk: length(0) + "IEND" + CRC.
    assert_eq!(&png[png.len() - 12..png.len() - 8], &[0, 0, 0, 0]);
    assert_eq!(&png[png.len() - 8..png.len() - 4], b"IEND");
}

#[test]
fn deterministic_byte_output() {
    let a = encode_1x1([0x32, 0x26, 0x4D, 0xBD]);
    let b = encode_1x1([0x32, 0x26, 0x4D, 0xBD]);
    assert_eq!(a, b);
}

#[test]
fn different_colors_produce_different_streams() {
    let red = encode_1x1([0xFF, 0x00, 0x00, 0xFF]);
    let green = encode_1x1([0x00, 0xFF, 0x00, 0xFF]);
    assert_ne!(red, green);
    assert_eq!(red.len(), green.len());
}

#[test]
fn crc32_known_vectors() {
    let ihdr_data: [u8; 17] = [
        b'I', b'H', b'D', b'R',
        0, 0, 0, 1, 0, 0, 0, 1, 8, 6, 0, 0, 0,
    ];
    assert_eq!(crc32_ieee(&ihdr_data), 0x1F15_C489);
    assert_eq!(crc32_ieee(b"IEND"), 0xAE42_6082);
}

#[test]
fn adler32_known_vector() {
    assert_eq!(adler32(b""), 1);
    assert_eq!(adler32(b"a"), 0x0062_0062);
    assert_eq!(adler32(b"abc"), 0x024D_0127);
}

#[test]
fn pixel_bytes_sit_at_offset_49() {
    let png = encode_1x1([0x12, 0x34, 0x56, 0x78]);
    assert_eq!(&png[49..53], &[0x12, 0x34, 0x56, 0x78]);
    // Filter byte of the single scanline precedes the pixel.
    assert_eq!(png[48], 0);
}

#[test]
fn full_stream_for_opaque_white_is_pinned() {
    // IDAT payload: zlib header, stored block LEN=5 NLEN=!5, scanline, adler.
    let png = encode_1x1([0xFF, 0xFF, 0xFF, 0xFF]);
    assert_eq!(&png[33..37], &[0, 0, 0, 16]);
    assert_eq!(&png[37..41], b"IDAT");
    assert_eq!(&png[41..48], &[0x78, 0x01, 0x01, 0x05, 0x00, 0xFA, 0xFF]);
    let adler = adler32(&[0, 0xFF, 0xFF, 0xFF, 0xFF]).to_be_bytes();
    assert_eq!(&png[53..57], &adler);
    // The CRC closing each chunk covers its tag and payload.
    let crc = crc32_ieee(&png[37..57]).to_be_bytes();
    assert_eq!(&png[57..61], &crc);
}
