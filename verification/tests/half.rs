use unity_sprite_author::mesh_emit::float_to_half;

fn h(f: f32) -> u16 {
    float_to_half(f.to_bits())
}

#[test]
fn float_to_half_zero_and_signs() {
    assert_eq!(h(0.0), 0x0000);
    assert_eq!(h(-0.0), 0x8000);
}

#[test]
fn float_to_half_infinities() {
    assert_eq!(h(f32::INFINITY), 0x7C00);
    assert_eq!(h(f32::NEG_INFINITY), 0xFC00);
}

#[test]
fn float_to_half_nan() {
    let n = h(f32::NAN);
    // Mantissa non-zero in the top 10 bits; exponent all-ones.
    assert_eq!(n & 0x7C00, 0x7C00);
    assert!(n & 0x03FF != 0);
}

#[test]
fn float_to_half_one() {
    assert_eq!(h(1.0), 0x3C00);
    assert_eq!(h(-1.0), 0xBC00);
}

#[test]
fn float_to_half_simple_fractions() {
    assert_eq!(h(0.5), 0x3800);
    assert_eq!(h(0.25), 0x3400);
    assert_eq!(h(2.0), 0x4000);
}

#[test]
fn float_to_half_overflow_to_inf() {
    // 65520 is just above the largest representable half (65504); round to
    // nearest sends it to +inf.
    assert_eq!(h(65520.0), 0x7C00);
    assert_eq!(h(-65520.0), 0xFC00);
}

#[test]
fn float_to_half_max_half() {
    // 65504 = 0x7BFF (the largest finite half).
    assert_eq!(h(65504.0), 0x7BFF);
}

#[test]
fn float_to_half_min_normal() {
    // 2^-14 = smallest positive normal half = 0x0400.
    assert_eq!(h(2.0f32.powi(-14)), 0x0400);
}

#[test]
fn float_to_half_min_subnormal() {
    // 2^-24 = smallest positive subnormal half = 0x0001.
    assert_eq!(h(2.0f32.powi(-24)), 0x0001);
}

#[test]
fn float_to_half_underflow_to_zero() {
    // Half of the smallest subnormal rounds to zero via round-to-even.
    assert_eq!(h(2.0f32.powi(-25)), 0x0000);
}

#[test]
fn float_to_half_bit_patterns() {
    // A NaN whose payload sits below the top ten mantissa bits keeps a
    // nonzero mantissa.
    assert_eq!(float_to_half(0x7f80_0001), 0x7C01);
    // 1 + 2^-11 is a tie between 1 and 1 + 2^-10: even wins.
    assert_eq!(h(1.0 + 2.0f32.powi(-11)), 0x3C00);
    // 1 + 3 * 2^-11 ties upward to the even neighbour.
    assert_eq!(h(1.0 + 3.0 * 2.0f32.powi(-11)), 0x3C02);
    // Mantissa carry into the exponent: just under 2 rounds to 2.
    assert_eq!(h(1.99999), 0x4000);
    // Subnormal tie: 3 * 2^-25 lies halfway between 1 and 2 subnormal units.
    assert_eq!(h(3.0 * 2.0f32.powi(-25)), 0x0002);
}
