use chip8_core::float_type::{deconstruct_f32, generate_f32_bits, Q7};

fn q7_from_f64(n: f64) -> Q7 {
    Q7::from_f64_bits(n.to_bits())
}

fn q7_from_f32(n: f32) -> Q7 {
    Q7::from_f32_bits(n.to_bits())
}

fn f32_from_q7(q: Q7) -> f32 {
    f32::from_bits(q.to_f32_bits())
}

fn f64_from_q7(q: Q7) -> f64 {
    f64::from_bits(q.to_f64_bits())
}

/// The conversion written with the machine's own floating-point arithmetic.
fn native_q7(n: f64) -> i8 {
    if n >= 1.0 {
        127
    } else if n <= -1.0 {
        -128
    } else {
        (n * 128.0) as i8
    }
}

#[test]
fn out_of_bound() {
    assert_eq!(q7_from_f64(10.), q7_from_f64(1.));
    assert_eq!(q7_from_f64(-10.), q7_from_f64(-1.))
}

#[test]
fn f32_to_q7() {
    let n1: f32 = 0.7;
    let q1 = q7_from_f32(n1);

    let n2 = -0.4;
    let q2 = q7_from_f64(n2);

    let n3 = 123.0;
    let q3 = q7_from_f64(n3);

    assert_eq!(q1, Q7(89));
    assert_eq!(q2, Q7(-51));
    assert_eq!(q3, Q7(127))
}

#[test]
fn q7_to_f32() {
    let q1 = q7_from_f64(0.7);
    let n1 = f32_from_q7(q1);
    assert_eq!(n1, 0.6953125);

    let q2 = q7_from_f32(n1);
    let n2 = f32_from_q7(q2);
    assert_eq!(n1, n2);
}

#[test]
fn saturation_bounds() {
    assert_eq!(q7_from_f64(1.0), Q7(127));
    assert_eq!(q7_from_f64(-1.0), Q7(-128));
    assert_eq!(q7_from_f64(f64::INFINITY), Q7(127));
    assert_eq!(q7_from_f64(f64::NEG_INFINITY), Q7(-128));
    assert_eq!(q7_from_f64(f64::MAX), Q7(127));
    assert_eq!(q7_from_f64(f64::MIN), Q7(-128));
    assert_eq!(q7_from_f32(f32::INFINITY), Q7(127));
    assert_eq!(q7_from_f32(f32::NEG_INFINITY), Q7(-128));
    assert_eq!(q7_from_f32(1.0), Q7(127));
    assert_eq!(q7_from_f32(-1.0), Q7(-128));
}

#[test]
fn just_inside_the_bounds() {
    let below_one = f64::from_bits(1.0f64.to_bits() - 1);
    assert_eq!(q7_from_f64(below_one), Q7(127));
    assert_eq!(q7_from_f64(-below_one), Q7(-127));
    assert_eq!(q7_from_f64(0.9921875), Q7(127));
    assert_eq!(q7_from_f64(0.99218749), Q7(126));
    let below_one = f32::from_bits(1.0f32.to_bits() - 1);
    assert_eq!(q7_from_f32(below_one), Q7(127));
    assert_eq!(q7_from_f32(-below_one), Q7(-127));
}

#[test]
fn nan_gives_zero() {
    assert_eq!(q7_from_f64(f64::NAN), Q7(0));
    assert_eq!(Q7::from_f64_bits(0x7FF0_0000_0000_0001), Q7(0));
    assert_eq!(Q7::from_f64_bits(0xFFFF_FFFF_FFFF_FFFF), Q7(0));
    assert_eq!(q7_from_f32(f32::NAN), Q7(0));
    assert_eq!(Q7::from_f32_bits(0x7F80_0001), Q7(0));
    assert_eq!(Q7::from_f32_bits(0xFFFF_FFFF), Q7(0));
}

#[test]
fn small_numbers_give_zero() {
    assert_eq!(q7_from_f64(0.0), Q7(0));
    assert_eq!(q7_from_f64(-0.0), Q7(0));
    assert_eq!(q7_from_f64(0.0078124), Q7(0));
    assert_eq!(q7_from_f64(-0.0078124), Q7(0));
    assert_eq!(q7_from_f64(0.0078125), Q7(1));
    assert_eq!(q7_from_f64(-0.0078125), Q7(-1));
    assert_eq!(q7_from_f64(f64::MIN_POSITIVE), Q7(0));
    assert_eq!(Q7::from_f64_bits(1), Q7(0));
    assert_eq!(Q7::from_f32_bits(1), Q7(0));
    assert_eq!(q7_from_f32(f32::MIN_POSITIVE), Q7(0));
}

#[test]
fn rounds_towards_zero() {
    assert_eq!(q7_from_f64(0.1234), Q7(15));
    assert_eq!(q7_from_f64(-0.1234), Q7(-15));
    assert_eq!(q7_from_f64(0.5), Q7(64));
    assert_eq!(q7_from_f64(-0.5), Q7(-64));
    assert_eq!(q7_from_f64(0.999), Q7(127));
    assert_eq!(q7_from_f64(-0.999), Q7(-127));
}

#[test]
fn f64_conversion_agrees_with_native_arithmetic() {
    let mut bits: u64 = 0;
    let mut count = 0u32;
    loop {
        let n = f64::from_bits(bits);
        assert_eq!(Q7::from_f64_bits(bits).0, native_q7(n), "bits {:#x}", bits);
        count += 1;
        let (next, overflow) = bits.overflowing_add(0x0000_3A7F_19C5_D3B1);
        if overflow {
            break;
        }
        bits = next;
    }
    assert!(count > 200_000);
    for exponent in 1000u64..1040 {
        for fraction in [0u64, 1, 0x8_0000_0000_0000, 0xF_FFFF_FFFF_FFFF, 0x3_3333_3333_3333] {
            for sign in [0u64, 1] {
                let bits = sign << 63 | exponent << 52 | fraction;
                assert_eq!(Q7::from_f64_bits(bits).0, native_q7(f64::from_bits(bits)));
            }
        }
    }
}

#[test]
fn f32_conversion_agrees_with_native_arithmetic() {
    let mut bits: u32 = 0;
    loop {
        let n = f32::from_bits(bits);
        assert_eq!(Q7::from_f32_bits(bits).0, native_q7(n as f64), "bits {:#x}", bits);
        let (next, overflow) = bits.overflowing_add(4099);
        if overflow {
            break;
        }
        bits = next;
    }
    for exponent in 100u32..140 {
        for fraction in [0u32, 1, 0x40_0000, 0x7F_FFFF, 0x33_3333] {
            for sign in [0u32, 1] {
                let bits = sign << 31 | exponent << 23 | fraction;
                assert_eq!(Q7::from_f32_bits(bits).0, native_q7(f32::from_bits(bits) as f64));
            }
        }
    }
}

#[test]
fn every_q7_value_converts_exactly_and_back() {
    for steps in i8::MIN..=i8::MAX {
        let q = Q7(steps);
        let wide = f64_from_q7(q);
        let narrow = f32_from_q7(q);
        assert_eq!(wide, (steps as f64) * 2_f64.powf(-7.0));
        assert_eq!(narrow, wide as f32);
        assert_eq!(q7_from_f64(wide), q);
        assert_eq!(q7_from_f32(narrow), q);
    }
}

#[test]
fn zero_steps_are_positive_zero() {
    assert_eq!(Q7(0).to_f64_bits(), 0);
    assert_eq!(Q7(0).to_f32_bits(), 0);
}

#[test]
fn q7_bit_patterns() {
    assert_eq!(Q7(1).to_f64_bits(), 0x3F80_0000_0000_0000);
    assert_eq!(Q7(-128).to_f64_bits(), 0xBFF0_0000_0000_0000);
    assert_eq!(Q7(127).to_f64_bits(), 0x3FEF_C000_0000_0000);
    assert_eq!(Q7(89).to_f32_bits(), 0x3F32_0000);
    assert_eq!(Q7(-1).to_f32_bits(), 0xBC00_0000);
}

#[test]
fn deconstruct_takes_the_fields_apart() {
    assert_eq!(deconstruct_f32(42.42f32.to_bits()), (0, 132, 0x29AE14));
    assert_eq!(deconstruct_f32((-1.0f32).to_bits()), (1, 127, 0));
    assert_eq!(deconstruct_f32(0), (0, 0, 0));
    assert_eq!(deconstruct_f32(0xFFFF_FFFF), (1, 255, 0x7F_FFFF));
    let bits = 23.908f32.to_bits();
    let (sign, exponent, fraction) = deconstruct_f32(bits);
    assert_eq!(sign << 31 | exponent << 23 | fraction, bits);
}

#[test]
fn generated_patterns_lie_between_a_half_and_one() {
    assert_eq!(generate_f32_bits(0), 0x3F00_0000);
    assert_eq!(generate_f32_bits(255), 0x3F7F_8000);
    for n in 0..=255u8 {
        let m = f32::from_bits(generate_f32_bits(n));
        assert_eq!(m, (256.0 + n as f32) / 512.0);
        assert_eq!(2.0 * (m - 0.5), n as f32 / 256.0);
    }
}
