//! Binary floating-point numbers taken apart, and the signed fixed-point
//! format Q7.
//!
//! A floating-point number enters and leaves this module as its bit pattern:
//! one sign bit, then the exponent field, then the fraction field. A pattern
//! with exponent field `e` and fraction `f`, in a format with `w` fraction
//! bits and bias `b`, stands for
//!
//! ```text
//!   (-1)^sign * (2^w + f) * 2^(e - b - w)      for 0 < e < 2b + 1
//!   (-1)^sign *        f  * 2^(1 - b - w)      for e == 0
//! ```
//!
//! Either way the number is a whole multiple of `2^(1 - b - w)`, and that
//! multiple is what the contracts here speak of. A pattern with `e == 2b + 1`
//! stands for an infinity if `f == 0`, which counts here as what the first
//! line gives, a number beyond all others, and for no number (NaN) if not.
use vstd::prelude::*;
use vstd::arithmetic::div_mod::{
    lemma_basic_div, lemma_div_is_ordered, lemma_div_multiples_vanish,
    lemma_div_multiples_vanish_quotient, lemma_multiply_divide_lt,
};
use vstd::arithmetic::power2::{
    lemma2_to64, lemma2_to64_rest, lemma_pow2_adds, lemma_pow2_pos, lemma_pow2_strictly_increases,
    pow2,
};
use vstd::bits::{lemma_u64_shl_is_mul, lemma_u64_shr_is_div};

verus! {

/// A number between -1 and 1 in a single byte: the byte, read as a signed
/// integer, counts steps of 1/128.
#[derive(Debug, Clone, Copy, PartialEq, Eq, Structural)]
pub struct Q7(pub i8);

/// The size of a number, counted in the smallest step of its format: what
/// the exponent field `exponent` and the fraction field `fraction` stand for
/// in a format with `width` fraction bits, as a multiple of
/// `2^(1 - bias - width)`.
pub open spec fn magnitude(exponent: nat, fraction: nat, width: nat) -> nat {
    if exponent == 0 {
        fraction
    } else {
        (pow2(width) + fraction) * pow2((exponent - 1) as nat)
    }
}

/// The Q7 steps in the number that is `numerator / 2^scale`, negated if
/// `negative`: 128 times the number, rounded towards zero, and then brought
/// into the range of a signed byte, so that every number from 1 upwards
/// counts as 127 steps and every number from -1 downwards as -128.
pub open spec fn q7_steps(negative: bool, numerator: nat, scale: nat) -> int {
    let whole = (numerator * 128) as int / (pow2(scale) as int);
    if negative {
        if whole >= 128 {
            -128
        } else {
            -whole
        }
    } else {
        if whole >= 128 {
            127
        } else {
            whole
        }
    }
}

/// The magnitude of a Q7 value.
pub open spec fn q7_abs(q: Q7) -> nat {
    if q.0 < 0 {
        (-q.0) as nat
    } else {
        q.0 as nat
    }
}

/// Sign bit of a double-precision pattern.
pub open spec fn f64_negative(bits: u64) -> bool {
    bits >= 0x8000_0000_0000_0000
}

/// Exponent field of a double-precision pattern: bits 62 to 52.
pub open spec fn f64_exponent(bits: u64) -> nat {
    (bits / 0x10_0000_0000_0000 % 0x800) as nat
}

/// Fraction field of a double-precision pattern: bits 51 to 0.
pub open spec fn f64_fraction(bits: u64) -> nat {
    (bits % 0x10_0000_0000_0000) as nat
}

/// The pattern stands for no number.
pub open spec fn f64_is_nan(bits: u64) -> bool {
    f64_exponent(bits) == 0x7FF && f64_fraction(bits) != 0
}

/// The pattern stands for a number, not for an infinity or a NaN.
pub open spec fn f64_is_finite(bits: u64) -> bool {
    f64_exponent(bits) < 0x7FF
}

/// The size of a double-precision number as a multiple of `2^-1074`.
pub open spec fn f64_magnitude(bits: u64) -> nat {
    magnitude(f64_exponent(bits), f64_fraction(bits), 52)
}

/// The Q7 steps that a double-precision pattern converts to: none for a
/// NaN, else those of its number.
pub open spec fn q7_of_f64(bits: u64) -> int {
    if f64_is_nan(bits) {
        0
    } else {
        q7_steps(f64_negative(bits), f64_magnitude(bits), 1074)
    }
}

/// Sign bit of a single-precision pattern.
pub open spec fn f32_negative(bits: u32) -> bool {
    bits >= 0x8000_0000
}

/// Exponent field of a single-precision pattern: bits 30 to 23.
pub open spec fn f32_exponent(bits: u32) -> nat {
    (bits / 0x80_0000 % 0x100) as nat
}

/// Fraction field of a single-precision pattern: bits 22 to 0.
pub open spec fn f32_fraction(bits: u32) -> nat {
    (bits % 0x80_0000) as nat
}

/// The pattern stands for no number.
pub open spec fn f32_is_nan(bits: u32) -> bool {
    f32_exponent(bits) == 0xFF && f32_fraction(bits) != 0
}

/// The pattern stands for a number, not for an infinity or a NaN.
pub open spec fn f32_is_finite(bits: u32) -> bool {
    f32_exponent(bits) < 0xFF
}

/// The size of a single-precision number as a multiple of `2^-149`.
pub open spec fn f32_magnitude(bits: u32) -> nat {
    magnitude(f32_exponent(bits), f32_fraction(bits), 23)
}

/// The Q7 steps that a single-precision pattern converts to: none for a
/// NaN, else those of its number.
pub open spec fn q7_of_f32(bits: u32) -> int {
    if f32_is_nan(bits) {
        0
    } else {
        q7_steps(f32_negative(bits), f32_magnitude(bits), 149)
    }
}

/// Takes a single-precision pattern apart into sign bit, exponent field and
/// fraction field.
pub fn deconstruct_f32(bits: u32) -> (parts: (u32, u32, u32))
    ensures
        parts.0 == (if f32_negative(bits) {
            1u32
        } else {
            0u32
        }),
        parts.1 == f32_exponent(bits),
        parts.2 == f32_fraction(bits),
        bits == parts.0 * 0x8000_0000 + parts.1 * 0x80_0000 + parts.2,
{
    assert((bits >> 31) & 1 == (if bits >= 0x8000_0000u32 {
        1u32
    } else {
        0u32
    }) && (bits >> 23) & 0xff == bits / 0x80_0000 % 0x100 && 0b00000000_01111111_11111111_11111111
        & bits == bits % 0x80_0000 && bits == ((bits >> 31) & 1) * 0x8000_0000 + ((bits >> 23)
        & 0xff) * 0x80_0000 + (0b00000000_01111111_11111111_11111111 & bits)) by (bit_vector);
    let sign: u32 = (bits >> 31) & 1;
    let exponent: u32 = (bits >> 23) & 0xff;
    let fraction: u32 = 0b00000000_01111111_11111111_11111111 & bits;
    (sign, exponent, fraction)
}

/// The pattern of the single-precision number `(256 + n) / 512`: positive,
/// with the exponent field of one half, and `n` in the top eight bits of the
/// fraction. These numbers run from one half up to, but not reaching, one.
pub fn generate_f32_bits(n: u8) -> (bits: u32)
    ensures
        bits == 0x3F00_0000 + n * 0x8000,
        !f32_negative(bits),
        f32_exponent(bits) == 126,
        f32_fraction(bits) == n * 0x8000,
        f32_magnitude(bits) == (256 + n) * pow2(140),
{
    let base: u32 = 0b0_01111110_00000000000000000000000;
    let large_n: u32 = (n as u32) << 15;
    let bits: u32 = base | large_n;
    assert(large_n == n * 0x8000 && bits == 0x3F00_0000 + n * 0x8000 && bits < 0x8000_0000u32
        && bits / 0x80_0000 % 0x100 == 126 && bits % 0x80_0000 == n * 0x8000) by (bit_vector)
        requires
            large_n == (n as u32) << 15,
            bits == 0b0_01111110_00000000000000000000000u32 | large_n,
    ;
    proof {
        lemma2_to64();
        lemma_pow2_adds(15, 125);
        assert((pow2(23) + n * 0x8000) * pow2(125) == (256 + n) * (0x8000 * pow2(125)))
            by (nonlinear_arith)
            requires
                pow2(23) == 256 * 0x8000,
        ;
    }
    bits
}

impl Q7 {
    /// Converts a double-precision number, given as its bit pattern, to Q7:
    /// 128 times the number, rounded towards zero and kept within the range
    /// of a signed byte. A NaN gives zero.
    pub fn from_f64_bits(bits: u64) -> (q: Q7)
        ensures
            q.0 == q7_of_f64(bits),
    {
        assert(bits >> 63 == (if bits >= 0x8000_0000_0000_0000u64 {
            1u64
        } else {
            0u64
        }) && (bits >> 52) & 0x7FF == bits / 0x10_0000_0000_0000 % 0x800 && bits
            & 0xF_FFFF_FFFF_FFFF == bits % 0x10_0000_0000_0000) by (bit_vector);
        proof {
            lemma2_to64_rest();
        }
        let negative = bits >> 63 == 1;
        let exponent: u64 = (bits >> 52) & 0x7FF;
        let fraction: u64 = bits & 0xF_FFFF_FFFF_FFFF;
        q7_from_fields(negative, exponent, fraction, 52, 1023, 0x10_0000_0000_0000)
    }

    /// Converts a single-precision number, given as its bit pattern, to Q7:
    /// 128 times the number, rounded towards zero and kept within the range
    /// of a signed byte. A NaN gives zero.
    pub fn from_f32_bits(bits: u32) -> (q: Q7)
        ensures
            q.0 == q7_of_f32(bits),
    {
        let (sign, exponent, fraction) = deconstruct_f32(bits);
        proof {
            lemma2_to64();
        }
        q7_from_fields(sign == 1, exponent as u64, fraction as u64, 23, 127, 0x80_0000)
    }

    /// The double-precision number that is exactly this many steps of 1/128,
    /// as its bit pattern. Zero steps give positive zero.
    ///
    /// Sign and size determine the pattern, and converting it back gives
    /// this value again.
    pub fn to_f64_bits(self) -> (bits: u64)
        ensures
            f64_is_finite(bits),
            f64_negative(bits) == (self.0 < 0),
            f64_magnitude(bits) == q7_abs(self) * pow2(1067),
            q7_of_f64(bits) == self.0,
    {
        let (negative, exponent, fraction) = fields_from_q7(self, 52, 1023);
        proof {
            lemma2_to64_rest();
            lemma_steps_round_trip(negative, q7_abs(self), 1074);
        }
        let sign: u64 = if negative {
            0x8000_0000_0000_0000
        } else {
            0
        };
        let bits: u64 = sign + exponent * 0x10_0000_0000_0000 + fraction;
        assert(bits / 0x10_0000_0000_0000 % 0x800 == exponent && bits % 0x10_0000_0000_0000
            == fraction && (bits >= 0x8000_0000_0000_0000u64 <==> sign != 0)) by (bit_vector)
            requires
                bits == sign + exponent * 0x10_0000_0000_0000 + fraction,
                sign == 0 || sign == 0x8000_0000_0000_0000u64,
                exponent <= 1023,
                fraction < 0x10_0000_0000_0000,
        ;
        bits
    }

    /// The single-precision number that is exactly this many steps of 1/128,
    /// as its bit pattern. Zero steps give positive zero.
    ///
    /// Sign and size determine the pattern, and converting it back gives
    /// this value again.
    pub fn to_f32_bits(self) -> (bits: u32)
        ensures
            f32_is_finite(bits),
            f32_negative(bits) == (self.0 < 0),
            f32_magnitude(bits) == q7_abs(self) * pow2(142),
            q7_of_f32(bits) == self.0,
    {
        let (negative, exponent, fraction) = fields_from_q7(self, 23, 127);
        proof {
            lemma2_to64();
            lemma_steps_round_trip(negative, q7_abs(self), 149);
        }
        let sign: u32 = if negative {
            0x8000_0000
        } else {
            0
        };
        let exponent: u32 = exponent as u32;
        let fraction: u32 = fraction as u32;
        let bits: u32 = sign + exponent * 0x80_0000 + fraction;
        assert(bits / 0x80_0000 % 0x100 == exponent && bits % 0x80_0000 == fraction && (bits
            >= 0x8000_0000u32 <==> sign != 0)) by (bit_vector)
            requires
                bits == sign + exponent * 0x80_0000 + fraction,
                sign == 0 || sign == 0x8000_0000u32,
                exponent <= 127,
                fraction < 0x80_0000,
        ;
        bits
    }
}

/// Converts the number that the fields of a pattern stand for to Q7. The
/// format is given by the number of its fraction bits, its bias, and the
/// weight of its hidden bit.
fn q7_from_fields(
    negative: bool,
    exponent: u64,
    fraction: u64,
    width: u64,
    bias: u64,
    hidden: u64,
) -> (q: Q7)
    requires
        7 <= width <= 52,
        8 <= bias <= 1023,
        hidden == pow2(width as nat),
        fraction < hidden,
        exponent <= 2 * bias + 1,
    ensures
        q.0 == (if exponent == 2 * bias + 1 && fraction != 0 {
            0
        } else {
            q7_steps(
                negative,
                magnitude(exponent as nat, fraction as nat, width as nat),
                (bias + width - 1) as nat,
            )
        }),
{
    proof {
        lemma_steps_by_exponent(exponent as nat, fraction as nat, width as nat, bias as nat);
        lemma2_to64_rest();
        if width < 52 {
            lemma_pow2_strictly_increases(width as nat, 52);
        }
    }
    if exponent == 2 * bias + 1 && fraction != 0 {
        Q7(0)
    } else if exponent >= bias {
        if negative {
            Q7(-128)
        } else {
            Q7(127)
        }
    } else if exponent + 7 < bias {
        Q7(0)
    } else {
        let significand: u64 = hidden + fraction;
        let shift: u64 = bias + width - 7 - exponent;
        let whole: u64 = significand >> shift;
        proof {
            lemma_u64_shr_is_div(significand, shift);
        }
        if negative {
            Q7(-(whole as i8))
        } else {
            Q7(whole as i8)
        }
    }
}

/// The fields of the number that is `q` steps of 1/128, which every format
/// with at least seven fraction bits holds exactly. The hidden bit of the
/// result is the highest set bit of the number of steps.
fn fields_from_q7(q: Q7, width: u64, bias: u64) -> (fields: (bool, u64, u64))
    requires
        7 <= width <= 52,
        8 <= bias <= 1023,
    ensures
        fields.0 == (q.0 < 0),
        fields.1 <= bias,
        fields.2 < pow2(width as nat),
        magnitude(fields.1 as nat, fields.2 as nat, width as nat) == q7_abs(q) * pow2(
            (bias + width - 8) as nat,
        ),
{
    let steps: i8 = q.0;
    if steps == 0 {
        proof {
            lemma_pow2_pos(width as nat);
        }
        return (false, 0, 0);
    }
    let negative = steps < 0;
    let size: u64 = if negative {
        (-(steps as i16)) as u64
    } else {
        steps as u64
    };
    let mut order: u64 = 0;
    let mut top: u64 = 1;
    proof {
        lemma2_to64();
    }
    while top * 2 <= size
        invariant
            1 <= top <= size <= 128,
            top == pow2(order as nat),
            order <= 7,
            top == 128 || order < 7,
        decreases size - top,
    {
        proof {
            lemma2_to64();
            lemma_pow2_adds(order as nat, 1);
        }
        top = top * 2;
        order = order + 1;
    }
    let room: u64 = width - order;
    let exponent: u64 = bias - 7 + order;
    proof {
        let unit = pow2(room as nat);
        let weight = pow2((exponent - 1) as nat);
        lemma_pow2_pos(room as nat);
        lemma_pow2_adds(order as nat, room as nat);
        lemma_pow2_adds(room as nat, (exponent - 1) as nat);
        lemma2_to64_rest();
        if width < 52 {
            lemma_pow2_strictly_increases(width as nat, 52);
        }
        assert((size - top) * unit < top * unit && top * unit + (size - top) * unit == size * unit)
            by (nonlinear_arith)
            requires
                top <= size < 2 * top,
                unit > 0,
        ;
        lemma_u64_shl_is_mul((size - top) as u64, room);
        assert((size * unit) * weight == size * (unit * weight)) by (nonlinear_arith);
    }
    let fraction: u64 = (size - top) << room;
    (negative, exponent, fraction)
}

/// A double-precision pattern is made of its three fields.
pub proof fn lemma_f64_fields_recompose(bits: u64)
    ensures
        f64_exponent(bits) < 0x800,
        f64_fraction(bits) < 0x10_0000_0000_0000,
        bits == (if f64_negative(bits) {
            0x8000_0000_0000_0000
        } else {
            0int
        }) + f64_exponent(bits) * 0x10_0000_0000_0000 + f64_fraction(bits),
{
    assert(bits / 0x10_0000_0000_0000 % 0x800 < 0x800 && bits % 0x10_0000_0000_0000
        < 0x10_0000_0000_0000 && bits == (if bits >= 0x8000_0000_0000_0000u64 {
        0x8000_0000_0000_0000u64
    } else {
        0u64
    }) + (bits / 0x10_0000_0000_0000 % 0x800) * 0x10_0000_0000_0000 + bits
        % 0x10_0000_0000_0000) by (bit_vector);
}

/// A single-precision pattern is made of its three fields.
pub proof fn lemma_f32_fields_recompose(bits: u32)
    ensures
        f32_exponent(bits) < 0x100,
        f32_fraction(bits) < 0x80_0000,
        bits == (if f32_negative(bits) {
            0x8000_0000
        } else {
            0int
        }) + f32_exponent(bits) * 0x80_0000 + f32_fraction(bits),
{
    assert(bits / 0x80_0000 % 0x100 < 0x100 && bits % 0x80_0000 < 0x80_0000 && bits == (if bits
        >= 0x8000_0000u32 {
        0x8000_0000u32
    } else {
        0u32
    }) + (bits / 0x80_0000 % 0x100) * 0x80_0000 + bits % 0x80_0000) by (bit_vector);
}

/// The size tells the fields: two pairs of exponent field and fraction field
/// that stand for numbers of the same size are the same pair.
pub proof fn lemma_magnitude_injective(
    exponent_a: nat,
    fraction_a: nat,
    exponent_b: nat,
    fraction_b: nat,
    width: nat,
)
    requires
        fraction_a < pow2(width),
        fraction_b < pow2(width),
        magnitude(exponent_a, fraction_a, width) == magnitude(exponent_b, fraction_b, width),
    ensures
        exponent_a == exponent_b,
        fraction_a == fraction_b,
{
    lemma_magnitude_bounds(exponent_a, fraction_a, width);
    lemma_magnitude_bounds(exponent_b, fraction_b, width);
    // With different exponent fields, the number with the smaller one would
    // lie below the power of two that the other one has reached.
    if width + exponent_a < width + exponent_b - 1 {
        lemma_pow2_strictly_increases(width + exponent_a, (width + exponent_b - 1) as nat);
    }
    if width + exponent_b < width + exponent_a - 1 {
        lemma_pow2_strictly_increases(width + exponent_b, (width + exponent_a - 1) as nat);
    }
    assert(exponent_a == exponent_b);
    if exponent_a > 0 {
        let weight = pow2((exponent_a - 1) as nat);
        lemma_pow2_pos((exponent_a - 1) as nat);
        assert(fraction_a == fraction_b) by (nonlinear_arith)
            requires
                (pow2(width) + fraction_a) * weight == (pow2(width) + fraction_b) * weight,
                weight > 0,
        ;
    }
}

/// Sign and size tell the pattern: two double-precision patterns with the
/// same sign bit that stand for numbers of the same size are the same
/// pattern.
pub proof fn lemma_f64_pattern_unique(a: u64, b: u64)
    requires
        f64_negative(a) == f64_negative(b),
        f64_magnitude(a) == f64_magnitude(b),
    ensures
        a == b,
{
    lemma2_to64_rest();
    lemma_magnitude_injective(
        f64_exponent(a),
        f64_fraction(a),
        f64_exponent(b),
        f64_fraction(b),
        52,
    );
    lemma_f64_fields_recompose(a);
    lemma_f64_fields_recompose(b);
}

/// Sign and size tell the pattern: two single-precision patterns with the
/// same sign bit that stand for numbers of the same size are the same
/// pattern.
pub proof fn lemma_f32_pattern_unique(a: u32, b: u32)
    requires
        f32_negative(a) == f32_negative(b),
        f32_magnitude(a) == f32_magnitude(b),
    ensures
        a == b,
{
    lemma2_to64();
    lemma_magnitude_injective(
        f32_exponent(a),
        f32_fraction(a),
        f32_exponent(b),
        f32_fraction(b),
        23,
    );
    lemma_f32_fields_recompose(a);
    lemma_f32_fields_recompose(b);
}

/// A number with a non-zero exponent field `e` lies between `2^(e - 1)` and
/// `2^e` times the weight of the hidden bit; one with a zero exponent field
/// lies below that weight.
proof fn lemma_magnitude_bounds(exponent: nat, fraction: nat, width: nat)
    requires
        fraction < pow2(width),
    ensures
        exponent == 0 ==> magnitude(exponent, fraction, width) < pow2(width),
        exponent > 0 ==> pow2((width + exponent - 1) as nat) <= magnitude(
            exponent,
            fraction,
            width,
        ) < pow2(width + exponent),
{
    if exponent > 0 {
        let hidden = pow2(width);
        let weight = pow2((exponent - 1) as nat);
        lemma_pow2_pos((exponent - 1) as nat);
        lemma_pow2_adds(width, (exponent - 1) as nat);
        lemma_pow2_adds((width + exponent - 1) as nat, 1);
        lemma2_to64();
        assert(hidden * weight <= (hidden + fraction) * weight < (hidden * weight) * 2)
            by (nonlinear_arith)
            requires
                0 <= fraction < hidden,
                weight > 0,
        ;
    }
}

/// What the three cases of the conversion come to: a number from 1 upwards
/// has at least 128 steps, one below 1/128 has none, and for one in between
/// the steps are the leading bits of its significand.
proof fn lemma_steps_by_exponent(exponent: nat, fraction: nat, width: nat, bias: nat)
    requires
        7 <= width,
        8 <= bias,
        fraction < pow2(width),
    ensures
        exponent >= bias ==> (magnitude(exponent, fraction, width) * 128) as int / (pow2(
            (bias + width - 1) as nat,
        ) as int) >= 128,
        exponent + 7 < bias ==> (magnitude(exponent, fraction, width) * 128) as int / (pow2(
            (bias + width - 1) as nat,
        ) as int) == 0,
        exponent < bias <= exponent + 7 ==> (magnitude(exponent, fraction, width) * 128) as int / (
        pow2((bias + width - 1) as nat) as int) == (pow2(width) + fraction) as int / (pow2(
            (bias + width - 7 - exponent) as nat,
        ) as int) < 128,
{
    let size = magnitude(exponent, fraction, width);
    let scale = (bias + width - 1) as nat;
    let unit = pow2(scale) as int;
    lemma_magnitude_bounds(exponent, fraction, width);
    lemma_pow2_pos(scale);
    lemma2_to64();
    if exponent >= bias {
        // The size is at least 2^scale.
        if width + exponent - 1 > scale {
            lemma_pow2_strictly_increases(scale, (width + exponent - 1) as nat);
        }
        lemma_div_is_ordered(unit * 128, (size * 128) as int, unit);
        lemma_div_multiples_vanish(128, unit);
    } else if exponent + 7 < bias {
        // The size is below 2^(scale - 7).
        let below = (bias + width - 8) as nat;
        lemma_pow2_adds(below, 7);
        if exponent == 0 {
            if width < below {
                lemma_pow2_strictly_increases(width, below);
            }
        } else if width + exponent < below {
            lemma_pow2_strictly_increases(width + exponent, below);
        }
        lemma_basic_div((size * 128) as int, unit);
    } else {
        // 128 times the size and 2^scale share the factor 2^(exponent + 6).
        let significand = (pow2(width) + fraction) as int;
        let shift = (bias + width - 7 - exponent) as nat;
        let low = pow2(shift) as int;
        let common = pow2(exponent + 6) as int;
        lemma_pow2_pos(shift);
        lemma_pow2_pos(exponent + 6);
        lemma_pow2_adds((exponent - 1) as nat, 7);
        lemma_pow2_adds(exponent + 6, shift);
        assert(size * 128 == common * significand) by (nonlinear_arith)
            requires
                size == significand * pow2((exponent - 1) as nat),
                common == pow2((exponent - 1) as nat) * 128,
        ;
        lemma_div_multiples_vanish_quotient(common, significand, low);
        // The significand is below 2^(width + 1), and at most seven of its
        // bits are left of the shift.
        let high = (width + 1 - shift) as nat;
        lemma_pow2_adds(shift, high);
        lemma_pow2_adds(width, 1);
        if high < 7 {
            lemma_pow2_strictly_increases(high, 7);
        }
        lemma_multiply_divide_lt(significand, low, pow2(high) as int);
    }
}

/// The number of steps survives the way to a floating-point number and
/// back: the number that is `steps` steps of 1/128 converts to `steps`
/// again, or to `-steps` with a negative sign, or to -128 for 128 negative
/// steps.
proof fn lemma_steps_round_trip(negative: bool, steps: nat, scale: nat)
    requires
        steps <= 128,
        scale >= 7,
    ensures
        q7_steps(negative, steps * pow2((scale - 7) as nat), scale) == (if negative {
            -(steps as int)
        } else if steps == 128 {
            127
        } else {
            steps as int
        }),
{
    let unit = pow2((scale - 7) as nat);
    lemma_pow2_pos((scale - 7) as nat);
    lemma_pow2_adds((scale - 7) as nat, 7);
    lemma2_to64();
    assert((steps * unit) * 128 == (unit * 128) * steps) by (nonlinear_arith);
    lemma_div_multiples_vanish(steps as int, (unit * 128) as int);
}

} // verus!
