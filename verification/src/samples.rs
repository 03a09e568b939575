//! Normalising decoded audio: every frame becomes interleaved 32-bit float
//! samples, whatever format and layout the decoder produced.
//!
//! A float sample is handled as its IEEE-754 bit pattern (`f32::to_bits`,
//! `f64::to_bits`). Singles are only moved. Doubles are rounded to single.
//! Integer samples are divided by their full scale: 128 for unsigned 8-bit
//! samples, whose middle is 128, and `2^15`, `2^31` and `2^63` for the signed
//! widths. Where the result has more than 24 significant bits it is rounded
//! to the nearest single, to the even one of two that are equally near. All
//! of it is whole-number arithmetic on the patterns.

use vstd::arithmetic::div_mod::{
    lemma_fundamental_div_mod,
    lemma_fundamental_div_mod_converse_div,
    lemma_fundamental_div_mod_converse_mod,
    lemma_mod_bound,
};
use vstd::arithmetic::power2::{
    lemma2_to64,
    lemma_pow2_adds,
    lemma_pow2_pos,
    lemma_pow2_strictly_increases,
    lemma_pow2_subtracts,
    lemma_pow2_unfold,
    pow2,
};
use vstd::prelude::*;

verus! {

/// The sign bit of a single-precision pattern.
pub open spec fn f32_sign(bits: u32) -> int {
    bits as int / 0x8000_0000
}

/// The biased exponent of a single-precision pattern.
pub open spec fn f32_exponent(bits: u32) -> int {
    (bits as int / 0x80_0000) % 0x100
}

/// The stored fraction of a single-precision pattern.
pub open spec fn f32_fraction(bits: u32) -> int {
    bits as int % 0x80_0000
}

/// The absolute value of a 16-bit sample.
pub open spec fn magnitude(sample: i16) -> int {
    if sample < 0 {
        -(sample as int)
    } else {
        sample as int
    }
}

/// Whether `bits` is the single-precision pattern of `sample / 32768`.
///
/// A normal single with sign `s`, biased exponent `e` and fraction `f` has the
/// value `(-1)^s * (2^23 + f) * 2^(e - 150)`. Times 32768 that is
/// `(-1)^s * (2^23 + f) / 2^(135 - e)`, so the pattern stands for
/// `sample / 32768` exactly when the sign agrees and
/// `2^23 + f == |sample| * 2^(135 - e)`. Zero is the all-zero pattern.
pub open spec fn is_scaled_sample(bits: u32, sample: i16) -> bool {
    if sample == 0 {
        bits == 0
    } else {
        &&& f32_sign(bits) == (if sample < 0 {
            1int
        } else {
            0int
        })
        &&& 112 <= f32_exponent(bits) <= 127
        &&& 0x80_0000 + f32_fraction(bits) == magnitude(sample) * pow2(
            (135 - f32_exponent(bits)) as nat,
        )
    }
}

/// The single-precision pattern of `sample / 32768`.
pub open spec fn i16_as_f32_bits(sample: i16) -> u32 {
    choose|bits: u32| is_scaled_sample(bits, sample)
}

proof fn lemma_pow2_at_least_doubles(low: nat, high: nat)
    requires
        low < high,
    ensures
        pow2(high) >= 2 * pow2(low),
{
    lemma_pow2_unfold(low + 1);
    if low + 1 < high {
        lemma_pow2_strictly_increases(low + 1, high);
    }
}

proof fn lemma_exponent_is_forced(sample: i16, first: int, second: int, a: int, b: int)
    requires
        sample != 0,
        112 <= first <= 127,
        112 <= second <= 127,
        0x80_0000 <= a < 0x100_0000,
        0x80_0000 <= b < 0x100_0000,
        a == magnitude(sample) * pow2((135 - first) as nat),
        b == magnitude(sample) * pow2((135 - second) as nat),
    ensures
        first >= second,
{
    if first < second {
        let size = magnitude(sample);
        let small = pow2((135 - second) as nat) as int;
        let large = pow2((135 - first) as nat) as int;
        lemma_pow2_at_least_doubles((135 - second) as nat, (135 - first) as nat);
        assert(size * large >= 2 * (size * small)) by (nonlinear_arith)
            requires
                size > 0,
                large >= 2 * small,
        ;
    }
}

/// At most one pattern stands for `sample / 32768`.
pub proof fn lemma_scaled_sample_unique(first: u32, second: u32, sample: i16)
    requires
        is_scaled_sample(first, sample),
        is_scaled_sample(second, sample),
    ensures
        first == second,
{
    if sample != 0 {
        let e1 = f32_exponent(first);
        let e2 = f32_exponent(second);
        let a = 0x80_0000 + f32_fraction(first);
        let b = 0x80_0000 + f32_fraction(second);
        lemma_exponent_is_forced(sample, e1, e2, a, b);
        lemma_exponent_is_forced(sample, e2, e1, b, a);
        assert(e1 == e2);
        assert(f32_fraction(first) == f32_fraction(second));
        assert(f32_sign(first) == f32_sign(second));
        lemma_pattern_from_fields(first);
        lemma_pattern_from_fields(second);
    }
}

proof fn lemma_pattern_from_fields(bits: u32)
    ensures
        bits as int == f32_sign(bits) * 0x8000_0000 + f32_exponent(bits) * 0x80_0000
            + f32_fraction(bits),
{
    let upper = bits as int / 0x80_0000;
    assert(bits as int == 0x80_0000 * upper + bits as int % 0x80_0000);
    assert(upper == 0x100 * (upper / 0x100) + upper % 0x100);
    assert(upper / 0x100 == bits as int / 0x8000_0000);
}

proof fn lemma_fields_of_pattern(sign: int, exponent: int, fraction: int)
    requires
        0 <= sign <= 1,
        0 <= exponent < 0x100,
        0 <= fraction < 0x80_0000,
    ensures
        0 <= sign * 0x8000_0000 + exponent * 0x80_0000 + fraction <= u32::MAX,
        f32_sign((sign * 0x8000_0000 + exponent * 0x80_0000 + fraction) as u32) == sign,
        f32_exponent((sign * 0x8000_0000 + exponent * 0x80_0000 + fraction) as u32) == exponent,
        f32_fraction((sign * 0x8000_0000 + exponent * 0x80_0000 + fraction) as u32) == fraction,
{
    let bits = sign * 0x8000_0000 + exponent * 0x80_0000 + fraction;
    let upper = sign * 0x100 + exponent;
    assert(bits == upper * 0x80_0000 + fraction);
    lemma_fundamental_div_mod_converse_div(bits, 0x80_0000, upper, fraction);
    lemma_fundamental_div_mod_converse_mod(bits, 0x80_0000, upper, fraction);
    lemma_fundamental_div_mod_converse_mod(upper, 0x100, sign, exponent);
    lemma_fundamental_div_mod_converse_div(bits, 0x8000_0000, sign, exponent * 0x80_0000 + fraction);
}

/// Converts a 16-bit sample to the float sample `sample / 32768`.
pub fn i16_to_f32_bits(sample: i16) -> (bits: u32)
    ensures
        is_scaled_sample(bits, sample),
        bits == i16_as_f32_bits(sample),
{
    if sample == 0 {
        proof {
            assert(is_scaled_sample(0u32, sample));
            lemma_scaled_sample_unique(0u32, i16_as_f32_bits(sample), sample);
        }
        return 0;
    }
    let wide: i32 = sample as i32;
    let size: u32 = if wide < 0 {
        (0 - wide) as u32
    } else {
        wide as u32
    };
    let mut significand: u32 = size;
    let mut shift: u32 = 0;
    proof {
        lemma2_to64();
    }
    while significand < 0x80_0000
        invariant
            size == magnitude(sample),
            1 <= size <= 0x8000,
            shift <= 23,
            significand == size * pow2(shift as nat),
            1 <= significand < 0x100_0000,
        decreases 0x100_0000 - significand,
    {
        proof {
            lemma2_to64();
            if shift == 23 {
                assert(size * pow2(23) >= pow2(23)) by (nonlinear_arith)
                    requires
                        size >= 1,
                ;
            }
            lemma_pow2_unfold((shift + 1) as nat);
            let power = pow2(shift as nat) as int;
            assert(size * (2 * power) == 2 * (size * power)) by (nonlinear_arith);
        }
        significand = significand * 2;
        shift = shift + 1;
    }
    proof {
        lemma2_to64();
        if shift < 8 {
            let power = pow2(shift as nat) as int;
            assert(power <= 0x80) by {
                if shift < 7 {
                    lemma_pow2_strictly_increases(shift as nat, 7);
                }
            }
            assert(size * power <= 0x8000 * 0x80) by (nonlinear_arith)
                requires
                    0 <= size <= 0x8000,
                    0 <= power <= 0x80,
            ;
        }
    }
    let exponent: u32 = 135 - shift;
    let fraction: u32 = significand - 0x80_0000;
    let sign: u32 = if wide < 0 {
        0x8000_0000
    } else {
        0
    };
    proof {
        lemma_fields_of_pattern(
            if wide < 0 {
                1
            } else {
                0
            },
            exponent as int,
            fraction as int,
        );
    }
    let bits: u32 = sign + exponent * 0x80_0000 + fraction;
    proof {
        assert(is_scaled_sample(bits, sample));
        lemma_scaled_sample_unique(bits, i16_as_f32_bits(sample), sample);
    }
    bits
}

/// The place of the highest set bit of a positive number.
pub open spec fn floor_log2(number: int) -> int
    decreases number,
{
    if number <= 1 {
        0
    } else {
        1 + floor_log2(number / 2)
    }
}

/// `number / unit` rounded to the nearest whole number; where two are
/// equally near, to the even one.
pub open spec fn rounded_quotient(number: int, unit: int) -> int {
    let whole = number / unit;
    let rest = number % unit;
    if 2 * rest > unit || (2 * rest == unit && whole % 2 == 1) {
        whole + 1
    } else {
        whole
    }
}

/// The pattern of the single nearest to `magnitude / 2^scale`, with the given
/// sign; of two singles equally near, the one with the even fraction.
///
/// With `p` the place of the highest set bit, the quotient lies in
/// `[2^(p - scale), 2^(p - scale + 1))`, so the biased exponent is
/// `p - scale + 127`, and the 24-bit significand is the magnitude brought to
/// 24 bits: widened exactly when it is shorter, rounded when it is longer. A
/// significand that rounds up to `2^24` carries into the exponent, which the
/// sum below does by itself.
pub open spec fn fraction_as_f32_bits(negative: bool, magnitude: int, scale: nat) -> u32 {
    if magnitude <= 0 {
        0
    } else {
        let place = floor_log2(magnitude);
        let significand = if place <= 23 {
            magnitude * pow2((23 - place) as nat)
        } else {
            rounded_quotient(magnitude, pow2((place - 23) as nat) as int)
        };
        ((if negative {
            0x8000_0000int
        } else {
            0int
        }) + (place - scale + 126) * 0x80_0000 + significand) as u32
    }
}

/// The absolute value of a whole number.
pub open spec fn absolute(number: int) -> int {
    if number < 0 {
        -number
    } else {
        number
    }
}

/// The pattern of the single `(sample - 128) / 128`.
pub open spec fn u8_as_f32_bits(sample: u8) -> u32 {
    fraction_as_f32_bits(sample < 128, absolute(sample - 128), 7)
}

/// The pattern of the single nearest to `sample / 2^31`.
pub open spec fn i32_as_f32_bits(sample: i32) -> u32 {
    fraction_as_f32_bits(sample < 0, absolute(sample as int), 31)
}

/// The pattern of the single nearest to `sample / 2^63`.
pub open spec fn i64_as_f32_bits(sample: i64) -> u32 {
    fraction_as_f32_bits(sample < 0, absolute(sample as int), 63)
}

/// The pattern of the single nearest to the double with the pattern
/// `double`; of two singles equally near, the one with the even fraction.
///
/// A double has one sign bit, 11 exponent bits and 52 fraction bits. Infinity
/// stays infinity and a NaN stays a quiet NaN with the top of its payload.
/// Doubles too large for a single become infinity, doubles below half of the
/// smallest single become zero, and those in between the smallest single and
/// the smallest normal single lose the bits a subnormal single cannot hold.
pub open spec fn f64_as_f32_bits(double: u64) -> u32 {
    let sign = if double >= 0x8000_0000_0000_0000 {
        0x8000_0000int
    } else {
        0int
    };
    let exponent = (double as int / 0x10_0000_0000_0000) % 0x800;
    let fraction = double as int % 0x10_0000_0000_0000;
    let significand = 0x10_0000_0000_0000 + fraction;
    let magnitude = if exponent == 0x7ff {
        if fraction == 0 {
            0x7f80_0000
        } else {
            0x7fc0_0000 + (fraction / 0x2000_0000) % 0x40_0000
        }
    } else if exponent < 872 {
        0
    } else if exponent <= 896 {
        rounded_quotient(significand, pow2((926 - exponent) as nat) as int)
    } else if exponent >= 1151 {
        0x7f80_0000
    } else {
        (exponent - 897) * 0x80_0000 + rounded_quotient(significand, 0x2000_0000)
    };
    (sign + magnitude) as u32
}

/// A number between a power of two and the next has its highest set bit at
/// that power's place.
pub proof fn lemma_floor_log2_between(number: int, place: nat)
    requires
        pow2(place) <= number < 2 * pow2(place),
    ensures
        floor_log2(number) == place,
    decreases place,
{
    lemma2_to64();
    if place > 0 {
        lemma_pow2_unfold(place);
        lemma_pow2_pos((place - 1) as nat);
        lemma_floor_log2_between(number / 2, (place - 1) as nat);
    }
}

fn round_quotient(number: u64, unit: u64) -> (rounded: u64)
    requires
        unit > 0,
        number < u64::MAX,
    ensures
        rounded == rounded_quotient(number as int, unit as int),
        rounded == number / unit || rounded == number / unit + 1,
{
    let whole: u64 = number / unit;
    let rest: u64 = number % unit;
    if rest > unit - rest || (rest == unit - rest && whole % 2 == 1) {
        whole + 1
    } else {
        whole
    }
}

fn fraction_to_f32_bits(negative: bool, magnitude: u64, scale: u32) -> (bits: u32)
    requires
        scale <= 63,
        magnitude <= pow2(scale as nat),
    ensures
        bits == fraction_as_f32_bits(negative, magnitude as int, scale as nat),
{
    if magnitude == 0 {
        return 0;
    }
    let mut place: u32 = 0;
    let mut top: u64 = 1;
    proof {
        lemma2_to64();
    }
    while top <= magnitude / 2
        invariant
            top == pow2(place as nat),
            1 <= top <= magnitude,
            place <= 63,
        decreases magnitude - top,
    {
        proof {
            lemma2_to64();
            lemma_pow2_unfold((place + 1) as nat);
            if place == 63 {
                lemma_pow2_unfold(64);
            }
        }
        top = top * 2;
        place = place + 1;
    }
    proof {
        lemma_floor_log2_between(magnitude as int, place as nat);
        if place > scale {
            lemma_pow2_strictly_increases(scale as nat, place as nat);
        }
        if scale < 63 {
            lemma_pow2_strictly_increases(scale as nat, 63);
        }
        lemma_pow2_unfold(64);
        lemma2_to64();
    }
    let significand: u64 = if place <= 23 {
        proof {
            lemma_pow2_adds(place as nat, (23 - place) as nat);
            lemma_pow2_subtracts(place as nat, 23);
            lemma_pow2_pos((23 - place) as nat);
        }
        let factor: u64 = 0x80_0000 / top;
        assert(magnitude * factor < 0x100_0000) by (nonlinear_arith)
            requires
                magnitude < 2 * top,
                top * factor == 0x80_0000,
                factor > 0,
        ;
        magnitude * factor
    } else {
        proof {
            lemma_pow2_adds(23, (place - 23) as nat);
            lemma_pow2_subtracts(23, place as nat);
            lemma_pow2_pos((place - 23) as nat);
        }
        let unit: u64 = top / 0x80_0000;
        proof {
            let whole = magnitude as int / unit as int;
            lemma_fundamental_div_mod(magnitude as int, unit as int);
            lemma_mod_bound(magnitude as int, unit as int);
            assert(whole < 0x100_0000) by (nonlinear_arith)
                requires
                    magnitude == unit * whole + magnitude % unit,
                    0 <= magnitude % unit,
                    magnitude < 0x100_0000 * unit,
                    unit > 0,
            ;
        }
        round_quotient(magnitude, unit)
    };
    let exponent: u32 = place + 126 - scale;
    let sign: u32 = if negative {
        0x8000_0000
    } else {
        0
    };
    sign + exponent * 0x80_0000 + significand as u32
}

/// Converts an unsigned 8-bit sample, whose middle is 128, to the float
/// sample `(sample - 128) / 128`.
pub fn u8_to_f32_bits(sample: u8) -> (bits: u32)
    ensures
        bits == u8_as_f32_bits(sample),
{
    proof {
        lemma2_to64();
    }
    if sample < 128 {
        fraction_to_f32_bits(true, (128 - sample) as u64, 7)
    } else {
        fraction_to_f32_bits(false, (sample - 128) as u64, 7)
    }
}

/// Converts a 32-bit sample to the float sample nearest to `sample / 2^31`.
pub fn i32_to_f32_bits(sample: i32) -> (bits: u32)
    ensures
        bits == i32_as_f32_bits(sample),
{
    proof {
        lemma2_to64();
    }
    let wide: i64 = sample as i64;
    if wide < 0 {
        fraction_to_f32_bits(true, (0 - wide) as u64, 31)
    } else {
        fraction_to_f32_bits(false, wide as u64, 31)
    }
}

/// Converts a 64-bit sample to the float sample nearest to `sample / 2^63`.
pub fn i64_to_f32_bits(sample: i64) -> (bits: u32)
    ensures
        bits == i64_as_f32_bits(sample),
{
    proof {
        lemma2_to64();
        lemma_pow2_unfold(64);
    }
    let wide: i128 = sample as i128;
    if wide < 0 {
        fraction_to_f32_bits(true, (0 - wide) as u64, 63)
    } else {
        fraction_to_f32_bits(false, wide as u64, 63)
    }
}

/// Converts a double, given as its bit pattern, to the nearest single.
pub fn f64_to_f32_bits(double: u64) -> (bits: u32)
    ensures
        bits == f64_as_f32_bits(double),
{
    let sign: u32 = if double >= 0x8000_0000_0000_0000 {
        0x8000_0000
    } else {
        0
    };
    let exponent: u64 = (double / 0x10_0000_0000_0000) % 0x800;
    let fraction: u64 = double % 0x10_0000_0000_0000;
    let significand: u64 = 0x10_0000_0000_0000 + fraction;
    let magnitude: u32 = if exponent == 0x7ff {
        if fraction == 0 {
            0x7f80_0000
        } else {
            0x7fc0_0000 + ((fraction / 0x2000_0000) % 0x40_0000) as u32
        }
    } else if exponent < 872 {
        0
    } else if exponent <= 896 {
        let mut unit: u64 = 0x4000_0000;
        let mut reached: u64 = 896;
        proof {
            lemma2_to64();
        }
        while reached > exponent
            invariant
                872 <= exponent <= reached <= 896,
                unit == pow2((926 - reached) as nat),
                0x4000_0000 <= unit <= 0x40_0000_0000_0000,
            decreases reached,
        {
            proof {
                lemma_pow2_unfold((926 - reached + 1) as nat);
                lemma_unit_is_bounded((reached - 1) as nat);
            }
            unit = unit * 2;
            reached = reached - 1;
        }
        proof {
            let whole = significand as int / unit as int;
            lemma_fundamental_div_mod(significand as int, unit as int);
            lemma_mod_bound(significand as int, unit as int);
            assert(whole < 0x80_0000) by (nonlinear_arith)
                requires
                    significand == unit * whole + significand % unit,
                    0 <= significand % unit,
                    significand < 0x20_0000_0000_0000,
                    unit >= 0x4000_0000,
            ;
        }
        round_quotient(significand, unit) as u32
    } else if exponent >= 1151 {
        0x7f80_0000
    } else {
        ((exponent - 897) as u32) * 0x80_0000 + round_quotient(significand, 0x2000_0000) as u32
    };
    sign + magnitude
}

proof fn lemma_unit_is_bounded(reached: nat)
    requires
        872 <= reached <= 896,
    ensures
        pow2((926 - reached) as nat) <= 0x40_0000_0000_0000,
{
    if reached > 872 {
        lemma_pow2_strictly_increases((926 - reached) as nat, 54);
    }
    lemma2_to64();
    lemma_pow2_adds(32, 22);
}

/// How far `magnitude / 2^scale` lies above the magnitude of the normal
/// single `bits`, counted in units of which `2^scale` make one step of that
/// single's fraction.
///
/// The single's magnitude is `(2^23 + f) * 2^(e - 150)`. Both numbers times
/// `2^(scale + 150 - e)` are whole: `magnitude * 2^(150 - e)` and
/// `(2^23 + f) * 2^scale`.
pub open spec fn f32_error(bits: u32, magnitude: int, scale: nat) -> int {
    magnitude * pow2((150 - f32_exponent(bits)) as nat) - (0x80_0000 + f32_fraction(bits)) * pow2(
        scale,
    )
}

/// Whether the normal single `bits` is the single nearest to
/// `magnitude / 2^scale` with the given sign: the quotient lies no more than
/// half a step of the fraction above it and no more than half a step below
/// it (a quarter where the fraction is zero, since the singles below a power
/// of two lie twice as dense), and where it lies exactly halfway to the
/// neighbour above or the one below in the same density, the fraction is
/// even.
pub open spec fn is_nearest_single(bits: u32, negative: bool, magnitude: int, scale: nat) -> bool {
    let error = f32_error(bits, magnitude, scale);
    let step = pow2(scale) as int;
    &&& f32_sign(bits) == (if negative {
        1int
    } else {
        0int
    })
    &&& 1 <= f32_exponent(bits) <= 150
    &&& -step <= 2 * error <= step
    &&& f32_fraction(bits) == 0 ==> -step <= 4 * error
    &&& (2 * error == step || 2 * error == -step) ==> f32_fraction(bits) % 2 == 0
}

/// Rounding a quotient gives the nearest whole number: the number differs
/// from the rounded quotient times the unit by no more than half a unit, and
/// where it lies exactly halfway the rounded quotient is even.
pub proof fn lemma_rounded_quotient_is_nearest(number: int, unit: int)
    requires
        0 <= number,
        0 < unit,
    ensures
        0 <= rounded_quotient(number, unit),
        -unit <= 2 * (number - rounded_quotient(number, unit) * unit) <= unit,
        (2 * (number - rounded_quotient(number, unit) * unit) == unit || 2 * (number
            - rounded_quotient(number, unit) * unit) == -unit) ==> rounded_quotient(number, unit)
            % 2 == 0,
        number % unit == 0 ==> rounded_quotient(number, unit) * unit == number,
{
    let whole = number / unit;
    let rest = number % unit;
    lemma_fundamental_div_mod(number, unit);
    lemma_mod_bound(number, unit);
    assert(0 <= whole) by (nonlinear_arith)
        requires
            number == unit * whole + rest,
            0 <= number,
            0 <= rest < unit,
    ;
    assert((whole + 1) * unit == unit * whole + unit) by (nonlinear_arith);
    assert(whole * unit == unit * whole) by (nonlinear_arith);
}

/// A positive number lies between the power of two at the place of its
/// highest set bit and the next power.
pub proof fn lemma_floor_log2_bounds(number: int)
    requires
        1 <= number,
    ensures
        0 <= floor_log2(number),
        pow2(floor_log2(number) as nat) <= number < 2 * pow2(floor_log2(number) as nat),
    decreases number,
{
    lemma2_to64();
    if number > 1 {
        lemma_floor_log2_bounds(number / 2);
        lemma_pow2_unfold((floor_log2(number / 2) + 1) as nat);
    }
}

/// What `fraction_as_f32_bits` gives is the single nearest to the quotient,
/// with ties going to the even fraction; a magnitude of at most 24 bits is
/// converted exactly.
pub proof fn lemma_fraction_is_nearest(negative: bool, magnitude: int, scale: nat)
    requires
        1 <= magnitude <= pow2(scale),
        scale <= 63,
    ensures
        is_nearest_single(
            fraction_as_f32_bits(negative, magnitude, scale),
            negative,
            magnitude,
            scale,
        ),
        magnitude < 0x100_0000 ==> f32_error(
            fraction_as_f32_bits(negative, magnitude, scale),
            magnitude,
            scale,
        ) == 0,
{
    let bits = fraction_as_f32_bits(negative, magnitude, scale);
    lemma_floor_log2_bounds(magnitude);
    let place = floor_log2(magnitude);
    let top = pow2(place as nat) as int;
    if place > scale {
        lemma_pow2_strictly_increases(scale, place as nat);
    }
    if place > 23 {
        lemma_pow2_strictly_increases(23, place as nat);
    }
    let sign: int = if negative {
        1
    } else {
        0
    };
    let step = pow2(scale) as int;
    lemma2_to64();
    lemma_pow2_pos(scale);
    if place <= 23 {
        let widen = pow2((23 - place) as nat) as int;
        lemma_pow2_adds(place as nat, (23 - place) as nat);
        lemma_pow2_pos((23 - place) as nat);
        let significand = magnitude * widen;
        assert(0x80_0000 <= significand < 0x100_0000) by (nonlinear_arith)
            requires
                significand == magnitude * widen,
                top * widen == 0x80_0000,
                top <= magnitude < 2 * top,
                widen > 0,
        ;
        let exponent = place - scale + 127;
        lemma_fields_of_pattern(sign, exponent, significand - 0x80_0000);
        lemma_pow2_adds((23 - place) as nat, scale);
        assert(magnitude * (widen * step) == (magnitude * widen) * step) by (nonlinear_arith);
        assert(f32_error(bits, magnitude, scale) == 0);
    } else {
        let shift = (place - 23) as nat;
        let unit = pow2(shift) as int;
        lemma_pow2_adds(23, shift);
        lemma_pow2_pos(shift);
        let whole = magnitude / unit;
        let rest = magnitude % unit;
        lemma_fundamental_div_mod(magnitude, unit);
        lemma_mod_bound(magnitude, unit);
        assert(0x80_0000 <= whole < 0x100_0000) by (nonlinear_arith)
            requires
                magnitude == unit * whole + rest,
                0 <= rest < unit,
                0x80_0000 * unit <= magnitude < 0x100_0000 * unit,
        ;
        let significand = rounded_quotient(magnitude, unit);
        let up = significand - whole;
        assert(up == 0 || up == 1);
        if significand < 0x100_0000 {
            let exponent = place - scale + 127;
            lemma_fields_of_pattern(sign, exponent, significand - 0x80_0000);
            let fine = pow2((scale - shift) as nat) as int;
            lemma_pow2_adds((scale - shift) as nat, shift);
            lemma_pow2_pos((scale - shift) as nat);
            let error = f32_error(bits, magnitude, scale);
            assert(error == magnitude * fine - significand * step);
            assert(error == fine * (rest - up * unit)) by (nonlinear_arith)
                requires
                    error == magnitude * fine - significand * step,
                    magnitude == unit * whole + rest,
                    significand == whole + up,
                    step == fine * unit,
            ;
            assert(fine * (2 * rest) == 2 * (fine * rest)) by (nonlinear_arith);
            assert(fine * (2 * (rest - unit)) == 2 * (fine * (rest - unit))) by (nonlinear_arith);
            if up == 0 {
                assert(error == fine * rest) by (nonlinear_arith)
                    requires
                        error == fine * (rest - up * unit),
                        up == 0,
                ;
                assert(0 <= fine * (2 * rest) <= fine * unit) by (nonlinear_arith)
                    requires
                        0 <= 2 * rest <= unit,
                        fine > 0,
                ;
                if 2 * error == step {
                    assert(2 * rest == unit) by (nonlinear_arith)
                        requires
                            fine * (2 * rest) == fine * unit,
                            fine > 0,
                    ;
                }
            } else {
                assert(error == fine * (rest - unit)) by (nonlinear_arith)
                    requires
                        error == fine * (rest - up * unit),
                        up == 1,
                ;
                assert(-(fine * unit) <= fine * (2 * (rest - unit)) < 0) by (nonlinear_arith)
                    requires
                        -unit <= 2 * (rest - unit) < 0,
                        fine > 0,
                ;
                if 2 * error == -step {
                    assert(2 * (rest - unit) == -unit) by (nonlinear_arith)
                        requires
                            fine * (2 * (rest - unit)) == -(fine * unit),
                            fine > 0,
                    ;
                }
            }
        } else {
            if place == scale {
                assert(whole == 0x80_0000) by (nonlinear_arith)
                    requires
                        magnitude == unit * whole + rest,
                        0 <= rest < unit,
                        magnitude == 0x80_0000 * unit,
                ;
            }
            let exponent = place - scale + 128;
            lemma_fields_of_pattern(sign, exponent, 0);
            let fine = pow2((scale - shift - 1) as nat) as int;
            lemma_pow2_adds((scale - shift - 1) as nat, shift);
            lemma_pow2_unfold(scale);
            lemma_pow2_adds((scale - 1) as nat, 0);
            lemma_pow2_pos((scale - shift - 1) as nat);
            let error = f32_error(bits, magnitude, scale);
            assert(pow2((scale - 1) as nat) == fine * unit);
            assert(step == 2 * (fine * unit));
            assert(error == magnitude * fine - 0x80_0000 * step);
            assert(error == fine * (rest - unit)) by (nonlinear_arith)
                requires
                    error == magnitude * fine - 0x80_0000 * step,
                    magnitude == unit * whole + rest,
                    whole == 0xff_ffff,
                    step == 2 * (fine * unit),
            ;
            assert(-(fine * unit) <= 2 * (fine * (rest - unit)) < 0) by (nonlinear_arith)
                requires
                    -unit <= 2 * (rest - unit) < 0,
                    fine > 0,
            ;
        }
    }
}

/// The 16-bit samples follow the same rule as the other widths: dividing by
/// `2^15` and rounding gives the pattern that stands for `sample / 32768`
/// exactly.
pub proof fn lemma_i16_follows_the_rule(sample: i16)
    ensures
        i16_as_f32_bits(sample) == fraction_as_f32_bits(sample < 0, magnitude(sample), 15),
{
    let bits = fraction_as_f32_bits(sample < 0, magnitude(sample), 15);
    lemma2_to64();
    if sample == 0 {
        assert(is_scaled_sample(0u32, sample));
        lemma_scaled_sample_unique(0u32, i16_as_f32_bits(sample), sample);
    } else {
        let size = magnitude(sample);
        lemma_fraction_is_nearest(sample < 0, size, 15);
        let exponent = f32_exponent(bits);
        let whole = 0x80_0000 + f32_fraction(bits);
        let coarse = pow2((150 - exponent) as nat) as int;
        assert(size * coarse == whole * 0x8000);
        if exponent > 127 {
            lemma_pow2_strictly_increases((150 - exponent) as nat, 23);
            assert(size * coarse < 0x8000 * 0x80_0000) by (nonlinear_arith)
                requires
                    0 < size <= 0x8000,
                    0 <= coarse < 0x80_0000,
            ;
        }
        if exponent < 112 {
            if exponent < 111 {
                lemma_pow2_strictly_increases(39, (150 - exponent) as nat);
            }
            lemma_pow2_adds(32, 7);
            assert(size * coarse >= 0x80_0000_0000) by (nonlinear_arith)
                requires
                    1 <= size,
                    coarse >= 0x80_0000_0000,
            ;
        }
        let fine = pow2((135 - exponent) as nat) as int;
        lemma_pow2_adds((135 - exponent) as nat, 15);
        assert(size * fine == whole) by (nonlinear_arith)
            requires
                size * coarse == whole * 0x8000,
                coarse == fine * 0x8000,
        ;
        assert(is_scaled_sample(bits, sample));
        lemma_scaled_sample_unique(bits, i16_as_f32_bits(sample), sample);
    }
}

/// An unsigned 8-bit sample is converted exactly.
pub proof fn lemma_u8_is_exact(sample: u8)
    requires
        sample != 128,
    ensures
        is_nearest_single(u8_as_f32_bits(sample), sample < 128, absolute(sample - 128), 7),
        f32_error(u8_as_f32_bits(sample), absolute(sample - 128), 7) == 0,
{
    lemma2_to64();
    lemma_fraction_is_nearest(sample < 128, absolute(sample - 128), 7);
}

/// A 32-bit sample becomes the single nearest to `sample / 2^31`.
pub proof fn lemma_i32_is_nearest(sample: i32)
    requires
        sample != 0,
    ensures
        is_nearest_single(i32_as_f32_bits(sample), sample < 0, absolute(sample as int), 31),
{
    lemma2_to64();
    lemma_fraction_is_nearest(sample < 0, absolute(sample as int), 31);
}

/// A 64-bit sample becomes the single nearest to `sample / 2^63`.
pub proof fn lemma_i64_is_nearest(sample: i64)
    requires
        sample != 0,
    ensures
        is_nearest_single(i64_as_f32_bits(sample), sample < 0, absolute(sample as int), 63),
{
    lemma2_to64();
    lemma_pow2_unfold(64);
    lemma_fraction_is_nearest(sample < 0, absolute(sample as int), 63);
}

/// For a double in the range of the normal singles, what `f64_as_f32_bits`
/// gives is the nearest single, with ties going to the even fraction. The
/// double's significand `2^52 + fraction` stands `2^29` times finer than the
/// single's `2^23 + f`, and twice that when rounding carries into the next
/// power of two. Where that power lies beyond the largest single, the
/// pattern is that of infinity.
pub proof fn lemma_narrowed_is_nearest(double: u64)
    requires
        897 <= (double as int / 0x10_0000_0000_0000) % 0x800 <= 1150,
    ensures
        ({
            let bits = f64_as_f32_bits(double);
            let exponent = (double as int / 0x10_0000_0000_0000) % 0x800;
            let significand = 0x10_0000_0000_0000 + double as int % 0x10_0000_0000_0000;
            let above = significand - (0x80_0000 + f32_fraction(bits)) * 0x2000_0000;
            let carried = significand - (0x80_0000 + f32_fraction(bits)) * 0x4000_0000;
            &&& f32_sign(bits) == double as int / 0x8000_0000_0000_0000
            &&& f32_exponent(bits) == exponent - 896 || f32_exponent(bits) == exponent - 895
            &&& f32_exponent(bits) == exponent - 896 ==> {
                &&& -0x2000_0000 <= 2 * above <= 0x2000_0000
                &&& (2 * above == 0x2000_0000 || 2 * above == -0x2000_0000) ==> f32_fraction(bits)
                    % 2 == 0
            }
            &&& f32_exponent(bits) == exponent - 895 ==> {
                &&& f32_fraction(bits) == 0
                &&& -0x2000_0000 <= 2 * carried <= 0
            }
        }),
{
    let exponent = (double as int / 0x10_0000_0000_0000) % 0x800;
    let significand = 0x10_0000_0000_0000 + double as int % 0x10_0000_0000_0000;
    let sign: int = if double >= 0x8000_0000_0000_0000 {
        1
    } else {
        0
    };
    let rounded = rounded_quotient(significand, 0x2000_0000);
    lemma_rounded_quotient_is_nearest(significand, 0x2000_0000);
    assert(0x80_0000 <= rounded <= 0x100_0000);
    if rounded < 0x100_0000 {
        lemma_fields_of_pattern(sign, exponent - 896, rounded - 0x80_0000);
    } else {
        lemma_fields_of_pattern(sign, exponent - 895, 0);
    }
}

/// For a double below the smallest normal single, what `f64_as_f32_bits`
/// gives is the nearest multiple of the smallest single, `2^-149`, with ties
/// going to the even multiple: the double is its significand times
/// `2^-149 / 2^(926 - exponent)`.
pub proof fn lemma_narrowed_small_is_nearest(double: u64)
    requires
        872 <= (double as int / 0x10_0000_0000_0000) % 0x800 <= 896,
    ensures
        ({
            let bits = f64_as_f32_bits(double);
            let exponent = (double as int / 0x10_0000_0000_0000) % 0x800;
            let significand = 0x10_0000_0000_0000 + double as int % 0x10_0000_0000_0000;
            let unit = pow2((926 - exponent) as nat) as int;
            let multiple = bits as int % 0x8000_0000;
            &&& f32_sign(bits) == double as int / 0x8000_0000_0000_0000
            &&& 0 <= multiple <= 0x80_0000
            &&& -unit <= 2 * (significand - multiple * unit) <= unit
            &&& (2 * (significand - multiple * unit) == unit || 2 * (significand - multiple * unit)
                == -unit) ==> multiple % 2 == 0
        }),
{
    let exponent = (double as int / 0x10_0000_0000_0000) % 0x800;
    let significand = 0x10_0000_0000_0000 + double as int % 0x10_0000_0000_0000;
    let unit = pow2((926 - exponent) as nat) as int;
    lemma2_to64();
    if exponent < 896 {
        lemma_pow2_strictly_increases(30, (926 - exponent) as nat);
    }
    let rounded = rounded_quotient(significand, unit);
    lemma_rounded_quotient_is_nearest(significand, unit);
    let whole = significand / unit;
    lemma_fundamental_div_mod(significand, unit);
    lemma_mod_bound(significand, unit);
    assert(whole < 0x80_0000) by (nonlinear_arith)
        requires
            significand == unit * whole + significand % unit,
            0 <= significand % unit,
            significand < 0x20_0000_0000_0000,
            unit >= 0x4000_0000,
    ;
}

/// How a decoder lays out the samples of a frame.
#[derive(Clone, Copy, Debug, PartialEq, Eq, Structural)]
pub enum SampleLayout {
    /// One plane holds every channel, interleaved sample by sample.
    Packed,
    /// Each channel has a plane of its own.
    Planar,
}

/// The planes of a decoded frame, by sample format.
#[derive(Debug)]
pub enum SampleData {
    /// Unsigned 8-bit integer samples; 128 is the middle.
    U8(Vec<Vec<u8>>),
    /// Signed 16-bit integer samples.
    I16(Vec<Vec<i16>>),
    /// Signed 32-bit integer samples.
    I32(Vec<Vec<i32>>),
    /// Signed 64-bit integer samples.
    I64(Vec<Vec<i64>>),
    /// 32-bit float samples, each as its bit pattern.
    F32(Vec<Vec<u32>>),
    /// 64-bit float samples, each as its bit pattern.
    F64(Vec<Vec<u64>>),
}

/// One decoded audio frame as the decoder hands it over.
#[derive(Debug)]
pub struct AudioFrame {
    pub layout: SampleLayout,
    /// The number of channels.
    pub channels: usize,
    /// The number of samples in each channel.
    pub samples: usize,
    pub data: SampleData,
}

/// Why a frame could not be normalised.
#[derive(Clone, Copy, Debug, PartialEq, Eq, Structural)]
pub enum AudioError {
    /// The planes hold fewer samples than the frame claims.
    MalformedFrame,
}

/// Whether the planes hold what a frame of this shape reads: one plane of
/// `samples * channels` values when packed, `channels` planes of `samples`
/// values each when planar. Planes may be longer than needed.
pub open spec fn planes_fit<T>(
    planes: Seq<Vec<T>>,
    layout: SampleLayout,
    channels: nat,
    samples: nat,
) -> bool {
    &&& samples * channels <= usize::MAX
    &&& match layout {
        SampleLayout::Packed => planes.len() >= 1 && planes[0]@.len() >= samples * channels,
        SampleLayout::Planar => planes.len() >= channels && forall|c: int|
            0 <= c < channels ==> (#[trigger] planes[c])@.len() >= samples,
    }
}

/// The value that belongs at `position` of the interleaved output: channel
/// `position % channels` at sample `position / channels`.
pub open spec fn plane_sample<T>(
    planes: Seq<Vec<T>>,
    layout: SampleLayout,
    channels: nat,
    position: int,
) -> T {
    match layout {
        SampleLayout::Packed => planes[0]@[position],
        SampleLayout::Planar => planes[position % (channels as int)]@[position / (channels as int)],
    }
}

/// All values of a frame in interleaved order.
pub open spec fn interleaved<T>(
    planes: Seq<Vec<T>>,
    layout: SampleLayout,
    channels: nat,
    samples: nat,
) -> Seq<T> {
    Seq::new(samples * channels, |position: int| plane_sample(planes, layout, channels, position))
}

impl AudioFrame {
    /// Whether the planes hold as many samples as the frame claims.
    pub open spec fn fits(&self) -> bool {
        let channels = self.channels as nat;
        let samples = self.samples as nat;
        match self.data {
            SampleData::U8(planes) => planes_fit(planes@, self.layout, channels, samples),
            SampleData::I16(planes) => planes_fit(planes@, self.layout, channels, samples),
            SampleData::I32(planes) => planes_fit(planes@, self.layout, channels, samples),
            SampleData::I64(planes) => planes_fit(planes@, self.layout, channels, samples),
            SampleData::F32(planes) => planes_fit(planes@, self.layout, channels, samples),
            SampleData::F64(planes) => planes_fit(planes@, self.layout, channels, samples),
        }
    }

    /// The frame as interleaved float samples: singles unchanged, doubles
    /// rounded to single, and every integer sample divided by its full scale
    /// (128 around the middle 128 for 8 bits, `2^15`, `2^31`, `2^63`) and
    /// rounded to the nearest single.
    pub open spec fn normalized(&self) -> Seq<u32> {
        let channels = self.channels as nat;
        let samples = self.samples as nat;
        match self.data {
            SampleData::U8(planes) => interleaved(
                planes@,
                self.layout,
                channels,
                samples,
            ).map_values(|sample: u8| u8_as_f32_bits(sample)),
            SampleData::I16(planes) => interleaved(
                planes@,
                self.layout,
                channels,
                samples,
            ).map_values(|sample: i16| i16_as_f32_bits(sample)),
            SampleData::I32(planes) => interleaved(
                planes@,
                self.layout,
                channels,
                samples,
            ).map_values(|sample: i32| i32_as_f32_bits(sample)),
            SampleData::I64(planes) => interleaved(
                planes@,
                self.layout,
                channels,
                samples,
            ).map_values(|sample: i64| i64_as_f32_bits(sample)),
            SampleData::F32(planes) => interleaved(planes@, self.layout, channels, samples),
            SampleData::F64(planes) => interleaved(
                planes@,
                self.layout,
                channels,
                samples,
            ).map_values(|sample: u64| f64_as_f32_bits(sample)),
        }
    }
}

/// In a planar frame, sample `index` of channel `channel` lands at
/// `index * channels + channel` of the output; a packed frame is copied in
/// the order in which it was stored.
pub proof fn lemma_interleaved_position<T>(
    planes: Seq<Vec<T>>,
    layout: SampleLayout,
    channels: nat,
    samples: nat,
    channel: int,
    index: int,
)
    requires
        0 <= channel < channels,
        0 <= index < samples,
    ensures
        0 <= index * channels + channel < interleaved(planes, layout, channels, samples).len(),
        layout == SampleLayout::Planar ==> interleaved(planes, layout, channels, samples)[index
            * channels + channel] == planes[channel]@[index],
        layout == SampleLayout::Packed ==> interleaved(planes, layout, channels, samples)[index
            * channels + channel] == planes[0]@[index * channels + channel],
{
    let position = index * channels + channel;
    assert(0 <= position < samples * channels) by (nonlinear_arith)
        requires
            position == index * channels + channel,
            0 <= channel < channels,
            0 <= index < samples,
    ;
    lemma_fundamental_div_mod_converse_mod(position, channels as int, index, channel);
    lemma_fundamental_div_mod_converse_div(position, channels as int, index, channel);
}

/// Gathers the values of a frame in interleaved order, or nothing when the
/// planes are too short for the claimed shape.
fn interleave<T: Copy>(
    planes: &Vec<Vec<T>>,
    layout: SampleLayout,
    channels: usize,
    samples: usize,
) -> (result: Option<Vec<T>>)
    ensures
        result is Some <==> planes_fit(planes@, layout, channels as nat, samples as nat),
        result is Some ==> result->Some_0@ == interleaved(
            planes@,
            layout,
            channels as nat,
            samples as nat,
        ),
{
    let total: usize = match samples.checked_mul(channels) {
        Some(total) => total,
        None => {
            return None;
        },
    };
    match layout {
        SampleLayout::Packed => {
            if planes.len() < 1 {
                return None;
            }
            let plane = &planes[0];
            if plane.len() < total {
                return None;
            }
            let mut output: Vec<T> = Vec::new();
            let mut position: usize = 0;
            while position < total
                invariant
                    planes@.len() >= 1,
                    position <= total <= plane@.len(),
                    *plane == planes@[0],
                    output@.len() == position,
                    forall|k: int| 0 <= k < position ==> output@[k] == plane@[k],
                decreases total - position,
            {
                output.push(plane[position]);
                position = position + 1;
            }
            assert(output@ =~= interleaved(planes@, layout, channels as nat, samples as nat));
            Some(output)
        },
        SampleLayout::Planar => {
            if planes.len() < channels {
                return None;
            }
            let mut checked: usize = 0;
            while checked < channels
                invariant
                    layout == SampleLayout::Planar,
                    checked <= channels <= planes@.len(),
                    forall|c: int| 0 <= c < checked ==> (#[trigger] planes@[c])@.len() >= samples,
                decreases channels - checked,
            {
                if planes[checked].len() < samples {
                    return None;
                }
                checked = checked + 1;
            }
            let mut output: Vec<T> = Vec::new();
            let mut index: usize = 0;
            while index < samples
                invariant
                    layout == SampleLayout::Planar,
                    index <= samples,
                    channels <= planes@.len(),
                    total == samples * channels,
                    forall|c: int| 0 <= c < channels ==> (#[trigger] planes@[c])@.len() >= samples,
                    output@.len() == index * channels,
                    forall|k: int|
                        0 <= k < output@.len() ==> output@[k] == plane_sample(
                            planes@,
                            layout,
                            channels as nat,
                            k,
                        ),
                decreases samples - index,
            {
                let mut channel: usize = 0;
                while channel < channels
                    invariant
                        index < samples,
                        channel <= channels <= planes@.len(),
                        layout == SampleLayout::Planar,
                        forall|c: int|
                            0 <= c < channels ==> (#[trigger] planes@[c])@.len() >= samples,
                        output@.len() == index * channels + channel,
                        forall|k: int|
                            0 <= k < output@.len() ==> output@[k] == plane_sample(
                                planes@,
                                layout,
                                channels as nat,
                                k,
                            ),
                    decreases channels - channel,
                {
                    proof {
                        let position = index * channels + channel;
                        lemma_fundamental_div_mod_converse_mod(
                            position,
                            channels as int,
                            index as int,
                            channel as int,
                        );
                        lemma_fundamental_div_mod_converse_div(
                            position,
                            channels as int,
                            index as int,
                            channel as int,
                        );
                    }
                    output.push(planes[channel][index]);
                    channel = channel + 1;
                }
                assert(index * channels + channels == (index + 1) * channels)
                    by (nonlinear_arith);
                index = index + 1;
            }
            assert(output@ =~= interleaved(planes@, layout, channels as nat, samples as nat));
            Some(output)
        },
    }
}

fn scale_u8(raw: &Vec<u8>) -> (output: Vec<u32>)
    ensures
        output@ == raw@.map_values(|sample: u8| u8_as_f32_bits(sample)),
{
    let mut output: Vec<u32> = Vec::new();
    let mut position: usize = 0;
    while position < raw.len()
        invariant
            position <= raw@.len(),
            output@.len() == position,
            forall|k: int| 0 <= k < position ==> output@[k] == u8_as_f32_bits(raw@[k]),
        decreases raw@.len() - position,
    {
        output.push(u8_to_f32_bits(raw[position]));
        position = position + 1;
    }
    assert(output@ =~= raw@.map_values(|sample: u8| u8_as_f32_bits(sample)));
    output
}

fn scale_i16(raw: &Vec<i16>) -> (output: Vec<u32>)
    ensures
        output@ == raw@.map_values(|sample: i16| i16_as_f32_bits(sample)),
{
    let mut output: Vec<u32> = Vec::new();
    let mut position: usize = 0;
    while position < raw.len()
        invariant
            position <= raw@.len(),
            output@.len() == position,
            forall|k: int| 0 <= k < position ==> output@[k] == i16_as_f32_bits(raw@[k]),
        decreases raw@.len() - position,
    {
        output.push(i16_to_f32_bits(raw[position]));
        position = position + 1;
    }
    assert(output@ =~= raw@.map_values(|sample: i16| i16_as_f32_bits(sample)));
    output
}

fn scale_i32(raw: &Vec<i32>) -> (output: Vec<u32>)
    ensures
        output@ == raw@.map_values(|sample: i32| i32_as_f32_bits(sample)),
{
    let mut output: Vec<u32> = Vec::new();
    let mut position: usize = 0;
    while position < raw.len()
        invariant
            position <= raw@.len(),
            output@.len() == position,
            forall|k: int| 0 <= k < position ==> output@[k] == i32_as_f32_bits(raw@[k]),
        decreases raw@.len() - position,
    {
        output.push(i32_to_f32_bits(raw[position]));
        position = position + 1;
    }
    assert(output@ =~= raw@.map_values(|sample: i32| i32_as_f32_bits(sample)));
    output
}

fn scale_i64(raw: &Vec<i64>) -> (output: Vec<u32>)
    ensures
        output@ == raw@.map_values(|sample: i64| i64_as_f32_bits(sample)),
{
    let mut output: Vec<u32> = Vec::new();
    let mut position: usize = 0;
    while position < raw.len()
        invariant
            position <= raw@.len(),
            output@.len() == position,
            forall|k: int| 0 <= k < position ==> output@[k] == i64_as_f32_bits(raw@[k]),
        decreases raw@.len() - position,
    {
        output.push(i64_to_f32_bits(raw[position]));
        position = position + 1;
    }
    assert(output@ =~= raw@.map_values(|sample: i64| i64_as_f32_bits(sample)));
    output
}

fn narrow_f64(raw: &Vec<u64>) -> (output: Vec<u32>)
    ensures
        output@ == raw@.map_values(|sample: u64| f64_as_f32_bits(sample)),
{
    let mut output: Vec<u32> = Vec::new();
    let mut position: usize = 0;
    while position < raw.len()
        invariant
            position <= raw@.len(),
            output@.len() == position,
            forall|k: int| 0 <= k < position ==> output@[k] == f64_as_f32_bits(raw@[k]),
        decreases raw@.len() - position,
    {
        output.push(f64_to_f32_bits(raw[position]));
        position = position + 1;
    }
    assert(output@ =~= raw@.map_values(|sample: u64| f64_as_f32_bits(sample)));
    output
}

/// Normalises one decoded frame to interleaved float samples, whatever its
/// sample format.
///
/// Singles are copied, doubles are rounded to single, integer samples are
/// divided by their full scale, and planar layouts are interleaved. The only
/// frame that is refused is one whose planes are shorter than its shape
/// requires.
pub fn convert_audio_frame(frame: &AudioFrame) -> (result: Result<Vec<u32>, AudioError>)
    ensures
        !frame.fits() ==> result is Err && result->Err_0 == AudioError::MalformedFrame,
        frame.fits() ==> result is Ok && result->Ok_0@ == frame.normalized(),
{
    match &frame.data {
        SampleData::U8(planes) => {
            match interleave(planes, frame.layout, frame.channels, frame.samples) {
                Some(raw) => Ok(scale_u8(&raw)),
                None => Err(AudioError::MalformedFrame),
            }
        },
        SampleData::I16(planes) => {
            match interleave(planes, frame.layout, frame.channels, frame.samples) {
                Some(raw) => Ok(scale_i16(&raw)),
                None => Err(AudioError::MalformedFrame),
            }
        },
        SampleData::I32(planes) => {
            match interleave(planes, frame.layout, frame.channels, frame.samples) {
                Some(raw) => Ok(scale_i32(&raw)),
                None => Err(AudioError::MalformedFrame),
            }
        },
        SampleData::I64(planes) => {
            match interleave(planes, frame.layout, frame.channels, frame.samples) {
                Some(raw) => Ok(scale_i64(&raw)),
                None => Err(AudioError::MalformedFrame),
            }
        },
        SampleData::F32(planes) => {
            match interleave(planes, frame.layout, frame.channels, frame.samples) {
                Some(output) => Ok(output),
                None => Err(AudioError::MalformedFrame),
            }
        },
        SampleData::F64(planes) => {
            match interleave(planes, frame.layout, frame.channels, frame.samples) {
                Some(raw) => Ok(narrow_f64(&raw)),
                None => Err(AudioError::MalformedFrame),
            }
        },
    }
}

} // verus!
