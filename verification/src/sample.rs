//! Conversion of one raw sample to canonical 16-bit PCM.
//!
//! A raw sample is an IEEE-754 single-precision number, held as its bit
//! pattern. The conversion is `round(clamp(x, -1, 1) * 32767)`, where the
//! product is taken exactly and halves round away from zero. A NaN converts
//! to silence.

use vstd::prelude::*;
use vstd::arithmetic::div_mod::*;
use vstd::arithmetic::mul::*;
use vstd::arithmetic::power2::*;
use vstd::bits::*;

verus! {

/// The largest magnitude of a canonical sample.
pub const PCM_FULL_SCALE: i16 = 32767;

/// The sign bit of a raw sample.
pub const SIGN_MASK: u32 = 0x8000_0000;

/// Whether the sign bit is set.
pub open spec fn sign_of(bits: u32) -> bool {
    bits >= SIGN_MASK
}

/// The eight-bit biased exponent field.
pub open spec fn exponent_of(bits: u32) -> nat {
    ((bits as nat) / 0x80_0000) % 256
}

/// The twenty-three-bit fraction field.
pub open spec fn fraction_of(bits: u32) -> nat {
    (bits as nat) % 0x80_0000
}

/// Whether the pattern is a NaN.
pub open spec fn is_nan(bits: u32) -> bool {
    exponent_of(bits) == 255 && fraction_of(bits) != 0
}

/// The magnitude of a finite number, times 2^149. Every finite
/// single-precision number is a whole multiple of 2^-149, so this is exact.
pub open spec fn magnitude_scaled(bits: u32) -> nat {
    if exponent_of(bits) == 0 {
        fraction_of(bits)
    } else {
        (0x80_0000 + fraction_of(bits)) * pow2((exponent_of(bits) - 1) as nat)
    }
}

/// `round(min(|x|, 1) * 32767)` for a number that is not a NaN: the
/// magnitude of the canonical sample.
pub open spec fn quantized_magnitude(bits: u32) -> nat {
    if exponent_of(bits) >= 127 {
        32767
    } else {
        (magnitude_scaled(bits) * 32767 + pow2(148)) / pow2(149)
    }
}

/// The canonical sample of a raw sample: `round(clamp(x, -1, 1) * 32767)`,
/// and zero for a NaN.
pub open spec fn pcm_of(bits: u32) -> int {
    if is_nan(bits) {
        0
    } else if sign_of(bits) {
        -(quantized_magnitude(bits) as int)
    } else {
        quantized_magnitude(bits) as int
    }
}

/// The canonical samples of a sequence of raw samples, one for one.
pub open spec fn pcm_seq(raw: Seq<u32>) -> Seq<i16> {
    Seq::new(raw.len(), |i: int| pcm_of(raw[i]) as i16)
}

/// Below 2^-17 in magnitude a sample rounds to zero.
proof fn lemma_small_magnitude(bits: u32)
    requires
        exponent_of(bits) < 110,
    ensures
        quantized_magnitude(bits) == 0,
{
    let e = exponent_of(bits);
    let f = fraction_of(bits);
    let m = magnitude_scaled(bits);
    lemma2_to64();
    lemma_pow2_adds(24, 108);
    lemma_pow2_adds(132, 15);
    lemma_pow2_adds(147, 1);
    lemma_pow2_adds(148, 1);
    assert(m < pow2(132)) by {
        if e == 0 {
            lemma_pow2_strictly_increases(23, 132);
        } else {
            let k = (e - 1) as nat;
            if k < 108 {
                lemma_pow2_strictly_increases(k, 108);
            }
            lemma_pow2_pos(k);
            assert((0x80_0000 + f) * pow2(k) < 0x100_0000 * pow2(108)) by (nonlinear_arith)
                requires
                    0x80_0000 + f < 0x100_0000,
                    0 < pow2(k) <= pow2(108),
            ;
        }
    }
    assert(m * 32767 < pow2(132) * 32768) by (nonlinear_arith)
        requires
            m < pow2(132),
    ;
    assert(m * 32767 + pow2(148) < pow2(149));
    lemma_basic_div((m * 32767 + pow2(148)) as int, pow2(149) as int);
}

/// Between 2^-17 and 1 in magnitude, rounding at scale 2^149 is rounding of
/// the 39-bit product at the scale of its own exponent.
proof fn lemma_rescale(bits: u32)
    requires
        110 <= exponent_of(bits) < 127,
    ensures
        quantized_magnitude(bits) == ((0x80_0000 + fraction_of(bits)) * 32767 + pow2(
            (149 - exponent_of(bits)) as nat,
        )) / pow2((150 - exponent_of(bits)) as nat),
        quantized_magnitude(bits) <= 32767,
{
    let e = exponent_of(bits);
    let s = (0x80_0000 + fraction_of(bits)) as int;
    let k = pow2((e - 1) as nat) as int;
    let h = pow2((149 - e) as nat) as int;
    let d = pow2((150 - e) as nat) as int;
    lemma_pow2_pos((e - 1) as nat);
    lemma_pow2_pos((149 - e) as nat);
    lemma_pow2_pos((150 - e) as nat);
    lemma_pow2_adds((e - 1) as nat, (150 - e) as nat);
    lemma_pow2_adds((e - 1) as nat, (149 - e) as nat);
    assert(pow2(149) == k * d);
    assert(pow2(148) == k * h);
    assert(s * k * 32767 + k * h == k * (s * 32767 + h)) by (nonlinear_arith);
    lemma_div_multiples_vanish_quotient(k, s * 32767 + h, d);
    assert(magnitude_scaled(bits) * 32767 + pow2(148) == k * (s * 32767 + h));
    // The quotient stays within full scale: s < 2^24 <= d and h is half of d.
    lemma_pow2_adds((149 - e) as nat, 1);
    lemma2_to64();
    assert(d == 2 * h);
    assert(d >= 0x100_0000) by {
        if 150 - e > 24 {
            lemma_pow2_strictly_increases(24, (150 - e) as nat);
        }
    }
    assert(s * 32767 + h < 32768 * d) by (nonlinear_arith)
        requires
            0 <= s < d,
            d == 2 * h,
            h > 0,
    ;
    lemma_div_by_multiple_is_strongly_ordered(s * 32767 + h, 32768 * d, 32768, d);
    lemma_div_by_multiple(32768, d);
}

/// Converts one raw sample to canonical PCM.
pub fn sample_to_pcm(bits: u32) -> (pcm: i16)
    ensures
        pcm == pcm_of(bits),
        -PCM_FULL_SCALE <= pcm <= PCM_FULL_SCALE,
{
    let exponent: u32 = (bits >> 23) & 0xff;
    let fraction: u32 = bits & 0x7f_ffff;
    let negative: bool = bits >= SIGN_MASK;
    proof {
        assert((bits >> 23) & 0xff == (bits / 0x80_0000) % 256) by (bit_vector);
        assert(bits & 0x7f_ffff == bits % 0x80_0000) by (bit_vector);
        assert(exponent == exponent_of(bits));
        assert(fraction == fraction_of(bits));
    }
    if exponent == 255 && fraction != 0 {
        return 0;
    }
    let magnitude: i16 = if exponent >= 127 {
        PCM_FULL_SCALE
    } else if exponent < 110 {
        proof {
            lemma_small_magnitude(bits);
        }
        0
    } else {
        let significand: u64 = 0x80_0000 + fraction as u64;
        let shift: u64 = (150 - exponent) as u64;
        let half: u64 = 1u64 << (shift - 1);
        proof {
            lemma_rescale(bits);
            lemma2_to64();
            lemma_pow2_strictly_increases((shift - 1) as nat, 40);
            assert(pow2(40) == 0x100_0000_0000) by {
                lemma2_to64_rest();
            }
            lemma_u64_shl_is_mul(1u64, (shift - 1) as u64);
            assert(half == pow2((149 - exponent) as nat));
            lemma_u64_shr_is_div((significand * 32767 + half) as u64, shift);
        }
        let rounded: u64 = (significand * 32767 + half) >> shift;
        rounded as i16
    };
    if negative {
        -magnitude
    } else {
        magnitude
    }
}

} // verus!
