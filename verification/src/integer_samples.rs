//! Capture formats with integer samples, brought to the raw representation.
//!
//! A signed 16-bit sample `x` stands for `x / 32767`; an unsigned one for
//! `(x - 32767.5) / 32767.5`. The raw sample is the single-precision number
//! nearest to that quotient, halves to the even significand.

use vstd::prelude::*;
use vstd::arithmetic::div_mod::*;
use vstd::arithmetic::mul::*;
use vstd::arithmetic::power2::*;
use crate::sample::SIGN_MASK;
use crate::sample::exponent_of;
use crate::sample::fraction_of;
use crate::sample::is_nan;
use crate::sample::magnitude_scaled;
use crate::sample::pcm_of;
use crate::sample::quantized_magnitude;
use crate::sample::sign_of;

verus! {

/// Whether `scale` is the binary scale at which the quotient `n / d` has a
/// significand of exactly 24 bits: `2^23 <= n * 2^scale / d < 2^24`.
pub open spec fn normalizes(n: nat, d: nat, scale: nat) -> bool {
    pow2(23) * d <= n * pow2(scale) < pow2(24) * d
}

/// The bits of the single-precision number nearest to `n / d`, for a
/// quotient that is zero or lies in the normal range below 2^24: the
/// quotient is scaled to a 24-bit significand, the significand is rounded to
/// the nearest integer, halves to the even one, and exponent and significand
/// are put together.
pub open spec fn ratio_bits(n: nat, d: nat) -> nat {
    if n == 0 {
        0
    } else {
        let scale = choose|scale: nat| normalizes(n, d, scale);
        let significand = (n * pow2(scale)) / d;
        let rest = (n * pow2(scale)) % d;
        let up: nat = if 2 * rest > d || (2 * rest == d && significand % 2 == 1) {
            1
        } else {
            0
        };
        ((149 - scale) * pow2(23) + significand + up) as nat
    }
}

/// The raw sample of a signed 16-bit sample: the number nearest to
/// `x / 32767`.
pub open spec fn raw_of_i16(sample: i16) -> nat {
    if sample < 0 {
        (SIGN_MASK + ratio_bits((-sample) as nat, 32767)) as nat
    } else {
        ratio_bits(sample as nat, 32767)
    }
}

/// The raw sample of an unsigned 16-bit sample: the number nearest to
/// `(x - 32767.5) / 32767.5`, which is `(2x - 65535) / 65535`.
pub open spec fn raw_of_u16(sample: u16) -> nat {
    if 2 * sample < 65535 {
        (SIGN_MASK + ratio_bits((65535 - 2 * sample) as nat, 65535)) as nat
    } else {
        ratio_bits((2 * sample - 65535) as nat, 65535)
    }
}

/// Only one scale normalizes a quotient.
proof fn lemma_scale_is_unique(n: nat, d: nat, a: nat, b: nat)
    requires
        normalizes(n, d, a),
        normalizes(n, d, b),
    ensures
        a == b,
{
    if a < b {
        lemma_scale_order(n, d, a, b);
    } else if b < a {
        lemma_scale_order(n, d, b, a);
    }
}

/// A larger scale overshoots what a smaller one normalizes.
proof fn lemma_scale_order(n: nat, d: nat, a: nat, b: nat)
    requires
        a < b,
        pow2(23) * d <= n * pow2(a),
    ensures
        n * pow2(b) >= pow2(24) * d,
{
    lemma_pow2_adds(a, 1);
    lemma2_to64();
    if a + 1 < b {
        lemma_pow2_strictly_increases(a + 1, b);
    }
    assert(n * pow2(b) >= n * pow2(a + 1)) by (nonlinear_arith)
        requires
            pow2(b) >= pow2(a + 1),
    ;
    assert(n * pow2(a + 1) == 2 * (n * pow2(a))) by (nonlinear_arith)
        requires
            pow2(a + 1) == pow2(a) * 2,
    ;
    assert(pow2(24) * d == 2 * (pow2(23) * d)) by (nonlinear_arith)
        requires
            pow2(24) == 2 * pow2(23),
    ;
}

/// Some scale at or above `from` normalizes a quotient that is still below
/// 2^24 at `from`.
proof fn lemma_scale_exists(n: nat, d: nat, from: nat)
    requires
        n > 0,
        d > 0,
        n * pow2(from) < pow2(24) * d,
    ensures
        exists|scale: nat| from <= scale && #[trigger] normalizes(n, d, scale),
    decreases pow2(24) * d - n * pow2(from),
{
    lemma2_to64();
    lemma_pow2_pos(from);
    if pow2(23) * d <= n * pow2(from) {
        assert(normalizes(n, d, from));
    } else {
        lemma_pow2_adds(from, 1);
        assert(n * pow2(from + 1) == 2 * (n * pow2(from))) by (nonlinear_arith)
            requires
                pow2(from + 1) == pow2(from) * 2,
        ;
        assert(pow2(24) * d == 2 * (pow2(23) * d)) by (nonlinear_arith)
            requires
                pow2(24) == 2 * pow2(23),
        ;
        assert(n * pow2(from) >= 1) by (nonlinear_arith)
            requires
                n >= 1,
                pow2(from) >= 1,
        ;
        lemma_scale_exists(n, d, from + 1);
    }
}

/// The shape of the bits of a quotient: at the scale that normalizes it, a
/// significand of 24 bits (or 2^24, when rounding carried) that misses the
/// scaled quotient by at most one half.
proof fn lemma_ratio_shape(n: nat, d: nat) -> (shape: (nat, nat))
    requires
        n > 0,
        0 < d <= 0x1_0000,
        n < pow2(24) * d,
    ensures
        normalizes(n, d, shape.0),
        shape.0 <= 40,
        pow2(23) <= shape.1 <= pow2(24),
        ratio_bits(n, d) == (149 - shape.0) * pow2(23) + shape.1,
        2 * (d * shape.1 - n * pow2(shape.0)) <= d,
        2 * (n * pow2(shape.0) - d * shape.1) <= d,
{
    lemma2_to64();
    assert(n * pow2(0) < pow2(24) * d);
    lemma_scale_exists(n, d, 0);
    let scale = choose|scale: nat| normalizes(n, d, scale);
    if scale > 40 {
        lemma2_to64_rest();
        if scale > 41 {
            lemma_pow2_strictly_increases(41, scale);
        }
        assert(n * pow2(scale) >= pow2(scale)) by (nonlinear_arith)
            requires
                n >= 1,
        ;
        assert(pow2(24) * d <= 0x100_0000 * 0x1_0000) by (nonlinear_arith)
            requires
                pow2(24) == 0x100_0000,
                d <= 0x1_0000,
        ;
        assert(false);
    }
    let scaled = (n * pow2(scale)) as int;
    let significand = scaled / (d as int);
    let rest = scaled % (d as int);
    let up: int = if 2 * rest > d || (2 * rest == d && significand % 2 == 1) {
        1
    } else {
        0
    };
    lemma_fundamental_div_mod(scaled, d as int);
    lemma_mod_bound(scaled, d as int);
    lemma_div_is_ordered((pow2(23) * d) as int, scaled, d as int);
    lemma_div_by_multiple(pow2(23) as int, d as int);
    lemma_div_by_multiple_is_strongly_ordered(
        scaled,
        (pow2(24) * d) as int,
        pow2(24) as int,
        d as int,
    );
    lemma_div_by_multiple(pow2(24) as int, d as int);
    assert(d * (significand + up) - scaled == d * up - rest) by (nonlinear_arith)
        requires
            scaled == d * significand + rest,
    ;
    (scale, (significand + up) as nat)
}

/// The exponent field and the magnitude of bits put together from an
/// exponent and a significand that may have carried.
proof fn lemma_assembled(bits: u32, low: nat, significand: nat)
    requires
        low <= 253,
        pow2(23) <= significand <= pow2(24),
        bits == low * pow2(23) + significand,
    ensures
        !sign_of(bits),
        !is_nan(bits),
        exponent_of(bits) == if significand == pow2(24) {
            low + 2
        } else {
            low + 1
        },
        magnitude_scaled(bits) == significand * pow2(low),
        magnitude_scaled((bits + SIGN_MASK) as u32) == significand * pow2(low),
        exponent_of((bits + SIGN_MASK) as u32) == exponent_of(bits),
        !is_nan((bits + SIGN_MASK) as u32),
        sign_of((bits + SIGN_MASK) as u32),
{
    lemma2_to64();
    let signed = (bits + SIGN_MASK) as u32;
    assert(low * 0x80_0000 <= 253 * 0x80_0000);
    if significand == pow2(24) {
        assert(bits == (low + 2) * 0x80_0000);
        assert(fraction_of(bits) == 0);
        assert(fraction_of(signed) == 0);
        lemma_pow2_adds(low, 1);
        assert(0x80_0000 * pow2(low + 1) == 0x100_0000 * pow2(low)) by (nonlinear_arith)
            requires
                pow2(low + 1) == pow2(low) * 2,
        ;
    } else {
        let fraction = (significand - 0x80_0000) as nat;
        assert(bits == (low + 1) * 0x80_0000 + fraction);
        assert(fraction_of(bits) == fraction);
        assert(fraction_of(signed) == fraction);
    }
}

/// A signed 16-bit sample that is brought to the raw representation and
/// from there to canonical PCM comes out as it went in, but for the one
/// value below negative full scale, which is clamped to it.
pub proof fn lemma_i16_round_trip(sample: i16)
    ensures
        raw_of_i16(sample) <= u32::MAX,
        pcm_of(raw_of_i16(sample) as u32) == if sample == i16::MIN {
            -32767
        } else {
            sample as int
        },
{
    lemma2_to64();
    if sample != 0 {
        let n: nat = if sample < 0 {
            (-sample) as nat
        } else {
            sample as nat
        };
        let d: nat = 32767;
        let (scale, significand) = lemma_ratio_shape(n, d);
        // 2^23 * 32767 <= n * 2^scale with n <= 2^15 puts the scale at 23 or above;
        // n >= 1 puts it at 38 or below.
        if scale < 23 {
            lemma_pow2_strictly_increases(scale, 23);
            assert(n * pow2(scale) <= 32768 * pow2(scale)) by (nonlinear_arith)
                requires
                    n <= 32768,
            ;
            assert(32768 * pow2(scale) <= 32768 * 0x40_0000) by {
                if scale < 22 {
                    lemma_pow2_strictly_increases(scale, 22);
                }
            }
            assert(false);
        }
        if scale > 38 {
            lemma2_to64_rest();
            if scale > 39 {
                lemma_pow2_strictly_increases(39, scale);
            }
            assert(n * pow2(scale) >= pow2(scale)) by (nonlinear_arith)
                requires
                    n >= 1,
            ;
            assert(false);
        }
        let low = (149 - scale) as nat;
        let bits = (low * pow2(23) + significand) as u32;
        assert(low * 0x80_0000 <= 126 * 0x80_0000);
        lemma_assembled(bits, low, significand);
        let raw = raw_of_i16(sample) as u32;
        assert(raw == if sample < 0 {
            (bits + SIGN_MASK) as u32
        } else {
            bits
        });
        let scaled = n * pow2(scale);
        lemma_pow2_adds(scale, low);
        lemma_pow2_adds(low, (scale - 1) as nat);
        lemma_pow2_pos(low);
        assert(exponent_of(raw) == exponent_of(bits));
        assert(magnitude_scaled(raw) == significand * pow2(low));
        if exponent_of(raw) >= 127 {
            // Only full scale and the value below it reach one.
            assert(n >= 32767) by {
                if scale == 23 {
                    assert(n * 0x80_0000 >= 0x80_0000 * 32767);
                } else {
                    assert(scale == 24 && significand == 0x100_0000);
                    assert(2 * (0x100_0000 * 32767 - n * 0x100_0000) <= 32767);
                }
            }
            assert(quantized_magnitude(raw) == 32767);
            assert(n <= 32768);
            assert(pcm_of(raw) == if sample < 0 {
                -32767
            } else {
                32767int
            });
        } else {
            let error = d * significand - scaled;
            let shifted = error * pow2(low);
            assert(significand * pow2(low) * 32767 == n * pow2(149) + shifted) by (nonlinear_arith)
                requires
                    error == 32767 * significand - n * pow2(scale),
                    shifted == error * pow2(low),
                    pow2(149) == pow2(scale) * pow2(low),
            ;
            assert(pow2(low) <= pow2(126)) by {
                if low < 126 {
                    lemma_pow2_strictly_increases(low, 126);
                }
            }
            lemma_pow2_adds(126, 15);
            lemma_pow2_adds(141, 7);
            lemma_pow2_adds(148, 1);
            assert(-pow2(141) < shifted < pow2(141)) by (nonlinear_arith)
                requires
                    -16384 < error < 16384,
                    0 < pow2(low) <= pow2(126),
                    pow2(141) == pow2(126) * 32768,
                    shifted == error * pow2(low),
            ;
            assert(pow2(141) < pow2(148)) by {
                lemma_pow2_strictly_increases(141, 148);
            }
            lemma_pow2_pos(149);
            assert(pow2(149) * n == n * pow2(149)) by (nonlinear_arith);
            lemma_fundamental_div_mod_converse(
                (magnitude_scaled(raw) * 32767 + pow2(148)) as int,
                pow2(149) as int,
                n as int,
                shifted + pow2(148),
            );
            assert(quantized_magnitude(raw) == n);
            // Below one the scale is 24 or more, which leaves n below full scale.
            assert(n < 32767) by {
                assert(scale >= 24);
                if scale > 24 {
                    lemma_pow2_strictly_increases(24, scale);
                }
                assert(n * pow2(scale) >= n * 0x100_0000) by (nonlinear_arith)
                    requires
                        pow2(scale) >= 0x100_0000,
                ;
            }
            assert(pcm_of(raw) == sample);
        }
    } else {
        lemma_pow2_pos(148);
        lemma_pow2_adds(148, 1);
        lemma_basic_div(pow2(148) as int, pow2(149) as int);
        assert(raw_of_i16(sample) == 0);
        assert(exponent_of(0u32) == 0 && fraction_of(0u32) == 0);
        assert(pcm_of(0u32) == 0);
    }
}

/// The bits of the number nearest to `n / d`, the sign left out.
fn nearest_ratio(n: u32, d: u32) -> (bits: u32)
    requires
        n <= 0x1_0000,
        0 < d <= 0x1_0000,
    ensures
        bits == ratio_bits(n as nat, d as nat),
        bits < SIGN_MASK,
{
    if n == 0 {
        return 0;
    }
    proof {
        lemma2_to64();
    }
    let floor: u64 = (d as u64) * 0x80_0000;
    let mut scaled: u64 = n as u64;
    let mut scale: u32 = 0;
    while scaled < floor
        invariant
            0 < n <= 0x1_0000,
            0 < d <= 0x1_0000,
            floor == d * 0x80_0000,
            scaled == n * pow2(scale as nat),
            scaled < 2 * floor,
            pow2(scale as nat) <= scaled,
            scale <= 40,
        decreases 2 * floor - scaled,
    {
        proof {
            lemma2_to64();
            lemma2_to64_rest();
            lemma_pow2_pos(scale as nat);
            lemma_pow2_adds(scale as nat, 1);
            assert(n * pow2((scale + 1) as nat) == 2 * (n * pow2(scale as nat))) by (nonlinear_arith)
                requires
                    pow2((scale + 1) as nat) == pow2(scale as nat) * 2,
            ;
            if scale >= 39 {
                if scale > 39 {
                    lemma_pow2_strictly_increases(39, scale as nat);
                }
                assert(false);
            }
        }
        scaled = scaled * 2;
        scale = scale + 1;
    }
    proof {
        assert(normalizes(n as nat, d as nat, scale as nat)) by {
            assert(pow2(24) * d == 2 * (pow2(23) * d)) by (nonlinear_arith)
                requires
                    pow2(24) == 2 * pow2(23),
            ;
        }
        let chosen = choose|s: nat| normalizes(n as nat, d as nat, s);
        lemma_scale_is_unique(n as nat, d as nat, scale as nat, chosen);
        if scale < 7 {
            lemma_pow2_strictly_increases(scale as nat, 7);
            assert(n * pow2(scale as nat) < 0x1_0000 * 128) by (nonlinear_arith)
                requires
                    n <= 0x1_0000,
                    pow2(scale as nat) < 128,
            ;
        }
    }
    let significand: u64 = scaled / (d as u64);
    let rest: u64 = scaled % (d as u64);
    let up: u64 = if 2 * rest > d as u64 || (2 * rest == d as u64 && significand % 2 == 1) {
        1
    } else {
        0
    };
    proof {
        lemma_fundamental_div_mod(scaled as int, d as int);
        lemma_div_is_ordered(floor as int, scaled as int, d as int);
        lemma_div_by_multiple(0x80_0000, d as int);
        assert(floor as int == 0x80_0000 * d);
        assert(significand >= 0x80_0000);
        lemma_div_by_multiple_is_strongly_ordered(
            scaled as int,
            0x100_0000 * (d as int),
            0x100_0000,
            d as int,
        );
        lemma_div_by_multiple(0x100_0000, d as int);
        assert(significand < 0x100_0000);
        assert((149 - scale) * 0x80_0000 <= 149 * 0x80_0000);
        let rounded = (significand + up) as int;
        assert(d * rounded - scaled == d * up - rest) by (nonlinear_arith)
            requires
                scaled == d * significand + rest,
                rounded == significand + up,
        ;
    }
    let exponent: u64 = (149 - scale) as u64 * 0x80_0000;
    (exponent + significand + up) as u32
}

/// The raw sample of a signed 16-bit sample.
pub fn i16_to_raw(sample: i16) -> (raw: u32)
    ensures
        raw == raw_of_i16(sample),
{
    if sample < 0 {
        let magnitude: u32 = (-(sample as i32)) as u32;
        SIGN_MASK + nearest_ratio(magnitude, 32767)
    } else {
        nearest_ratio(sample as u32, 32767)
    }
}

/// The raw sample of an unsigned 16-bit sample.
pub fn u16_to_raw(sample: u16) -> (raw: u32)
    ensures
        raw == raw_of_u16(sample),
{
    let doubled: u32 = 2 * (sample as u32);
    if doubled < 65535 {
        SIGN_MASK + nearest_ratio(65535 - doubled, 65535)
    } else {
        nearest_ratio(doubled - 65535, 65535)
    }
}

} // verus!
