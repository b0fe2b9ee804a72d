//! The average of two raw samples, as single-precision arithmetic gives it:
//! the sum rounded to the nearest number, then the half of that rounded to
//! the nearest number, halves going to the even significand both times.
//!
//! Every finite single-precision number is a whole multiple of 2^-149, so
//! sums and halves are taken exactly on integers and rounded once. A NaN
//! among the operands, or the sum of opposite infinities, gives the one
//! quiet NaN `QUIET_NAN`.

use vstd::prelude::*;
use vstd::arithmetic::div_mod::*;
use vstd::arithmetic::power2::*;
use crate::sample::SIGN_MASK;
use crate::sample::exponent_of;
use crate::sample::fraction_of;
use crate::sample::is_nan;
use crate::sample::magnitude_scaled;
use crate::sample::sign_of;

verus! {

/// The bits of positive infinity.
pub const INFINITY_BITS: u32 = 0x7f80_0000;

/// The NaN that stands for every undefined result.
pub const QUIET_NAN: u32 = 0x7fc0_0000;

/// Whether `m` has 24 significant bits above its lowest `shift` bits:
/// `2^(23 + shift) <= m < 2^(24 + shift)`.
pub open spec fn aligns(m: nat, shift: nat) -> bool {
    pow2(23 + shift) <= m < pow2(24 + shift)
}

/// The bits, sign left out, of the number nearest to `m * 2^-149`. Below
/// 2^24 every `m` is a number itself. Above, `m` is cut to its leading 24
/// bits, rounded up when the bits cut off are more than half of the last
/// place, or exactly half with an odd significand; what reaches past the
/// largest finite number is infinity.
pub open spec fn nearest_magnitude(m: nat) -> nat {
    if m < pow2(24) {
        m
    } else {
        let shift = choose|shift: nat| aligns(m, shift);
        let significand = m / pow2(shift);
        let rest = m % pow2(shift);
        let up: nat = if 2 * rest > pow2(shift) || (2 * rest == pow2(shift) && significand % 2
            == 1) {
            1
        } else {
            0
        };
        let bits = shift * pow2(23) + significand + up;
        if bits >= INFINITY_BITS {
            INFINITY_BITS as nat
        } else {
            bits
        }
    }
}

/// Whether the pattern is an infinity.
pub open spec fn is_infinite(bits: u32) -> bool {
    exponent_of(bits) == 255 && fraction_of(bits) == 0
}

/// The bits below the sign bit.
pub open spec fn magnitude_bits(bits: u32) -> nat {
    (bits as nat) % 0x8000_0000
}

/// The sign bit for a negative number, nothing for another.
pub open spec fn sign_bits(negative: bool) -> nat {
    if negative {
        SIGN_MASK as nat
    } else {
        0
    }
}

/// The significand and the binary scale of a finite number, whose magnitude
/// is the significand times two to the scale, times 2^-149.
pub open spec fn significand_of(bits: u32) -> nat {
    if exponent_of(bits) == 0 {
        fraction_of(bits)
    } else {
        0x80_0000 + fraction_of(bits)
    }
}

/// See `significand_of`.
pub open spec fn scale_of(bits: u32) -> nat {
    if exponent_of(bits) == 0 {
        0
    } else {
        (exponent_of(bits) - 1) as nat
    }
}

/// A finite number, times 2^149.
pub open spec fn value_scaled(bits: u32) -> int {
    if sign_of(bits) {
        -(magnitude_scaled(bits) as int)
    } else {
        magnitude_scaled(bits) as int
    }
}

/// Half of `m`, rounded to a whole number, an exact half going to the even
/// neighbour.
pub open spec fn half_rounded(m: nat) -> nat {
    if m % 2 == 1 && (m / 2) % 2 == 1 {
        m / 2 + 1
    } else {
        m / 2
    }
}

/// The sum of two finite numbers, rounded to the nearest number. A zero sum
/// is positive unless both operands are negative zeros.
pub open spec fn finite_sum(left: u32, right: u32) -> nat {
    let exact = value_scaled(left) + value_scaled(right);
    if exact == 0 {
        sign_bits(sign_of(left) && sign_of(right))
    } else if exact < 0 {
        (SIGN_MASK + nearest_magnitude((-exact) as nat)) as nat
    } else {
        nearest_magnitude(exact as nat)
    }
}

/// The sum of two numbers, rounded to the nearest number.
pub open spec fn sum_of(left: u32, right: u32) -> nat {
    if is_nan(left) || is_nan(right) {
        QUIET_NAN as nat
    } else if is_infinite(left) {
        if is_infinite(right) && sign_of(left) != sign_of(right) {
            QUIET_NAN as nat
        } else {
            left as nat
        }
    } else if is_infinite(right) {
        right as nat
    } else {
        finite_sum(left, right)
    }
}

/// Half of a number, rounded to the nearest number.
pub open spec fn half_of(bits: u32) -> nat {
    if is_nan(bits) {
        QUIET_NAN as nat
    } else if is_infinite(bits) {
        bits as nat
    } else {
        sign_bits(sign_of(bits)) + nearest_magnitude(half_rounded(magnitude_scaled(bits)))
    }
}

/// The average of two raw samples: half of their rounded sum.
pub open spec fn average_of(left: u32, right: u32) -> nat {
    half_of(sum_of(left, right) as u32)
}

/// Only one shift aligns a number.
proof fn lemma_aligns_unique(m: nat, a: nat, b: nat)
    requires
        aligns(m, a),
        aligns(m, b),
    ensures
        a == b,
{
    if a < b {
        if 24 + a < 23 + b {
            lemma_pow2_strictly_increases(24 + a, 23 + b);
        }
    } else if b < a {
        if 24 + b < 23 + a {
            lemma_pow2_strictly_increases(24 + b, 23 + a);
        }
    }
}

/// Rounding, given the shift that aligns the number and the two parts that
/// the shift cuts it into.
proof fn lemma_nearest_at(m: nat, shift: nat, significand: nat, rest: nat)
    requires
        aligns(m, shift),
        m == significand * pow2(shift) + rest,
        rest < pow2(shift),
    ensures
        pow2(23) <= significand < pow2(24),
        nearest_magnitude(m) == ({
            let up: nat = if 2 * rest > pow2(shift) || (2 * rest == pow2(shift) && significand % 2
                == 1) {
                1
            } else {
                0
            };
            let bits = shift * pow2(23) + significand + up;
            if bits >= INFINITY_BITS {
                INFINITY_BITS as nat
            } else {
                bits
            }
        }),
{
    lemma2_to64();
    lemma_pow2_pos(shift);
    lemma_pow2_adds(23, shift);
    lemma_pow2_adds(24, shift);
    let unit = pow2(shift) as int;
    assert(unit * significand == significand * unit) by (nonlinear_arith);
    lemma_fundamental_div_mod_converse(m as int, unit, significand as int, rest as int);
    assert(significand >= pow2(23)) by (nonlinear_arith)
        requires
            pow2(23) * unit <= significand * unit + rest,
            rest < unit,
            unit > 0,
    ;
    assert(significand < pow2(24)) by (nonlinear_arith)
        requires
            significand * unit + rest < pow2(24) * unit,
            rest >= 0,
            unit > 0,
    ;
    if m < pow2(24) {
        if shift > 0 {
            lemma_pow2_strictly_increases(24, 23 + shift + 1);
            lemma_pow2_adds(23 + shift, 1);
            assert(false);
        }
        assert(unit == 1);
        assert(significand * unit == significand) by (nonlinear_arith)
            requires
                unit == 1,
        ;
        assert(rest == 0 && significand == m);
    } else {
        let chosen = choose|s: nat| aligns(m, s);
        lemma_aligns_unique(m, shift, chosen);
    }
}

/// The bits, sign left out, of the number nearest to `n * 2^(k - 149)`.
fn round_scaled(n: u64, k: u32) -> (bits: u32)
    requires
        n < 0x4_0000_0000_0000,
        k <= 253,
    ensures
        bits == nearest_magnitude(n as nat * pow2(k as nat)),
        bits <= INFINITY_BITS,
{
    proof {
        lemma2_to64();
    }
    if n == 0 {
        assert(0 * pow2(k as nat) == 0) by (nonlinear_arith);
        return 0;
    }
    let ghost m = n as nat * pow2(k as nat);
    if n < 0x100_0000 {
        let mut low: u64 = n;
        let mut exponent: u32 = k;
        while low < 0x80_0000 && exponent > 0
            invariant
                0 < low < 0x100_0000,
                exponent <= 253,
                low as nat * pow2(exponent as nat) == m,
            decreases exponent,
        {
            proof {
                lemma2_to64();
                lemma_pow2_adds((exponent - 1) as nat, 1);
                assert((low * 2) * pow2((exponent - 1) as nat) == low * pow2(exponent as nat))
                    by (nonlinear_arith)
                    requires
                        pow2(exponent as nat) == pow2((exponent - 1) as nat) * 2,
                ;
            }
            low = low * 2;
            exponent = exponent - 1;
        }
        if low < 0x80_0000 {
            assert(m == low) by {
                assert(low * pow2(0) == low) by (nonlinear_arith)
                    requires
                        pow2(0) == 1,
                ;
            }
            return low as u32;
        }
        proof {
            lemma_pow2_adds(23, exponent as nat);
            lemma_pow2_adds(24, exponent as nat);
            lemma_pow2_pos(exponent as nat);
            assert(aligns(m, exponent as nat)) by (nonlinear_arith)
                requires
                    m == low * pow2(exponent as nat),
                    0x80_0000 <= low < 0x100_0000,
                    pow2(23 + exponent as nat) == 0x80_0000 * pow2(exponent as nat),
                    pow2(24 + exponent as nat) == 0x100_0000 * pow2(exponent as nat),
                    pow2(exponent as nat) > 0,
            ;
            lemma_nearest_at(m, exponent as nat, low as nat, 0);
            assert(exponent * 0x80_0000 <= 253 * 0x80_0000);
        }
        return exponent * 0x80_0000 + low as u32;
    }
    let mut unit: u64 = 1;
    let mut shift: u32 = 0;
    while n / unit >= 0x100_0000
        invariant
            n < 0x4_0000_0000_0000,
            0 < unit,
            unit == pow2(shift as nat),
            0x80_0000 * unit <= n,
            shift <= 26,
        decreases n / unit,
    {
        proof {
            lemma2_to64();
            lemma_pow2_adds(shift as nat, 1);
            lemma_fundamental_div_mod(n as int, unit as int);
            lemma_mod_bound(n as int, unit as int);
            assert(0x100_0000 * unit <= n) by (nonlinear_arith)
                requires
                    n == unit * (n / unit) + n % unit,
                    n % unit >= 0,
                    n / unit >= 0x100_0000,
                    unit > 0,
            ;
            if shift >= 26 {
                if shift > 26 {
                    lemma_pow2_strictly_increases(26, shift as nat);
                }
                assert(false);
            }
            lemma_div_denominator(n as int, unit as int, 2);
            assert(unit * 2 == (unit as int) * 2);
        }
        unit = unit * 2;
        shift = shift + 1;
    }
    let significand: u64 = n / unit;
    let rest: u64 = n % unit;
    let up: u64 = if 2 * rest > unit || (2 * rest == unit && significand % 2 == 1) {
        1
    } else {
        0
    };
    proof {
        let total = (k + shift) as nat;
        let scale = pow2(k as nat) as int;
        lemma_pow2_pos(k as nat);
        lemma_pow2_adds(k as nat, shift as nat);
        lemma_pow2_adds(23, shift as nat);
        lemma_pow2_adds(24, shift as nat);
        lemma_pow2_adds(23 + shift as nat, k as nat);
        lemma_pow2_adds(24 + shift as nat, k as nat);
        lemma_fundamental_div_mod(n as int, unit as int);
        lemma_mod_bound(n as int, unit as int);
        assert(n < 0x100_0000 * unit) by (nonlinear_arith)
            requires
                n == unit * significand + rest,
                rest < unit,
                significand < 0x100_0000,
        ;
        assert(aligns(m, total)) by (nonlinear_arith)
            requires
                m == n * scale,
                0x80_0000 * unit <= n < 0x100_0000 * unit,
                pow2(23 + total) == 0x80_0000 * unit * scale,
                pow2(24 + total) == 0x100_0000 * unit * scale,
                scale > 0,
        ;
        assert(m == significand * pow2(total) + rest * scale) by (nonlinear_arith)
            requires
                m == n * scale,
                n == unit * significand + rest,
                pow2(total) == scale * unit,
        ;
        assert(rest * scale < pow2(total)) by (nonlinear_arith)
            requires
                rest < unit,
                pow2(total) == scale * unit,
                scale > 0,
        ;
        lemma_nearest_at(m, total, significand as nat, (rest * scale) as nat);
        assert((2 * (rest * scale) > pow2(total)) == (2 * rest > unit)) by (nonlinear_arith)
            requires
                pow2(total) == scale * unit,
                scale > 0,
        ;
        assert((2 * (rest * scale) == pow2(total)) == (2 * rest == unit)) by (nonlinear_arith)
            requires
                pow2(total) == scale * unit,
                scale > 0,
        ;
    }
    let bits: u64 = (k + shift) as u64 * 0x80_0000 + significand + up;
    if bits >= INFINITY_BITS as u64 {
        INFINITY_BITS
    } else {
        bits as u32
    }
}

/// The fields of a pattern, as arithmetic gives them.
proof fn lemma_fields(bits: u32)
    ensures
        (bits >> 23) & 0xff == exponent_of(bits),
        bits & 0x7f_ffff == fraction_of(bits),
        bits & 0x7fff_ffff == magnitude_bits(bits),
        magnitude_bits(bits) == exponent_of(bits) * 0x80_0000 + fraction_of(bits),
        bits == sign_bits(sign_of(bits)) + magnitude_bits(bits),
        exponent_of(bits) <= 255,
        fraction_of(bits) < 0x80_0000,
{
    assert((bits >> 23) & 0xff == (bits / 0x80_0000) % 256) by (bit_vector);
    assert(bits & 0x7f_ffff == bits % 0x80_0000) by (bit_vector);
    assert(bits & 0x7fff_ffff == bits % 0x8000_0000) by (bit_vector);
}

/// A finite number is the number nearest to itself.
proof fn lemma_representable(bits: u32)
    requires
        exponent_of(bits) < 255,
    ensures
        nearest_magnitude(magnitude_scaled(bits)) == magnitude_bits(bits),
{
    lemma2_to64();
    lemma_fields(bits);
    let e = exponent_of(bits);
    let f = fraction_of(bits);
    if e > 0 {
        lemma_pow2_adds(23, (e - 1) as nat);
        lemma_pow2_adds(24, (e - 1) as nat);
        lemma_pow2_pos((e - 1) as nat);
        let unit = pow2((e - 1) as nat);
        assert(aligns(magnitude_scaled(bits), (e - 1) as nat)) by (nonlinear_arith)
            requires
                magnitude_scaled(bits) == (0x80_0000 + f) * unit,
                f < 0x80_0000,
                pow2(23 + (e - 1) as nat) == 0x80_0000 * unit,
                pow2(24 + (e - 1) as nat) == 0x100_0000 * unit,
                unit > 0,
        ;
        lemma_nearest_at(magnitude_scaled(bits), (e - 1) as nat, 0x80_0000 + f, 0);
        assert((e - 1) * 0x80_0000 + 0x80_0000 + f == e * 0x80_0000 + f);
    }
}

/// Half of a raw sample.
fn halve(bits: u32) -> (half: u32)
    ensures
        half == half_of(bits),
{
    let exponent: u32 = (bits >> 23) & 0xff;
    let fraction: u32 = bits & 0x7f_ffff;
    let magnitude: u32 = bits & 0x7fff_ffff;
    proof {
        lemma_fields(bits);
        lemma2_to64();
    }
    if exponent == 255 {
        if fraction != 0 {
            QUIET_NAN
        } else {
            bits
        }
    } else if exponent >= 2 {
        proof {
            let e = exponent as nat;
            let m = magnitude_scaled(bits);
            let unit = pow2((e - 2) as nat);
            lemma_pow2_adds((e - 2) as nat, 1);
            lemma_pow2_pos((e - 2) as nat);
            let significand = (0x80_0000 + fraction) as nat;
            assert(m == 2 * (significand * unit)) by (nonlinear_arith)
                requires
                    m == significand * pow2((e - 1) as nat),
                    pow2((e - 1) as nat) == unit * 2,
            ;
            assert(half_rounded(m) == significand * unit);
            lemma_pow2_adds(23, (e - 2) as nat);
            lemma_pow2_adds(24, (e - 2) as nat);
            assert(aligns(significand * unit, (e - 2) as nat)) by (nonlinear_arith)
                requires
                    0x80_0000 <= significand < 0x100_0000,
                    pow2(23 + (e - 2) as nat) == 0x80_0000 * unit,
                    pow2(24 + (e - 2) as nat) == 0x100_0000 * unit,
                    unit > 0,
            ;
            lemma_nearest_at(significand * unit, (e - 2) as nat, significand, 0);
            assert((e - 2) * 0x80_0000 + significand == magnitude - 0x80_0000);
        }
        bits - 0x80_0000
    } else {
        proof {
            let m = magnitude_scaled(bits);
            assert(m == magnitude) by {
                if exponent == 1 {
                    assert((0x80_0000 + fraction) * pow2(0) == 0x80_0000 + fraction)
                        by (nonlinear_arith)
                        requires
                            pow2(0) == 1,
                    ;
                }
            }
        }
        let sign: u32 = bits - magnitude;
        let low: u32 = magnitude / 2;
        let rounded: u32 = if magnitude % 2 == 1 && low % 2 == 1 {
            low + 1
        } else {
            low
        };
        sign + rounded
    }
}

/// A number far smaller than the last place of another does not move it:
/// with a significand `big` of 24 bits at `shift`, and `small` below a
/// quarter of the last place, both the sum and the difference round to
/// `big` at `shift`.
proof fn lemma_absorbed(big: nat, shift: nat, small: nat)
    requires
        pow2(23) <= big < pow2(24),
        2 <= shift <= 253,
        0 < small < pow2((shift - 2) as nat),
    ensures
        nearest_magnitude(big * pow2(shift) + small) == shift * pow2(23) + big,
        nearest_magnitude((big * pow2(shift) - small) as nat) == shift * pow2(23) + big,
        big * pow2(shift) > small,
{
    lemma2_to64();
    let unit = pow2(shift) as int;
    let quarter = pow2((shift - 2) as nat) as int;
    lemma_pow2_adds((shift - 2) as nat, 2);
    lemma_pow2_adds((shift - 1) as nat, 1);
    lemma_pow2_adds((shift - 2) as nat, 1);
    lemma_pow2_adds(23, shift);
    lemma_pow2_adds(24, shift);
    lemma_pow2_adds(23, (shift - 1) as nat);
    lemma_pow2_adds(24, (shift - 1) as nat);
    lemma_pow2_pos((shift - 2) as nat);
    assert(unit == 4 * quarter);
    assert(shift * 0x80_0000 <= 253 * 0x80_0000);
    assert(big * unit >= 0x80_0000 * unit) by (nonlinear_arith)
        requires
            big >= 0x80_0000,
            unit > 0,
    ;
    // The sum.
    assert(aligns((big * unit + small) as nat, shift)) by (nonlinear_arith)
        requires
            0x80_0000 <= big < 0x100_0000,
            0 < small < unit,
            pow2(23 + shift) == 0x80_0000 * unit,
            pow2(24 + shift) == 0x100_0000 * unit,
    ;
    lemma_nearest_at((big * unit + small) as nat, shift, big, small);
    // The difference.
    if big > 0x80_0000 {
        let below = (big - 1) as nat;
        let rest = (unit - small) as nat;
        assert(big * unit - small == below * unit + rest) by (nonlinear_arith)
            requires
                below == big - 1,
                rest == unit - small,
        ;
        assert(aligns((big * unit - small) as nat, shift)) by (nonlinear_arith)
            requires
                0x80_0000 < big < 0x100_0000,
                0 < small < unit,
                pow2(23 + shift) == 0x80_0000 * unit,
                pow2(24 + shift) == 0x100_0000 * unit,
        ;
        lemma_nearest_at((big * unit - small) as nat, shift, below, rest);
    } else {
        let half = pow2((shift - 1) as nat) as int;
        let rest = (half - small) as nat;
        assert(unit == 2 * half && half == 2 * quarter);
        assert(big * unit - small == 0xff_ffff * half + rest) by (nonlinear_arith)
            requires
                big == 0x80_0000,
                unit == 2 * half,
                rest == half - small,
        ;
        assert(aligns((big * unit - small) as nat, (shift - 1) as nat)) by (nonlinear_arith)
            requires
                big == 0x80_0000,
                unit == 2 * half,
                0 < small < half,
                pow2(23 + (shift - 1) as nat) == 0x80_0000 * half,
                pow2(24 + (shift - 1) as nat) == 0x100_0000 * half,
        ;
        lemma_nearest_at((big * unit - small) as nat, (shift - 1) as nat, 0xff_ffff, rest);
        assert((shift - 1) * 0x80_0000 + 0xff_ffff + 1 == shift * 0x80_0000 + 0x80_0000);
    }
}

/// The magnitude is the significand at its scale.
proof fn lemma_magnitude(bits: u32)
    ensures
        magnitude_scaled(bits) == significand_of(bits) * pow2(scale_of(bits)),
        exponent_of(bits) > 0 ==> magnitude_bits(bits) == scale_of(bits) * 0x80_0000
            + significand_of(bits),
        exponent_of(bits) == 0 ==> magnitude_bits(bits) == significand_of(bits),
{
    lemma2_to64();
    lemma_fields(bits);
    if exponent_of(bits) == 0 {
        assert(fraction_of(bits) * pow2(0) == fraction_of(bits)) by (nonlinear_arith)
            requires
                pow2(0) == 1,
        ;
    }
}

/// A pattern taken apart.
#[derive(Clone, Copy)]
struct Unpacked {
    /// The sign bit in its place, or zero.
    sign: u32,
    /// The biased exponent field.
    exponent: u32,
    /// The bits below the sign bit.
    magnitude: u32,
    /// The fraction, with the hidden bit for a normal number.
    significand: u64,
    /// The binary scale of the significand.
    scale: u32,
}

/// What `unpack` finds in a pattern.
spec fn unpacked(bits: u32, parts: Unpacked) -> bool {
    &&& parts.sign == sign_bits(sign_of(bits))
    &&& parts.exponent == exponent_of(bits)
    &&& parts.magnitude == magnitude_bits(bits)
    &&& parts.significand == significand_of(bits)
    &&& parts.scale == scale_of(bits)
    &&& bits == parts.sign + parts.magnitude
    &&& parts.exponent <= 255
    &&& parts.significand < 0x100_0000
    &&& parts.exponent > 0 ==> parts.significand >= 0x80_0000
    &&& parts.exponent > 0 ==> parts.magnitude == parts.scale * 0x80_0000 + parts.significand
    &&& parts.exponent == 0 ==> parts.magnitude == parts.significand && parts.scale == 0
    &&& magnitude_scaled(bits) == parts.significand * pow2(parts.scale as nat)
}

/// Takes a pattern apart.
fn unpack(bits: u32) -> (parts: Unpacked)
    ensures
        unpacked(bits, parts),
{
    let exponent: u32 = (bits >> 23) & 0xff;
    let fraction: u32 = bits & 0x7f_ffff;
    let magnitude: u32 = bits & 0x7fff_ffff;
    let sign: u32 = bits & 0x8000_0000;
    proof {
        lemma_fields(bits);
        lemma_magnitude(bits);
        assert(bits & 0x8000_0000 == if bits >= 0x8000_0000 {
            0x8000_0000u32
        } else {
            0u32
        }) by (bit_vector);
    }
    Unpacked {
        sign,
        exponent,
        magnitude,
        significand: if exponent == 0 {
            fraction as u64
        } else {
            0x80_0000 + fraction as u64
        },
        scale: if exponent == 0 {
            0
        } else {
            exponent - 1
        },
    }
}

/// The sum of two finite numbers whose scales are less than 26 apart, the
/// first of them the larger in magnitude: the sum is taken exactly and
/// rounded once.
fn sum_near(big: u32, small: u32) -> (sum: u32)
    requires
        exponent_of(big) < 255,
        exponent_of(small) < 255,
        magnitude_bits(big) >= magnitude_bits(small),
        scale_of(big) - scale_of(small) < 26,
        significand_of(small) > 0,
    ensures
        sum == finite_sum(big, small),
{
    let b = unpack(big);
    let s = unpack(small);
    let distance: u32 = b.scale - s.scale;
    let ghost unit = pow2(s.scale as nat);
    let ghost big_value = magnitude_scaled(big);
    let ghost small_value = magnitude_scaled(small);
    proof {
        lemma2_to64();
        lemma_pow2_pos(distance as nat);
        if distance < 25 {
            lemma_pow2_strictly_increases(distance as nat, 25);
        }
        assert(b.significand * pow2(distance as nat) < 0x100_0000 * 0x200_0000)
            by (nonlinear_arith)
            requires
                b.significand < 0x100_0000,
                pow2(distance as nat) <= 0x200_0000,
        ;
        vstd::bits::lemma_u64_shl_is_mul(b.significand, distance as u64);
    }
    let aligned: u64 = b.significand << (distance as u64);
    proof {
        lemma_pow2_adds(distance as nat, s.scale as nat);
        lemma_pow2_pos(s.scale as nat);
        assert(big_value == aligned * unit) by (nonlinear_arith)
            requires
                big_value == b.significand * pow2(b.scale as nat),
                aligned == b.significand * pow2(distance as nat),
                pow2(b.scale as nat) == pow2(distance as nat) * unit,
        ;
        assert(aligned >= s.significand) by {
            if distance == 0 {
                assert(aligned == b.significand) by (nonlinear_arith)
                    requires
                        aligned == b.significand * pow2(0),
                        pow2(0) == 1,
                ;
            } else {
                lemma_pow2_strictly_increases(0, distance as nat);
                assert(aligned >= 0x80_0000 * 2) by (nonlinear_arith)
                    requires
                        aligned == b.significand * pow2(distance as nat),
                        b.significand >= 0x80_0000,
                        pow2(distance as nat) >= 2,
                ;
            }
        }
    }
    let total: u64 = if b.sign == s.sign {
        aligned + s.significand
    } else {
        aligned - s.significand
    };
    proof {
        if b.sign == s.sign {
            assert(total * unit == big_value + small_value) by (nonlinear_arith)
                requires
                    big_value == aligned * unit,
                    small_value == s.significand * unit,
                    total == aligned + s.significand,
            ;
        } else {
            assert(total * unit == big_value - small_value) by (nonlinear_arith)
                requires
                    big_value == aligned * unit,
                    small_value == s.significand * unit,
                    total == aligned - s.significand,
            ;
        }
        assert((total == 0) == (total * unit == 0)) by (nonlinear_arith)
            requires
                unit > 0,
                total >= 0,
        ;
    }
    if total == 0 {
        return 0;
    }
    b.sign + round_scaled(total, s.scale)
}

/// The sum of two finite numbers, the first of them the larger in
/// magnitude.
fn sum_ordered(big: u32, small: u32) -> (sum: u32)
    requires
        exponent_of(big) < 255,
        exponent_of(small) < 255,
        magnitude_bits(big) >= magnitude_bits(small),
    ensures
        sum == finite_sum(big, small),
{
    let b = unpack(big);
    let s = unpack(small);
    let ghost big_value = magnitude_scaled(big);
    let ghost small_value = magnitude_scaled(small);
    proof {
        lemma2_to64();
        lemma_pow2_pos(b.scale as nat);
        lemma_pow2_pos(s.scale as nat);
        lemma_representable(big);
    }
    if s.significand == 0 {
        proof {
            assert(small_value == 0) by (nonlinear_arith)
                requires
                    small_value == s.significand * pow2(s.scale as nat),
                    s.significand == 0,
            ;
        }
        if b.significand == 0 {
            proof {
                assert(big_value == 0) by (nonlinear_arith)
                    requires
                        big_value == b.significand * pow2(b.scale as nat),
                        b.significand == 0,
                ;
            }
            return if b.sign != 0 && s.sign != 0 {
                SIGN_MASK
            } else {
                0
            };
        }
        proof {
            assert(big_value > 0) by (nonlinear_arith)
                requires
                    big_value == b.significand * pow2(b.scale as nat),
                    b.significand > 0,
                    pow2(b.scale as nat) > 0,
            ;
        }
        return big;
    }
    if b.scale - s.scale >= 26 {
        proof {
            let quarter = pow2((b.scale - 2) as nat);
            lemma_pow2_adds(24, s.scale as nat);
            if 24 + s.scale < b.scale - 2 {
                lemma_pow2_strictly_increases((24 + s.scale) as nat, (b.scale - 2) as nat);
            }
            assert(small_value < quarter) by (nonlinear_arith)
                requires
                    small_value == s.significand * pow2(s.scale as nat),
                    s.significand < 0x100_0000,
                    pow2(s.scale as nat) > 0,
                    0x100_0000 * pow2(s.scale as nat) <= quarter,
            ;
            assert(small_value > 0) by (nonlinear_arith)
                requires
                    small_value == s.significand * pow2(s.scale as nat),
                    s.significand > 0,
                    pow2(s.scale as nat) > 0,
            ;
            lemma_absorbed(b.significand as nat, b.scale as nat, small_value);
        }
        return big;
    }
    sum_near(big, small)
}

/// The sum of two raw samples.
fn sum(left: u32, right: u32) -> (sum: u32)
    ensures
        sum == sum_of(left, right),
{
    let l = unpack(left);
    let r = unpack(right);
    proof {
        lemma_fields(left);
        lemma_fields(right);
    }
    let left_nan = l.exponent == 255 && l.magnitude != 0x7f80_0000;
    let right_nan = r.exponent == 255 && r.magnitude != 0x7f80_0000;
    if left_nan || right_nan {
        return QUIET_NAN;
    }
    if l.exponent == 255 {
        if r.exponent == 255 && l.sign != r.sign {
            return QUIET_NAN;
        }
        return left;
    }
    if r.exponent == 255 {
        return right;
    }
    if l.magnitude < r.magnitude {
        sum_ordered(right, left)
    } else {
        sum_ordered(left, right)
    }
}

/// The average does not depend on the order of its operands.
pub proof fn lemma_average_commutes(left: u32, right: u32)
    ensures
        average_of(left, right) == average_of(right, left),
{
    lemma_fields(left);
    lemma_fields(right);
}

/// The average of two raw samples, as single-precision arithmetic gives
/// `(left + right) * 0.5`, with one NaN for every undefined result.
pub fn average(left: u32, right: u32) -> (mean: u32)
    ensures
        mean == average_of(left, right),
{
    halve(sum(left, right))
}

} // verus!
