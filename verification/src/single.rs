//! Single-precision values as 32-bit patterns, and the arithmetic on them.
//!
//! An embedding coordinate is held as the bit pattern of an IEEE 754 binary32
//! value. Addition, multiplication and division are carried out on the
//! patterns by `rustc_apfloat`, the square root by `const_soft_float`; what
//! they return is named here and left uninterpreted. The one value the
//! library builds itself, a fraction `n / 2^23`, is exact and is constructed
//! and specified in full.

use const_soft_float::soft_f32::SoftF32;
use rustc_apfloat::ieee::Single;
use rustc_apfloat::{Float, Round};
use vstd::arithmetic::power2::{lemma2_to64, lemma_pow2_strictly_increases, lemma_pow2_unfold, pow2};
use vstd::prelude::*;

verus! {

/// Pattern of positive zero.
pub const ZERO_BITS: u32 = 0;

/// Pattern of negative zero.
pub const NEGATIVE_ZERO_BITS: u32 = 0x8000_0000;

/// Number of values an initial numerator can take: 2^23.
pub const FRACTION_RANGE: u32 = 0x80_0000;

/// Pattern of the rounded sum of the values with patterns `a` and `b`.
pub uninterp spec fn sum_bits(a: u32, b: u32) -> u32;

/// Pattern of the rounded product of the values with patterns `a` and `b`.
pub uninterp spec fn product_bits(a: u32, b: u32) -> u32;

/// Pattern of the rounded quotient of the value with pattern `a` by the one with pattern `b`.
pub uninterp spec fn quotient_bits(a: u32, b: u32) -> u32;

/// Pattern of the rounded square root of the value with pattern `a`.
pub uninterp spec fn root_bits(a: u32) -> u32;

/// Calls `Float::add_r` of `rustc_apfloat`, rounding to nearest, ties to
/// even, on the two `Single` values rebuilt from their patterns.
/// Claimed: the returned pattern is a function of the two patterns alone.
#[verifier::external_body]
pub(crate) fn add_single(a: u32, b: u32) -> (r: u32)
    ensures
        r == sum_bits(a, b),
{
    let left = Single::from_bits(u128::from(a));
    let right = Single::from_bits(u128::from(b));
    left.add_r(right, Round::NearestTiesToEven).value.to_bits() as u32
}

/// Calls `Float::mul_r` of `rustc_apfloat`, rounding to nearest, ties to
/// even, on the two `Single` values rebuilt from their patterns.
/// Claimed: the returned pattern is a function of the two patterns alone.
#[verifier::external_body]
pub(crate) fn mul_single(a: u32, b: u32) -> (r: u32)
    ensures
        r == product_bits(a, b),
{
    let left = Single::from_bits(u128::from(a));
    let right = Single::from_bits(u128::from(b));
    left.mul_r(right, Round::NearestTiesToEven).value.to_bits() as u32
}

/// Calls `Float::div_r` of `rustc_apfloat`, rounding to nearest, ties to
/// even, on the two `Single` values rebuilt from their patterns.
/// Claimed: the returned pattern is a function of the two patterns alone.
#[verifier::external_body]
pub(crate) fn div_single(a: u32, b: u32) -> (r: u32)
    ensures
        r == quotient_bits(a, b),
{
    let left = Single::from_bits(u128::from(a));
    let right = Single::from_bits(u128::from(b));
    left.div_r(right, Round::NearestTiesToEven).value.to_bits() as u32
}

/// Calls `SoftF32::sqrt` on the value rebuilt from its pattern.
/// Claimed: the returned pattern is a function of the pattern alone.
#[verifier::external_body]
pub(crate) fn sqrt_single(a: u32) -> (r: u32)
    ensures
        r == root_bits(a),
{
    SoftF32::from_bits(a).sqrt().to_bits()
}

/// Whether a pattern is one of the two zeros.
pub open spec fn is_zero(bits: u32) -> bool {
    bits == ZERO_BITS || bits == NEGATIVE_ZERO_BITS
}

/// Sign field of a pattern: its top bit.
pub open spec fn sign_field(bits: u32) -> nat {
    (bits / 0x8000_0000) as nat
}

/// Biased exponent field of a pattern: the eight bits below the sign.
pub open spec fn exponent_field(bits: u32) -> nat {
    ((bits / 0x80_0000) % 256) as nat
}

/// Fraction field of a pattern: its low 23 bits.
pub open spec fn fraction_field(bits: u32) -> nat {
    (bits % 0x80_0000) as nat
}

/// Whether `bits` is the pattern of the exact value `n / 2^23`.
///
/// Zero has the all-zero pattern. A positive normal value with biased exponent
/// `e` and fraction `f` is `(2^23 + f) * 2^(e - 150)`; it equals `n / 2^23`
/// exactly when `2^23 + f == n * 2^(127 - e)`.
pub open spec fn denotes_fraction(bits: u32, n: nat) -> bool {
    if n == 0 {
        bits == ZERO_BITS
    } else {
        &&& sign_field(bits) == 0
        &&& 1 <= exponent_field(bits) <= 126
        &&& 0x80_0000 + fraction_field(bits) == n * pow2((127 - exponent_field(bits)) as nat)
    }
}

/// The pattern of `n / 2^23`, for `n < 2^23`.
pub open spec fn fraction_bits(n: nat) -> u32 {
    choose|bits: u32| denotes_fraction(bits, n)
}

/// At most one pattern denotes a given fraction.
pub proof fn lemma_fraction_pattern_unique(a: u32, b: u32, n: nat)
    requires
        denotes_fraction(a, n),
        denotes_fraction(b, n),
    ensures
        a == b,
{
    if n > 0 {
        let ea = exponent_field(a);
        let eb = exponent_field(b);
        if ea < eb {
            lemma_exponent_gap(n, (127 - eb) as nat, (127 - ea) as nat);
        }
        if eb < ea {
            lemma_exponent_gap(n, (127 - ea) as nat, (127 - eb) as nat);
        }
    }
}

/// With `n` positive, scaling by a larger power of two at least doubles the product.
proof fn lemma_exponent_gap(n: nat, small: nat, large: nat)
    requires
        n > 0,
        small < large,
    ensures
        n * pow2(large) >= 2 * (n * pow2(small)),
{
    if small + 1 < large {
        lemma_pow2_strictly_increases((small + 1) as nat, large);
    }
    lemma_pow2_unfold((small + 1) as nat);
    assert(pow2(large) >= 2 * pow2(small));
    assert(n * pow2(large) >= 2 * (n * pow2(small))) by (nonlinear_arith)
        requires
            n > 0,
            pow2(large) >= 2 * pow2(small),
    ;
}

/// Builds the pattern of the exact value `n / 2^23`.
pub fn unit_fraction(n: u32) -> (bits: u32)
    requires
        n < FRACTION_RANGE,
    ensures
        denotes_fraction(bits, n as nat),
        bits == fraction_bits(n as nat),
{
    if n == 0 {
        proof {
            assert(denotes_fraction(0u32, 0nat));
            lemma_fraction_pattern_unique(0u32, fraction_bits(0nat), 0nat);
        }
        return 0;
    }
    let mut significand: u32 = n;
    let mut exponent: u32 = 127;
    proof {
        lemma2_to64();
        assert(pow2(0) == 1);
        assert(n * pow2(0) == n) by (nonlinear_arith)
            requires
                pow2(0) == 1,
        ;
    }
    while significand < 0x80_0000
        invariant
            0 < n < 0x80_0000,
            104 <= exponent <= 127,
            significand == n * pow2((127 - exponent) as nat),
            pow2((127 - exponent) as nat) <= significand < 0x100_0000,
            significand < 0x80_0000 || exponent <= 126,
        decreases exponent,
    {
        proof {
            lemma2_to64();
            lemma_pow2_unfold((128 - exponent) as nat);
            if exponent == 104 {
                assert(pow2(23) == 0x80_0000);
            }
            assert(2 * (n * pow2((127 - exponent) as nat)) == n * (2 * pow2((127 - exponent) as nat)))
                by (nonlinear_arith);
        }
        significand = significand * 2;
        exponent = exponent - 1;
    }
    let bits: u32 = exponent * 0x80_0000 + (significand - 0x80_0000);
    proof {
        assert(bits / 0x80_0000 == exponent);
        assert(bits % 0x80_0000 == significand - 0x80_0000);
        assert(denotes_fraction(bits, n as nat));
        lemma_fraction_pattern_unique(bits, fraction_bits(n as nat), n as nat);
    }
    bits
}

} // verus!
