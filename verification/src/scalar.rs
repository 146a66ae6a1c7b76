//! Binary64 numbers by their bit patterns.
//!
//! A pattern has a sign bit, eleven exponent bits and fifty-two fraction bits.
//! Every number it can stand for is a whole multiple of two to the power
//! -1074, so the model below measures numbers in that unit and stays within
//! the integers: `value` of the pattern of one is `unit()`.

use vstd::arithmetic::div_mod::*;
use vstd::arithmetic::power2::*;
use vstd::bits::*;
use vstd::prelude::*;

verus! {

/// The sign bit of a pattern.
pub const SIGN_BIT: u64 = 0x8000_0000_0000_0000;

/// Everything but the sign bit.
pub const ABS_MASK: u64 = 0x7fff_ffff_ffff_ffff;

/// The weight of the hidden bit: two to the fifty-second power.
pub const HIDDEN_BIT: u64 = 0x0010_0000_0000_0000;

/// The fifty-two fraction bits.
pub const FRACTION_MASK: u64 = 0x000f_ffff_ffff_ffff;

/// The pattern of positive infinity. Every pattern above it, sign aside, is a NaN.
pub const INFINITY_BITS: u64 = 0x7ff0_0000_0000_0000;

/// The exponent field of the numbers from one up to, but not including, two.
pub const EXPONENT_BIAS: u64 = 1023;

/// How many units of two to the power -1074 make one.
pub open spec fn unit() -> int {
    pow2(1074) as int
}

/// The size, in units, of the number whose pattern without its sign is `abs`.
///
/// With an exponent field of zero the fraction counts units directly. Otherwise
/// the hidden bit joins the fraction and each step of the exponent doubles the
/// result. Infinity gets the size that the next exponent step would have, which
/// is above every finite size.
pub open spec fn magnitude_of(abs: int) -> int {
    let exponent: int = abs / (HIDDEN_BIT as int);
    let fraction: int = abs % (HIDDEN_BIT as int);
    if exponent == 0 {
        fraction
    } else {
        (HIDDEN_BIT + fraction) * pow2((exponent - 1) as nat)
    }
}

/// A larger pattern stands for a larger size.
pub proof fn lemma_magnitude_increases(a: int, b: int)
    requires
        0 <= a < b,
    ensures
        0 <= magnitude_of(a) < magnitude_of(b),
{
    let h: int = HIDDEN_BIT as int;
    let ea: int = a / h;
    let fa: int = a % h;
    let eb: int = b / h;
    let fb: int = b % h;
    if ea > 0 {
        lemma_pow2_pos((ea - 1) as nat);
        let p: int = pow2((ea - 1) as nat) as int;
        assert(0 <= (h + fa) * p) by (nonlinear_arith)
            requires
                0 <= fa,
                0 < h,
                0 < p,
        ;
    }
    if ea == eb {
        if ea != 0 {
            let p: int = pow2((ea - 1) as nat) as int;
            assert((h + fa) * p < (h + fb) * p) by (nonlinear_arith)
                requires
                    fa < fb,
                    0 < p,
            ;
        }
    } else {
        let q: int = pow2((eb - 1) as nat) as int;
        lemma_pow2_pos((eb - 1) as nat);
        assert(h * q <= (h + fb) * q) by (nonlinear_arith)
            requires
                0 <= fb,
                0 < q,
        ;
        if ea == 0 {
            assert(h <= h * q) by (nonlinear_arith)
                requires
                    0 < h,
                    1 <= q,
            ;
        } else {
            let p: int = pow2((ea - 1) as nat) as int;
            lemma_pow2_unfold(ea as nat);
            if ea < eb - 1 {
                lemma_pow2_strictly_increases(ea as nat, (eb - 1) as nat);
            }
            assert((h + fa) * p < h * q) by (nonlinear_arith)
                requires
                    0 <= fa < h,
                    0 < p,
                    2 * p <= q,
            ;
        }
    }
}

/// Patterns without sign and the sizes they stand for are ordered alike.
pub proof fn lemma_magnitude_order(a: int, b: int)
    requires
        0 <= a,
        0 <= b,
    ensures
        0 <= magnitude_of(a),
        0 <= magnitude_of(b),
        a < b <==> magnitude_of(a) < magnitude_of(b),
        a == b <==> magnitude_of(a) == magnitude_of(b),
        a == 0 <==> magnitude_of(a) == 0,
{
    if a < b {
        lemma_magnitude_increases(a, b);
    } else if b < a {
        lemma_magnitude_increases(b, a);
    }
    if 0 < a {
        lemma_magnitude_increases(0, a);
    }
}

/// Clearing the sign bit with a mask subtracts its weight where it was set.
pub proof fn lemma_abs_mask(bits: u64)
    ensures
        bits & ABS_MASK == (if bits >= SIGN_BIT {
            bits - SIGN_BIT
        } else {
            bits as int
        }),
{
    assert(bits & 0x7fff_ffff_ffff_ffff == (if bits >= 0x8000_0000_0000_0000 {
        (bits - 0x8000_0000_0000_0000) as u64
    } else {
        bits
    })) by (bit_vector);
}

/// A binary64 number, held as its sixty-four bits.
#[derive(Clone, Copy, Debug, PartialEq, Eq, Structural)]
pub struct Scalar {
    pub bits: u64,
}

impl Scalar {
    /// The sign bit is set. True of negative zero and of half the NaNs too.
    pub open spec fn spec_is_sign_negative(self) -> bool {
        self.bits >= SIGN_BIT
    }

    /// The pattern with the sign bit cleared.
    pub open spec fn abs_bits(self) -> int {
        if self.bits >= SIGN_BIT {
            self.bits - SIGN_BIT
        } else {
            self.bits as int
        }
    }

    /// Not a number: the exponent field is all ones and the fraction is not zero.
    pub open spec fn spec_is_nan(self) -> bool {
        self.abs_bits() > INFINITY_BITS
    }

    /// The size of the number in units, sign aside.
    pub open spec fn magnitude(self) -> int {
        magnitude_of(self.abs_bits())
    }

    /// The number in units of two to the power -1074. Both zeros give 0, and
    /// the infinities lie beyond every finite number. Says nothing of a NaN.
    pub open spec fn value(self) -> int {
        if self.spec_is_sign_negative() {
            -self.magnitude()
        } else {
            self.magnitude()
        }
    }

    /// `self < other` as binary64 numbers: false as soon as either is a NaN.
    pub open spec fn spec_less_than(self, other: Scalar) -> bool {
        !self.spec_is_nan() && !other.spec_is_nan() && self.value() < other.value()
    }

    /// `self < 0` as a binary64 number.
    pub open spec fn spec_is_below_zero(self) -> bool {
        !self.spec_is_nan() && self.value() < 0
    }

    /// The number cut down to an eight-bit channel: its whole part, held to the
    /// range from 0 to 255, and 0 for a NaN.
    pub open spec fn spec_to_u8(self) -> u8 {
        if self.spec_is_nan() || self.spec_is_sign_negative() {
            0
        } else {
            let whole: int = self.magnitude() / unit();
            if whole >= 255 {
                255
            } else {
                whole as u8
            }
        }
    }

    /// Wraps a bit pattern.
    pub fn from_bits(bits: u64) -> (s: Scalar)
        ensures
            s.bits == bits,
    {
        Scalar { bits }
    }

    /// The bit pattern.
    pub fn to_bits(self) -> (bits: u64)
        ensures
            bits == self.bits,
    {
        self.bits
    }

    /// Positive zero.
    pub fn zero() -> (s: Scalar)
        ensures
            s.bits == 0,
            !s.spec_is_nan(),
            s.value() == 0,
            s.spec_to_u8() == 0,
    {
        proof {
            lemma_zero_channel();
        }
        Scalar { bits: 0 }
    }

    /// Positive infinity.
    pub fn infinity() -> (s: Scalar)
        ensures
            s.bits == INFINITY_BITS,
            !s.spec_is_nan(),
    {
        Scalar { bits: INFINITY_BITS }
    }

    /// Whether the sign bit is set.
    #[verifier::when_used_as_spec(spec_is_sign_negative)]
    pub fn is_sign_negative(self) -> (r: bool)
        ensures
            r == self.spec_is_sign_negative(),
    {
        self.bits >= SIGN_BIT
    }

    /// Whether the pattern is a NaN.
    #[verifier::when_used_as_spec(spec_is_nan)]
    pub fn is_nan(self) -> (r: bool)
        ensures
            r == self.spec_is_nan(),
    {
        proof {
            lemma_abs_mask(self.bits);
        }
        (self.bits & ABS_MASK) > INFINITY_BITS
    }

    /// Whether `self < other`, decided on the bits alone.
    #[verifier::when_used_as_spec(spec_less_than)]
    pub fn less_than(self, other: Scalar) -> (r: bool)
        ensures
            r == self.spec_less_than(other),
    {
        if self.is_nan() || other.is_nan() {
            return false;
        }
        let a: u64 = self.bits & ABS_MASK;
        let b: u64 = other.bits & ABS_MASK;
        proof {
            lemma_abs_mask(self.bits);
            lemma_abs_mask(other.bits);
            lemma_magnitude_order(a as int, b as int);
        }
        if self.bits >= SIGN_BIT {
            if other.bits >= SIGN_BIT {
                b < a
            } else {
                a != 0 || b != 0
            }
        } else {
            if other.bits >= SIGN_BIT {
                false
            } else {
                a < b
            }
        }
    }

    /// Whether `self < 0`: the sign bit is set and the number is neither a zero nor a NaN.
    #[verifier::when_used_as_spec(spec_is_below_zero)]
    pub fn is_below_zero(self) -> (r: bool)
        ensures
            r == self.spec_is_below_zero(),
            r == self.spec_less_than(Scalar { bits: 0 }),
    {
        let a: u64 = self.bits & ABS_MASK;
        proof {
            lemma_abs_mask(self.bits);
            lemma_magnitude_order(a as int, 0);
        }
        self.bits >= SIGN_BIT && a != 0 && a <= INFINITY_BITS
    }

    /// The whole part of the number as an eight-bit channel. Numbers below
    /// zero and NaNs give 0, numbers from 255 on give 255.
    #[verifier::when_used_as_spec(spec_to_u8)]
    pub fn to_u8(self) -> (r: u8)
        ensures
            r == self.spec_to_u8(),
    {
        if self.bits > INFINITY_BITS {
            // The sign bit is set, or the pattern is a NaN.
            return 0;
        }
        let exponent: u64 = self.bits >> 52;
        let fraction: u64 = self.bits & FRACTION_MASK;
        proof {
            let b: u64 = self.bits;
            assert(b >> 52 == b / 0x0010_0000_0000_0000) by (bit_vector);
            assert(b & 0x000f_ffff_ffff_ffff == b % 0x0010_0000_0000_0000) by (bit_vector);
        }
        if exponent < EXPONENT_BIAS {
            proof {
                lemma_below_one(exponent as int, fraction as int);
            }
            return 0;
        }
        if exponent >= EXPONENT_BIAS + 8 {
            proof {
                lemma_from_256(exponent as int, fraction as int);
            }
            return 255;
        }
        let significand: u64 = HIDDEN_BIT + fraction;
        let shift: u64 = EXPONENT_BIAS + 52 - exponent;
        proof {
            lemma_whole_part(exponent as int, significand as int);
            lemma_u64_shr_is_div(significand, shift);
            assert(significand >> shift < 256) by (bit_vector)
                requires
                    significand < 0x0020_0000_0000_0000,
                    45 <= shift <= 52,
            ;
        }
        (significand >> shift) as u8
    }
}

/// No number lies above positive infinity.
pub proof fn lemma_infinity_is_greatest(s: Scalar)
    requires
        !s.spec_is_nan(),
    ensures
        s.value() <= (Scalar { bits: INFINITY_BITS }).value(),
{
    lemma_magnitude_order(s.abs_bits(), INFINITY_BITS as int);
}

/// Positive zero is the number nought, and as a channel it is 0.
pub proof fn lemma_zero_channel()
    ensures
        (Scalar { bits: 0 }).value() == 0,
        (Scalar { bits: 0 }).spec_to_u8() == 0,
{
    lemma_pow2_pos(1074);
    lemma_basic_div(0, unit());
}

/// With an exponent field under the bias the number is less than one.
proof fn lemma_below_one(exponent: int, fraction: int)
    requires
        0 <= exponent < EXPONENT_BIAS,
        0 <= fraction < HIDDEN_BIT,
    ensures
        magnitude_of(exponent * HIDDEN_BIT + fraction) / unit() == 0,
{
    let h: int = HIDDEN_BIT as int;
    let abs: int = exponent * h + fraction;
    assert(abs / h == exponent && abs % h == fraction) by {
        lemma_fundamental_div_mod_converse(abs, h, exponent, fraction);
    }
    lemma2_to64_rest();
    let m: int = magnitude_of(abs);
    lemma_magnitude_order(abs, 0);
    if exponent == 0 {
        lemma_pow2_strictly_increases(52, 1074);
    } else {
        let p: int = pow2((exponent - 1) as nat) as int;
        lemma_pow2_pos((exponent - 1) as nat);
        lemma_pow2_adds(53, (exponent - 1) as nat);
        if exponent + 52 < 1074 {
            lemma_pow2_strictly_increases((exponent + 52) as nat, 1074);
        }
        assert((h + fraction) * p < 2 * h * p) by (nonlinear_arith)
            requires
                fraction < h,
                0 < p,
        ;
    }
    lemma_pow2_pos(1074);
    lemma_basic_div(m, unit());
}

/// With an exponent field eight or more above the bias the number is at least 256.
proof fn lemma_from_256(exponent: int, fraction: int)
    requires
        EXPONENT_BIAS + 8 <= exponent,
        0 <= fraction < HIDDEN_BIT,
    ensures
        magnitude_of(exponent * HIDDEN_BIT + fraction) / unit() >= 256,
{
    let h: int = HIDDEN_BIT as int;
    let abs: int = exponent * h + fraction;
    assert(abs / h == exponent && abs % h == fraction) by {
        lemma_fundamental_div_mod_converse(abs, h, exponent, fraction);
    }
    lemma2_to64();
    lemma2_to64_rest();
    let p: int = pow2((exponent - 1) as nat) as int;
    let m: int = magnitude_of(abs);
    lemma_pow2_pos(1074);
    lemma_pow2_adds(52, 1030);
    lemma_pow2_adds(8, 1074);
    if 1030 < exponent - 1 {
        lemma_pow2_strictly_increases(1030, (exponent - 1) as nat);
    }
    assert(h * pow2(1030) <= (h + fraction) * p) by (nonlinear_arith)
        requires
            0 <= fraction,
            0 < h,
            0 < pow2(1030) <= p,
    ;
    assert(256 * unit() <= m);
    lemma_div_is_ordered(256 * unit(), m, unit());
    lemma_div_multiples_vanish(256, unit());
}

/// Between one and 256 the whole part is the significand without its low bits.
proof fn lemma_whole_part(exponent: int, significand: int)
    requires
        EXPONENT_BIAS <= exponent < EXPONENT_BIAS + 8,
        HIDDEN_BIT <= significand < 2 * HIDDEN_BIT,
    ensures
        magnitude_of(exponent * HIDDEN_BIT + (significand - HIDDEN_BIT)) / unit() == significand
            / (pow2((EXPONENT_BIAS + 52 - exponent) as nat) as int),
{
    let h: int = HIDDEN_BIT as int;
    let fraction: int = significand - h;
    let abs: int = exponent * h + fraction;
    assert(abs / h == exponent && abs % h == fraction) by {
        lemma_fundamental_div_mod_converse(abs, h, exponent, fraction);
    }
    let p: int = pow2((exponent - 1) as nat) as int;
    let s: int = pow2((EXPONENT_BIAS + 52 - exponent) as nat) as int;
    lemma_pow2_pos((exponent - 1) as nat);
    lemma_pow2_pos((EXPONENT_BIAS + 52 - exponent) as nat);
    lemma_pow2_adds((exponent - 1) as nat, (EXPONENT_BIAS + 52 - exponent) as nat);
    assert(unit() == p * s);
    lemma_div_multiples_vanish_quotient(p, significand, s);
    assert(significand * p == p * significand) by (nonlinear_arith);
}

} // verus!
