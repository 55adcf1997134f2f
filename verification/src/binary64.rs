//! Double-precision numbers, held as their IEEE 754 bit patterns.

use vstd::arithmetic::power2::{
    lemma2_to64, lemma2_to64_rest, lemma_pow2_adds, lemma_pow2_pos, lemma_pow2_strictly_increases,
    lemma_pow2_unfold, pow2,
};
use vstd::bits::lemma_u64_shl_is_mul;
use vstd::prelude::*;

use crate::rounding::{
    lemma_magnitude_of_parts, lemma_magnitude_step, lemma_magnitude_strictly_increases,
    lemma_nearest_of_neighbours, lemma_nearest_unique, magnitude, nearest, round_scaled,
    ulp_exponent, BINADE, INFINITY, SCALE_BIAS,
};

verus! {

/// The bit that holds the sign.
pub const SIGN: u64 = 0x8000_0000_0000_0000;

/// Bits of the quiet NaN that invalid operations give.
pub const NAN: u64 = 0x7ff8_0000_0000_0000;

/// Largest number that [`Binary64::over`] divides by.
pub const MAX_DIVISOR: usize = 1024;

/// A double-precision number.
#[derive(Debug, Clone, Copy)]
pub struct Binary64 {
    /// The IEEE 754 bit pattern.
    pub bits: u64,
}

impl Binary64 {
    /// The sign bit is set.
    pub open spec fn negative(self) -> bool {
        self.bits >= SIGN
    }

    /// The bits below the sign.
    pub open spec fn pattern(self) -> nat {
        if self.negative() {
            (self.bits - SIGN) as nat
        } else {
            self.bits as nat
        }
    }

    /// Not a number.
    pub open spec fn nan(self) -> bool {
        self.pattern() > INFINITY
    }

    /// Plus or minus infinity.
    pub open spec fn infinite(self) -> bool {
        self.pattern() == INFINITY
    }

    /// Neither infinite nor NaN.
    pub open spec fn finite(self) -> bool {
        self.pattern() < INFINITY
    }

    /// The number in units of the smallest subnormal; infinities count as two to the 1024th.
    pub open spec fn value(self) -> int {
        if self.negative() {
            -(magnitude(self.pattern()) as int)
        } else {
            magnitude(self.pattern()) as int
        }
    }

    /// The number with this sign and this pattern.
    pub open spec fn assembled(negative: bool, pattern: nat) -> Binary64 {
        Binary64 {
            bits: if negative {
                (SIGN + pattern) as u64
            } else {
                pattern as u64
            },
        }
    }

    /// Sum, rounded to nearest.
    pub open spec fn spec_plus(self, other: Binary64) -> Binary64 {
        let sum: int = self.value() + other.value();
        if self.nan() || other.nan() {
            Binary64 { bits: NAN }
        } else if self.infinite() && other.infinite() && self.negative() != other.negative() {
            Binary64 { bits: NAN }
        } else if self.infinite() {
            self
        } else if other.infinite() {
            other
        } else if sum == 0 {
            Binary64::assembled(self.negative() && other.negative(), 0)
        } else if sum < 0 {
            Binary64::assembled(true, nearest((-sum) as nat, 1))
        } else {
            Binary64::assembled(false, nearest(sum as nat, 1))
        }
    }

    /// Opposite sign, everything else the same.
    pub open spec fn spec_negated(self) -> Binary64 {
        Binary64::assembled(!self.negative(), self.pattern())
    }

    /// Difference, rounded to nearest.
    pub open spec fn spec_minus(self, other: Binary64) -> Binary64 {
        self.spec_plus(other.spec_negated())
    }

    /// Product, rounded to nearest.
    pub open spec fn spec_times(self, other: Binary64) -> Binary64 {
        let negative: bool = self.negative() != other.negative();
        if self.nan() || other.nan() {
            Binary64 { bits: NAN }
        } else if self.infinite() && other.pattern() == 0 || other.infinite() && self.pattern()
            == 0 {
            Binary64 { bits: NAN }
        } else if self.infinite() || other.infinite() {
            Binary64::assembled(negative, INFINITY as nat)
        } else {
            Binary64::assembled(
                negative,
                nearest(magnitude(self.pattern()) * magnitude(other.pattern()), pow2(1074)),
            )
        }
    }

    /// Quotient by a whole number, rounded to nearest.
    pub open spec fn spec_over(self, divisor: nat) -> Binary64 {
        if self.nan() {
            Binary64 { bits: NAN }
        } else if self.infinite() {
            self
        } else {
            Binary64::assembled(self.negative(), nearest(magnitude(self.pattern()), divisor))
        }
    }

    /// Absolute value.
    pub open spec fn spec_abs(self) -> Binary64 {
        Binary64::assembled(false, self.pattern())
    }

    /// `self < other`; false where either is NaN.
    pub open spec fn spec_less_than(self, other: Binary64) -> bool {
        !self.nan() && !other.nan() && self.value() < other.value()
    }
}

/// Splits a finite pattern into the exponent of its last place and its significand.
fn parts(pattern: u64) -> (result: (u32, u64))
    requires
        pattern < INFINITY,
    ensures
        result.0 <= 2045,
        result.1 < 2 * BINADE,
        result.0 == 0 || result.1 >= BINADE,
        pattern == result.0 * BINADE + result.1,
        magnitude(pattern as nat) == result.1 * pow2(result.0 as nat),
{
    let field: u64 = pattern / BINADE;
    let exponent: u64 = if field == 0 {
        0
    } else {
        field - 1
    };
    let significand: u64 = pattern - exponent * BINADE;
    proof {
        lemma_magnitude_of_parts(exponent as nat, significand as nat);
    }
    (exponent as u32, significand)
}

/// A small number does not move a much larger one.
proof fn lemma_absorbed(large: nat, small: nat, subtract: bool)
    requires
        large < INFINITY,
        large >= BINADE * 2,
        4 * magnitude(small) < pow2(ulp_exponent(large)),
        magnitude(small) <= magnitude(large),
    ensures
        ({
            let exact: nat = if subtract {
                (magnitude(large) - magnitude(small)) as nat
            } else {
                magnitude(large) + magnitude(small)
            };
            nearest(exact, 1) == large
        }),
{
    let exponent: nat = ulp_exponent(large);
    lemma_magnitude_step(large);
    lemma_pow2_pos(exponent);
    if subtract {
        let exact: nat = (magnitude(large) - magnitude(small)) as nat;
        let below: nat = (large - 1) as nat;
        lemma_magnitude_step(below);
        lemma_pow2_unfold(exponent);
        lemma_nearest_of_neighbours(exact, 1, below);
        lemma_nearest_unique(exact, 1, large);
    } else {
        let exact: nat = magnitude(large) + magnitude(small);
        lemma_nearest_of_neighbours(exact, 1, large);
        lemma_nearest_unique(exact, 1, large);
    }
}

/// Rounds the sum or the difference of two magnitudes.
fn combine(large: u64, small: u64, subtract: bool) -> (pattern: u64)
    requires
        small <= large < INFINITY,
    ensures
        magnitude(small as nat) <= magnitude(large as nat),
        pattern <= INFINITY,
        pattern == nearest(
            if subtract {
                (magnitude(large as nat) - magnitude(small as nat)) as nat
            } else {
                magnitude(large as nat) + magnitude(small as nat)
            },
            1,
        ),
{
    let (large_exponent, large_significand): (u32, u64) = parts(large);
    let (small_exponent, small_significand): (u32, u64) = parts(small);
    proof {
        if small < large {
            lemma_magnitude_strictly_increases(small as nat, large as nat);
        }
    }
    let gap: u32 = large_exponent - small_exponent;
    if gap > 63 {
        proof {
            lemma2_to64();
            lemma2_to64_rest();
            lemma_pow2_adds(small_exponent as nat, gap as nat);
            if gap > 64 {
                lemma_pow2_strictly_increases(64, gap as nat);
            }
            let unit: nat = pow2(small_exponent as nat);
            lemma_pow2_pos(small_exponent as nat);
            assert(4 * (small_significand * unit) < unit * pow2(gap as nat)) by (nonlinear_arith)
                requires
                    small_significand < 0x20_0000_0000_0000,
                    pow2(gap as nat) >= 0x1_0000_0000_0000_0000,
                    unit > 0,
            ;
            lemma_absorbed(large as nat, small as nat, subtract);
        }
        return large;
    }
    let factor: u64 = 1u64 << (gap as u64);
    let ghost unit: nat = pow2(small_exponent as nat);
    proof {
        lemma2_to64();
        lemma2_to64_rest();
        lemma_pow2_pos(gap as nat);
        if gap < 63 {
            lemma_pow2_strictly_increases(gap as nat, 63);
        }
        lemma_u64_shl_is_mul(1, gap as u64);
        lemma_pow2_adds(small_exponent as nat, gap as nat);
        lemma_pow2_adds(small_exponent as nat, SCALE_BIAS as nat);
        lemma_pow2_pos(small_exponent as nat);
        assert((large_significand * factor) * unit == magnitude(large as nat)) by (nonlinear_arith)
            requires
                magnitude(large as nat) == large_significand * pow2(large_exponent as nat),
                pow2(large_exponent as nat) == unit * factor,
        ;
        assert(large_significand * factor < 0x1_0000_0000_0000_0000 * 0x20_0000_0000_0000)
            by (nonlinear_arith)
            requires
                large_significand < 0x20_0000_0000_0000,
                factor < 0x1_0000_0000_0000_0000,
        ;
        assert((large_significand * factor) * unit >= small_significand * unit ==> small_significand
            <= large_significand * factor) by (nonlinear_arith)
            requires
                unit > 0,
        ;
    }
    let aligned: u128 = large_significand as u128 * factor as u128;
    let units: u128 = if subtract {
        aligned - small_significand as u128
    } else {
        aligned + small_significand as u128
    };
    let ghost exact: nat = if subtract {
        (magnitude(large as nat) - magnitude(small as nat)) as nat
    } else {
        magnitude(large as nat) + magnitude(small as nat)
    };
    proof {
        assert(units * unit == exact) by (nonlinear_arith)
            requires
                subtract ==> units == aligned - small_significand,
                !subtract ==> units == aligned + small_significand,
                subtract ==> exact == aligned * unit - small_significand * unit,
                !subtract ==> exact == aligned * unit + small_significand * unit,
        ;
        let bias: nat = pow2(SCALE_BIAS as nat);
        assert(exact * bias == units * (unit * bias * 1)) by (nonlinear_arith)
            requires
                units * unit == exact,
        ;
    }
    round_scaled(units, false, small_exponent + SCALE_BIAS, Ghost(exact), Ghost(1))
}

impl Binary64 {
    /// The number with the given bit pattern.
    pub fn from_bits(bits: u64) -> (number: Binary64)
        ensures
            number.bits == bits,
    {
        Binary64 { bits }
    }

    /// The bit pattern.
    pub fn to_bits(self) -> (bits: u64)
        ensures
            bits == self.bits,
    {
        self.bits
    }

    /// Positive zero.
    pub fn zero() -> (number: Binary64)
        ensures
            number.bits == 0,
            number.value() == 0,
    {
        Binary64 { bits: 0 }
    }

    fn is_negative(self) -> (result: bool)
        ensures
            result == self.negative(),
    {
        self.bits >= SIGN
    }

    fn below_sign(self) -> (pattern: u64)
        ensures
            pattern == self.pattern(),
    {
        if self.bits >= SIGN {
            self.bits - SIGN
        } else {
            self.bits
        }
    }

    fn assemble(negative: bool, pattern: u64) -> (number: Binary64)
        requires
            pattern < SIGN,
        ensures
            number == Binary64::assembled(negative, pattern as nat),
            number.negative() == negative,
            number.pattern() == pattern,
    {
        Binary64 {
            bits: if negative {
                SIGN + pattern
            } else {
                pattern
            },
        }
    }

    /// Whether this is not a number.
    pub fn is_nan(self) -> (result: bool)
        ensures
            result == self.nan(),
    {
        self.below_sign() > INFINITY
    }

    /// `self + other`, rounded to the nearest double.
    pub fn plus(self, other: Binary64) -> (sum: Binary64)
        ensures
            sum == self.spec_plus(other),
    {
        let a: u64 = self.below_sign();
        let b: u64 = other.below_sign();
        let subtract: bool = self.is_negative() != other.is_negative();
        if a > INFINITY || b > INFINITY || a == INFINITY && b == INFINITY && subtract {
            return Binary64 { bits: NAN };
        }
        if a == INFINITY {
            return self;
        }
        if b == INFINITY {
            return other;
        }
        let (large, small, negative): (u64, u64, bool) = if a >= b {
            (a, b, self.is_negative())
        } else {
            (b, a, other.is_negative())
        };
        proof {
            if small < large {
                lemma_magnitude_strictly_increases(small as nat, large as nat);
            }
            if 0 < large {
                lemma_magnitude_strictly_increases(0, large as nat);
            }
        }
        if large == small && subtract {
            return Binary64 { bits: 0 };
        }
        if large == 0 {
            return Binary64::assemble(negative, 0);
        }
        Binary64::assemble(negative, combine(large, small, subtract))
    }

    /// The number with the opposite sign.
    pub fn negated(self) -> (opposite: Binary64)
        ensures
            opposite == self.spec_negated(),
    {
        Binary64::assemble(!self.is_negative(), self.below_sign())
    }

    /// `self - other`, rounded to the nearest double.
    pub fn minus(self, other: Binary64) -> (difference: Binary64)
        ensures
            difference == self.spec_minus(other),
    {
        self.plus(other.negated())
    }

    /// `self * other`, rounded to the nearest double.
    pub fn times(self, other: Binary64) -> (product: Binary64)
        ensures
            product == self.spec_times(other),
    {
        let a: u64 = self.below_sign();
        let b: u64 = other.below_sign();
        let negative: bool = self.is_negative() != other.is_negative();
        if a > INFINITY || b > INFINITY || a == INFINITY && b == 0 || b == INFINITY && a == 0 {
            return Binary64 { bits: NAN };
        }
        if a == INFINITY || b == INFINITY {
            return Binary64::assemble(negative, INFINITY);
        }
        let (a_exponent, a_significand): (u32, u64) = parts(a);
        let (b_exponent, b_significand): (u32, u64) = parts(b);
        let ghost num: nat = magnitude(a as nat) * magnitude(b as nat);
        let ghost den: nat = pow2(1074);
        proof {
            assert(a_significand * b_significand < 0x20_0000_0000_0000 * 0x20_0000_0000_0000)
                by (nonlinear_arith)
                requires
                    a_significand < 0x20_0000_0000_0000,
                    b_significand < 0x20_0000_0000_0000,
            ;
        }
        let units: u128 = a_significand as u128 * b_significand as u128;
        let scale: u32 = a_exponent + b_exponent + (SCALE_BIAS - 1074);
        proof {
            lemma_pow2_pos(1074);
            lemma_pow2_adds(scale as nat, 1074);
            lemma_pow2_adds(a_exponent as nat, b_exponent as nat);
            lemma_pow2_adds((a_exponent + b_exponent) as nat, SCALE_BIAS as nat);
            let pa: nat = pow2(a_exponent as nat);
            let pb: nat = pow2(b_exponent as nat);
            let bias: nat = pow2(SCALE_BIAS as nat);
            assert(num * bias == units * ((pa * pb) * bias)) by (nonlinear_arith)
                requires
                    num == (a_significand * pa) * (b_significand * pb),
                    units == a_significand * b_significand,
            ;
        }
        let pattern: u64 = round_scaled(units, false, scale, Ghost(num), Ghost(den));
        Binary64::assemble(negative, pattern)
    }

    /// `self / divisor`, rounded to the nearest double.
    pub fn over(self, divisor: usize) -> (quotient: Binary64)
        requires
            0 < divisor <= MAX_DIVISOR,
        ensures
            quotient == self.spec_over(divisor as nat),
    {
        let pattern: u64 = self.below_sign();
        if pattern > INFINITY {
            return Binary64 { bits: NAN };
        }
        if pattern == INFINITY {
            return self;
        }
        let (exponent, significand): (u32, u64) = parts(pattern);
        let ghost num: nat = magnitude(pattern as nat);
        let ghost den: nat = divisor as nat;
        let shifted: u128 = significand as u128 * 0x1_0000_0000_0000_0000;
        let units: u128 = shifted / divisor as u128;
        let rest: u128 = shifted % divisor as u128;
        let scale: u32 = exponent + (SCALE_BIAS - 64);
        proof {
            lemma2_to64();
            lemma_pow2_pos(scale as nat);
            lemma_pow2_adds(scale as nat, 64);
            lemma_pow2_adds(exponent as nat, SCALE_BIAS as nat);
            let grain: nat = pow2(scale as nat);
            let bias: nat = pow2(SCALE_BIAS as nat);
            vstd::arithmetic::div_mod::lemma_fundamental_div_mod(shifted as int, divisor as int);
            assert(num * bias == shifted * grain) by (nonlinear_arith)
                requires
                    num == significand * pow2(exponent as nat),
                    pow2(exponent as nat) * bias == grain * 0x1_0000_0000_0000_0000,
                    shifted == significand * 0x1_0000_0000_0000_0000,
            ;
            assert(units * (grain * den) + rest * grain == shifted * grain) by (nonlinear_arith)
                requires
                    shifted == den * units + rest,
            ;
            assert((units + 1) * (grain * den) == units * (grain * den) + grain * den)
                by (nonlinear_arith);
            assert(rest * grain < grain * den) by (nonlinear_arith)
                requires
                    rest < den,
                    grain > 0,
            ;
            assert(rest > 0 ==> rest * grain > 0) by (nonlinear_arith)
                requires
                    grain > 0,
            ;
            assert(rest == 0 ==> rest * grain == 0) by (nonlinear_arith);
            if rest > 0 {
                assert(units >= 0x20_0000_0000_0000) by (nonlinear_arith)
                    requires
                        shifted >= 0x1_0000_0000_0000_0000,
                        shifted == den * units + rest,
                        rest < den <= 1024,
                ;
            }
            assert(units <= shifted) by (nonlinear_arith)
                requires
                    shifted == den * units + rest,
                    den >= 1,
                    units >= 0,
            ;
        }
        let rounded: u64 = round_scaled(units, rest != 0, scale, Ghost(num), Ghost(den));
        Binary64::assemble(self.is_negative(), rounded)
    }

    /// Absolute value.
    pub fn abs(self) -> (absolute: Binary64)
        ensures
            absolute == self.spec_abs(),
    {
        Binary64 { bits: self.below_sign() }
    }

    /// Whether `self < other`; false where either is NaN.
    pub fn less_than(self, other: Binary64) -> (result: bool)
        ensures
            result == self.spec_less_than(other),
    {
        let a: u64 = self.below_sign();
        let b: u64 = other.below_sign();
        proof {
            if a < b {
                lemma_magnitude_strictly_increases(a as nat, b as nat);
            }
            if b < a {
                lemma_magnitude_strictly_increases(b as nat, a as nat);
            }
            if 0 < a {
                lemma_magnitude_strictly_increases(0, a as nat);
            }
            if 0 < b {
                lemma_magnitude_strictly_increases(0, b as nat);
            }
        }
        if a > INFINITY || b > INFINITY {
            false
        } else if self.is_negative() {
            if other.is_negative() {
                b < a
            } else {
                0 < a || 0 < b
            }
        } else {
            !other.is_negative() && a < b
        }
    }
}

impl PartialEq for Binary64 {
    /// Numeric equality: the two zeros are equal, and NaN equals nothing.
    fn eq(&self, other: &Self) -> (result: bool) {
        let a: u64 = self.below_sign();
        let b: u64 = other.below_sign();
        proof {
            if a < b {
                lemma_magnitude_strictly_increases(a as nat, b as nat);
            }
            if b < a {
                lemma_magnitude_strictly_increases(b as nat, a as nat);
            }
            if 0 < a {
                lemma_magnitude_strictly_increases(0, a as nat);
            }
        }
        a == b && a <= INFINITY && (a == 0 || self.is_negative() == other.is_negative())
    }
}

impl vstd::std_specs::cmp::PartialEqSpecImpl for Binary64 {
    open spec fn obeys_eq_spec() -> bool {
        true
    }

    open spec fn eq_spec(&self, other: &Self) -> bool {
        !self.nan() && !other.nan() && self.value() == other.value()
    }
}

} // verus!
