//! What the operations on doubles give, in terms of the numbers that they stand for.
//!
//! Every operation gives the double closest to the exact result, the even one of two that are
//! equally close.

use vstd::arithmetic::power2::{lemma_pow2_pos, pow2};
use vstd::prelude::*;
use vstd::std_specs::cmp::PartialEqSpec;

use crate::binary64::Binary64;
use crate::rounding::{
    distance, is_nearest, lemma_magnitude_strictly_increases, lemma_nearest_exists, magnitude,
    INFINITY,
};

verus! {

/// How far a number is from `num / den`, times `den`.
pub open spec fn error(number: Binary64, num: int, den: nat) -> nat {
    vstd::math::abs(number.value() * den - num)
}

/// No double is closer to `num / den` than this one, and only odd ones are as close to it as an even
/// one.
///
/// Infinity stands for the first power of two that no double holds.
pub open spec fn is_closest(number: Binary64, num: int, den: nat) -> bool {
    &&& !number.nan()
    &&& forall|other: Binary64| #![trigger other.value()]
        !other.nan() && other.value() != number.value() ==> {
            ||| error(number, num, den) < error(other, num, den)
            ||| error(number, num, den) == error(other, num, den) && number.bits % 2 == 0
        }
}

/// The pattern nearest to the size of a fraction, with the sign of the fraction, is the double
/// closest to it.
proof fn lemma_closest(number: Binary64, num: int, den: nat)
    requires
        den > 0,
        is_nearest(vstd::math::abs(num), den, number.pattern()),
        num < 0 ==> number.negative(),
        num > 0 ==> !number.negative(),
    ensures
        is_closest(number, num, den),
{
    let size: nat = vstd::math::abs(num);
    let here: nat = number.pattern();
    assert(number.bits % 2 == 0 <==> here % 2 == 0);
    assert(magnitude(0) * den == 0) by (nonlinear_arith)
        requires
            magnitude(0) == 0,
    ;
    if num == 0 && here > 0 {
        lemma_magnitude_strictly_increases(0, here);
        assert(magnitude(here) * den > 0) by (nonlinear_arith)
            requires
                magnitude(here) > 0,
                den > 0,
        ;
        assert(distance(size, den, here) > distance(size, den, 0));
        assert(false);
    }
    assert(error(number, num, den) == distance(size, den, here)) by {
        assert((-(magnitude(here) as int)) * den == -(magnitude(here) * den)) by (nonlinear_arith);
    }
    assert(distance(size, den, here) <= distance(size, den, 0));
    assert forall|other: Binary64| #![trigger other.value()]
        !other.nan() && other.value() != number.value() implies {
        ||| error(number, num, den) < error(other, num, den)
        ||| error(number, num, den) == error(other, num, den) && number.bits % 2 == 0
    } by {
        let there: nat = other.pattern();
        let m: nat = magnitude(there);
        assert((-(m as int)) * den == -(m * den)) by (nonlinear_arith);
        if m > 0 {
            assert(m * den > 0) by (nonlinear_arith)
                requires
                    m > 0,
                    den > 0,
            ;
        } else {
            assert(m * den == 0) by (nonlinear_arith)
                requires
                    m == 0,
            ;
        }
        if m == 0 || num == 0 || other.negative() == (num < 0) {
            assert(error(other, num, den) == distance(size, den, there));
            assert(there != here);
        } else {
            assert(error(other, num, den) == m * den + size);
        }
    }
}

/// The sum of two finite numbers is the double closest to the exact sum. It has the sign of the
/// exact sum; a sum of zero is negative only if both numbers are.
pub proof fn sum_is_closest(a: Binary64, b: Binary64)
    requires
        a.finite(),
        b.finite(),
    ensures
        is_closest(a.spec_plus(b), a.value() + b.value(), 1),
        a.value() + b.value() != 0 ==> a.spec_plus(b).negative() == (a.value() + b.value() < 0),
        a.value() + b.value() == 0 ==> {
            &&& a.spec_plus(b).value() == 0
            &&& a.spec_plus(b).negative() == (a.negative() && b.negative())
        },
{
    let sum: int = a.value() + b.value();
    lemma_nearest_exists(vstd::math::abs(sum), 1);
    if sum == 0 {
        assert(is_nearest(0, 1, 0)) by {
            assert forall|other: nat| #![trigger magnitude(other)]
                other <= INFINITY && other != 0 implies distance(0, 1, 0) < distance(
                0,
                1,
                other,
            ) by {
                lemma_magnitude_strictly_increases(0, other);
            }
        }
    }
    lemma_closest(a.spec_plus(b), sum, 1);
}

/// A sum with an infinity or with NaN in it.
pub proof fn sum_of_what_is_not_finite(a: Binary64, b: Binary64)
    requires
        !a.finite() || !b.finite(),
    ensures
        a.nan() || b.nan() || a.infinite() && b.infinite() && a.negative() != b.negative()
            <==> a.spec_plus(b).nan(),
        a.infinite() && !a.spec_plus(b).nan() ==> a.spec_plus(b) == a,
        b.infinite() && !a.spec_plus(b).nan() ==> a.spec_plus(b) == b,
{
}

/// The opposite of a number differs from it in the sign only.
pub proof fn opposite_has_the_other_sign(a: Binary64)
    ensures
        a.spec_negated().negative() != a.negative(),
        a.spec_negated().pattern() == a.pattern(),
        a.spec_negated().value() == -a.value(),
        a.spec_negated().nan() == a.nan(),
{
}

/// The absolute value of a number differs from it at most in the sign, which is positive.
pub proof fn absolute_value_is_not_negative(a: Binary64)
    ensures
        !a.spec_abs().negative(),
        a.spec_abs().pattern() == a.pattern(),
        a.spec_abs().value() == vstd::math::abs(a.value()),
{
}

/// The difference of two finite numbers is the double closest to the exact difference. It has the
/// sign of the exact difference; the difference of equal numbers is a positive zero, but for a
/// negative zero less a positive one.
pub proof fn difference_is_closest(a: Binary64, b: Binary64)
    requires
        a.finite(),
        b.finite(),
    ensures
        is_closest(a.spec_minus(b), a.value() - b.value(), 1),
        a.value() != b.value() ==> a.spec_minus(b).negative() == (a.value() < b.value()),
        a.value() == b.value() ==> {
            &&& a.spec_minus(b).value() == 0
            &&& a.spec_minus(b).negative() == (a.negative() && !b.negative())
        },
{
    opposite_has_the_other_sign(b);
    sum_is_closest(a, b.spec_negated());
}

/// A difference with an infinity or with NaN in it.
pub proof fn difference_of_what_is_not_finite(a: Binary64, b: Binary64)
    requires
        !a.finite() || !b.finite(),
    ensures
        a.nan() || b.nan() || a.infinite() && b.infinite() && a.negative() == b.negative()
            <==> a.spec_minus(b).nan(),
        a.infinite() && !a.spec_minus(b).nan() ==> a.spec_minus(b) == a,
        b.infinite() && !a.spec_minus(b).nan() ==> a.spec_minus(b) == b.spec_negated(),
{
    opposite_has_the_other_sign(b);
    sum_of_what_is_not_finite(a, b.spec_negated());
}

/// The product of two finite numbers is the double closest to the exact product, and negative
/// exactly if one of them is.
pub proof fn product_is_closest(a: Binary64, b: Binary64)
    requires
        a.finite(),
        b.finite(),
    ensures
        is_closest(a.spec_times(b), a.value() * b.value(), pow2(1074)),
        a.spec_times(b).negative() == (a.negative() != b.negative()),
{
    let m: nat = magnitude(a.pattern());
    let n: nat = magnitude(b.pattern());
    lemma_pow2_pos(1074);
    lemma_nearest_exists(m * n, pow2(1074));
    assert((-(m as int)) * n == -(m * n) && m * (-(n as int)) == -(m * n) && (-(m as int)) * (-(
    n as int)) == m * n && m * n >= 0) by (nonlinear_arith);
    assert(m > 0 && n > 0 ==> m * n > 0) by (nonlinear_arith);
    assert(m == 0 || n == 0 ==> m * n == 0) by (nonlinear_arith);
    assert(vstd::math::abs(a.value() * b.value()) == m * n);
    lemma_closest(a.spec_times(b), a.value() * b.value(), pow2(1074));
}

/// A product with an infinity or with NaN in it.
pub proof fn product_of_what_is_not_finite(a: Binary64, b: Binary64)
    requires
        !a.finite() || !b.finite(),
    ensures
        a.nan() || b.nan() || a.value() == 0 || b.value() == 0 <==> a.spec_times(b).nan(),
        !a.spec_times(b).nan() ==> {
            &&& a.spec_times(b).infinite()
            &&& a.spec_times(b).negative() == (a.negative() != b.negative())
        },
{
    if a.pattern() > 0 {
        lemma_magnitude_strictly_increases(0, a.pattern());
    }
    if b.pattern() > 0 {
        lemma_magnitude_strictly_increases(0, b.pattern());
    }
}

/// The quotient of a finite number by a whole number is the double closest to the exact quotient,
/// and keeps the sign.
pub proof fn quotient_is_closest(a: Binary64, divisor: nat)
    requires
        a.finite(),
        divisor > 0,
    ensures
        is_closest(a.spec_over(divisor), a.value(), divisor),
        a.spec_over(divisor).negative() == a.negative(),
{
    lemma_nearest_exists(magnitude(a.pattern()), divisor);
    lemma_closest(a.spec_over(divisor), a.value(), divisor);
}

/// A quotient of an infinity or of NaN.
pub proof fn quotient_of_what_is_not_finite(a: Binary64, divisor: nat)
    requires
        !a.finite(),
        divisor > 0,
    ensures
        a.spec_over(divisor).nan() == a.nan(),
        a.infinite() ==> a.spec_over(divisor) == a,
{
}

/// Numbers compare by what they stand for, and NaN is neither less than nor equal to anything.
pub proof fn numbers_compare_by_value(a: Binary64, b: Binary64)
    ensures
        a.nan() || b.nan() ==> !a.spec_less_than(b) && !a.eq_spec(&b),
        !a.nan() && !b.nan() ==> {
            &&& a.spec_less_than(b) <==> a.value() < b.value()
            &&& a.eq_spec(&b) <==> a.value() == b.value()
        },
{
}

} // verus!
