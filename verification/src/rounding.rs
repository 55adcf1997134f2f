//! Rounding to the nearest double.
//!
//! A non-negative double is named here by its *pattern*: the 63 bits below the sign, read as a
//! number. Patterns count the doubles upwards from zero, and the pattern of infinity counts as
//! two to the 1024th, the first magnitude that a double cannot hold. Magnitudes are whole numbers
//! of the smallest subnormal, two to the power -1074.

use vstd::arithmetic::power2::{
    lemma2_to64, lemma2_to64_rest, lemma_pow2_adds, lemma_pow2_pos, lemma_pow2_strictly_increases,
    lemma_pow2_unfold, pow2,
};
use vstd::prelude::*;

verus! {

/// Number of patterns in one binade: two to the 52nd.
pub const BINADE: u64 = 0x10_0000_0000_0000;

/// Pattern of infinity.
pub const INFINITY: u64 = 0x7ff0_0000_0000_0000;

/// Magnitude of a pattern, in units of the smallest subnormal.
pub open spec fn magnitude(pattern: nat) -> nat {
    let exponent: nat = pattern / BINADE as nat;
    let fraction: nat = pattern % BINADE as nat;
    if exponent == 0 {
        fraction
    } else {
        (BINADE as nat + fraction) * pow2((exponent - 1) as nat)
    }
}

/// Distance between `num / den` and the magnitude of a pattern, times `den`.
pub open spec fn distance(num: nat, den: nat, pattern: nat) -> nat {
    let there: int = magnitude(pattern) * den - num;
    if there < 0 {
        (-there) as nat
    } else {
        there as nat
    }
}

/// `pattern` is the one nearest to `num / den`, the even one of two that are equally near.
pub open spec fn is_nearest(num: nat, den: nat, pattern: nat) -> bool {
    &&& pattern <= INFINITY
    &&& forall|other: nat| #![trigger magnitude(other)]
        other <= INFINITY && other != pattern ==> {
            ||| distance(num, den, pattern) < distance(num, den, other)
            ||| distance(num, den, pattern) == distance(num, den, other) && pattern % 2 == 0
        }
}

/// The pattern that `num / den` rounds to.
pub open spec fn nearest(num: nat, den: nat) -> nat {
    choose|pattern: nat| is_nearest(num, den, pattern)
}

/// A pattern built from an exponent and a significand has the magnitude `significand * 2^exponent`.
pub proof fn lemma_magnitude_of_parts(exponent: nat, significand: nat)
    requires
        significand <= 2 * BINADE,
        exponent == 0 || significand >= BINADE,
    ensures
        magnitude(exponent * BINADE as nat + significand) == significand * pow2(exponent),
{
    let pattern: nat = exponent * BINADE as nat + significand;
    lemma2_to64();
    lemma_pow2_unfold(exponent + 1);
    if significand < BINADE {
        assert(pattern / BINADE as nat == 0 && pattern % BINADE as nat == significand);
    } else if significand < 2 * BINADE {
        assert(pattern / BINADE as nat == exponent + 1);
        assert(pattern % BINADE as nat == significand - BINADE);
    } else {
        assert(pattern / BINADE as nat == exponent + 2);
        assert(pattern % BINADE as nat == 0);
        assert(BINADE as nat * pow2(exponent + 1) == (2 * BINADE as nat) * pow2(exponent))
            by (nonlinear_arith)
            requires
                pow2(exponent + 1) == 2 * pow2(exponent),
        ;
    }
}

/// Exponent of the unit in the last place of a pattern.
pub open spec fn ulp_exponent(pattern: nat) -> nat {
    let exponent: nat = pattern / BINADE as nat;
    if exponent == 0 {
        0
    } else {
        (exponent - 1) as nat
    }
}

/// Neighbouring patterns differ by one unit in the last place.
pub proof fn lemma_magnitude_step(pattern: nat)
    ensures
        magnitude(pattern + 1) == magnitude(pattern) + pow2(ulp_exponent(pattern)),
        magnitude(pattern) < magnitude(pattern + 1),
{
    let exponent: nat = ulp_exponent(pattern);
    let significand: nat = (pattern - exponent * BINADE) as nat;
    lemma_magnitude_of_parts(exponent, significand);
    lemma_magnitude_of_parts(exponent, significand + 1);
    lemma_pow2_pos(exponent);
    assert((significand + 1) * pow2(exponent) == significand * pow2(exponent) + pow2(exponent))
        by (nonlinear_arith);
}

/// Magnitudes grow with the pattern.
pub proof fn lemma_magnitude_strictly_increases(lower: nat, upper: nat)
    requires
        lower < upper,
    ensures
        magnitude(lower) < magnitude(upper),
    decreases upper - lower,
{
    lemma_magnitude_step(lower);
    if lower + 1 < upper {
        lemma_magnitude_strictly_increases(lower + 1, upper);
    }
}

/// Of two neighbouring patterns that enclose `num / den`, the nearer one is the nearest of all.
pub proof fn lemma_nearest_of_neighbours(num: nat, den: nat, pattern: nat)
    requires
        den > 0,
        pattern < INFINITY,
        magnitude(pattern) * den <= num <= magnitude(pattern + 1) * den,
    ensures
        ({
            let below: int = num - magnitude(pattern) * den;
            let above: int = magnitude(pattern + 1) * den - num;
            &&& below < above ==> is_nearest(num, den, pattern)
            &&& below > above ==> is_nearest(num, den, pattern + 1)
            &&& below == above && pattern % 2 == 0 ==> is_nearest(num, den, pattern)
            &&& below == above && pattern % 2 == 1 ==> is_nearest(num, den, pattern + 1)
        }),
{
    assert forall|other: nat| other <= INFINITY implies {
        &&& other < pattern ==> #[trigger] magnitude(other) * den < magnitude(pattern) * den
        &&& other > pattern + 1 ==> magnitude(other) * den > magnitude(pattern + 1) * den
    } by {
        if other < pattern {
            lemma_magnitude_strictly_increases(other, pattern);
            lemma_scaled_order(magnitude(other), magnitude(pattern), den);
        } else if other > pattern + 1 {
            lemma_magnitude_strictly_increases(pattern + 1, other);
            lemma_scaled_order(magnitude(pattern + 1), magnitude(other), den);
        }
    }
}

/// Multiplying by a positive number keeps the order.
proof fn lemma_scaled_order(lower: nat, upper: nat, factor: nat)
    by (nonlinear_arith)
    requires
        lower < upper,
        factor > 0,
    ensures
        lower * factor < upper * factor,
{
}

/// Everything from two to the 1024th upwards rounds to infinity.
pub proof fn lemma_nearest_overflow(num: nat, den: nat)
    requires
        den > 0,
        magnitude(INFINITY as nat) * den <= num,
    ensures
        is_nearest(num, den, INFINITY as nat),
{
    assert forall|other: nat| other < INFINITY implies #[trigger] magnitude(other) * den
        < magnitude(INFINITY as nat) * den by {
        lemma_magnitude_strictly_increases(other, INFINITY as nat);
        lemma_scaled_order(magnitude(other), magnitude(INFINITY as nat), den);
    }
}

/// No two patterns are both the nearest one.
pub proof fn lemma_nearest_unique(num: nat, den: nat, pattern: nat)
    requires
        den > 0,
        is_nearest(num, den, pattern),
    ensures
        nearest(num, den) == pattern,
{
    let chosen: nat = nearest(num, den);
    assert(is_nearest(num, den, chosen));
    if chosen != pattern {
        let (lower, upper): (nat, nat) = if chosen < pattern {
            (chosen, pattern)
        } else {
            (pattern, chosen)
        };
        let _ = (magnitude(lower), magnitude(upper));
        lemma_magnitude_strictly_increases(lower, lower + 1);
        lemma_magnitude_strictly_increases(lower + 1, upper);
        lemma_scaled_order(magnitude(lower), magnitude(lower + 1), den);
        lemma_scaled_order(magnitude(lower + 1), magnitude(upper), den);
    }
}

/// Rounding does not depend on how the fraction is written.
pub proof fn lemma_nearest_scaled(num: nat, den: nat, factor: nat, pattern: nat)
    requires
        den > 0,
        factor > 0,
        is_nearest(num * factor, den * factor, pattern),
    ensures
        is_nearest(num, den, pattern),
{
    lemma_distance_scaled(num, den, factor, pattern);
    assert forall|other: nat| #![trigger magnitude(other)]
        other <= INFINITY && other != pattern implies {
        ||| distance(num, den, pattern) < distance(num, den, other)
        ||| distance(num, den, pattern) == distance(num, den, other) && pattern % 2 == 0
    } by {
        lemma_distance_scaled(num, den, factor, other);
        let here: nat = distance(num, den, pattern);
        let there: nat = distance(num, den, other);
        assert(here * factor <= there * factor ==> here <= there) by (nonlinear_arith)
            requires
                factor > 0,
        ;
    }
}

proof fn lemma_distance_scaled(num: nat, den: nat, factor: nat, pattern: nat)
    ensures
        distance(num * factor, den * factor, pattern) == distance(num, den, pattern) * factor,
{
    let m: nat = magnitude(pattern);
    assert(m * (den * factor) - num * factor == (m * den - num) * factor) by (nonlinear_arith);
    assert((m * den - num) * factor >= 0 <== m * den - num >= 0) by (nonlinear_arith);
    assert((m * den - num) * factor <= 0 <== m * den - num <= 0) by (nonlinear_arith)
        requires
            factor >= 0,
    ;
    assert((-(m * den - num)) * factor == -((m * den - num) * factor)) by (nonlinear_arith);
}

/// Rounding never crosses a pattern.
pub proof fn lemma_nearest_monotone(num: nat, den: nat, bound: nat)
    requires
        den > 0,
        bound <= INFINITY,
        is_nearest(num, den, nearest(num, den)),
    ensures
        num >= magnitude(bound) * den ==> nearest(num, den) >= bound,
        num <= magnitude(bound) * den ==> nearest(num, den) <= bound,
{
    let pattern: nat = nearest(num, den);
    let _ = magnitude(bound);
    if pattern < bound {
        lemma_magnitude_strictly_increases(pattern, bound);
        lemma_scaled_order(magnitude(pattern), magnitude(bound), den);
    } else if pattern > bound {
        lemma_magnitude_strictly_increases(bound, pattern);
        lemma_scaled_order(magnitude(bound), magnitude(pattern), den);
    }
}

/// Every fraction below the magnitude of a pattern lies between two neighbouring patterns.
pub proof fn lemma_enclosed(num: nat, den: nat, limit: nat) -> (pattern: nat)
    requires
        num < magnitude(limit) * den,
    ensures
        pattern < limit,
        magnitude(pattern) * den <= num <= magnitude(pattern + 1) * den,
    decreases limit,
{
    if limit == 0 {
        assert(magnitude(0) * den == 0) by (nonlinear_arith)
            requires
                magnitude(0) == 0,
        ;
        0
    } else if num < magnitude((limit - 1) as nat) * den {
        lemma_enclosed(num, den, (limit - 1) as nat)
    } else {
        (limit - 1) as nat
    }
}

/// Every fraction rounds to some pattern.
pub proof fn lemma_nearest_exists(num: nat, den: nat)
    requires
        den > 0,
    ensures
        is_nearest(num, den, nearest(num, den)),
{
    if magnitude(INFINITY as nat) * den <= num {
        lemma_nearest_overflow(num, den);
    } else {
        let pattern: nat = lemma_enclosed(num, den, INFINITY as nat);
        lemma_nearest_of_neighbours(num, den, pattern);
        assert(is_nearest(num, den, pattern) || is_nearest(num, den, pattern + 1));
    }
}

/// Added to an exponent, so that [`round_scaled`] can take negative powers of two.
pub const SCALE_BIAS: u32 = 1200;

/// `num / den` lies at `units * 2^(scale - SCALE_BIAS)`, or, where it is inexact, strictly between
/// that and the next multiple of `2^(scale - SCALE_BIAS)`.
pub open spec fn lies_at(num: nat, den: nat, units: nat, inexact: bool, scale: nat) -> bool {
    let grain: nat = pow2(scale) * den;
    let scaled: nat = num * pow2(SCALE_BIAS as nat);
    if inexact {
        units * grain < scaled < (units + 1) * grain
    } else {
        scaled == units * grain
    }
}

/// Rounds a number whose leading digits are split into a significand and what lies below it.
///
/// The number is `significand + low / low_range` units of `2^(scale - SCALE_BIAS)`, and a little
/// more where it is inexact.
fn round_split(
    significand: u64,
    low: u128,
    low_range: u128,
    inexact: bool,
    scale: u32,
    Ghost(grain): Ghost<nat>,
    Ghost(num): Ghost<nat>,
    Ghost(den): Ghost<nat>,
) -> (pattern: u64)
    requires
        den > 0,
        grain > 0,
        significand < 2 * BINADE,
        SCALE_BIAS <= scale <= 100_000,
        scale == SCALE_BIAS || significand >= BINADE,
        low < low_range < 0x4000_0000_0000_0000_0000_0000_0000_0000,
        inexact ==> low_range % 2 == 0,
        pow2(scale as nat) * den == low_range * grain,
        ({
            let scaled: nat = num * pow2(SCALE_BIAS as nat);
            let floor: int = significand * (low_range * grain) + low * grain;
            if inexact {
                floor < scaled < floor + grain
            } else {
                scaled == floor
            }
        }),
    ensures
        is_nearest(num, den, pattern as nat),
{
    let exponent: u32 = scale - SCALE_BIAS;
    let ghost bias: nat = pow2(SCALE_BIAS as nat);
    let ghost scaled: nat = num * bias;
    let ghost width: int = low_range * grain;
    proof {
        lemma_pow2_pos(SCALE_BIAS as nat);
        lemma_pow2_adds(exponent as nat, SCALE_BIAS as nat);
        lemma_magnitude_of_parts(exponent as nat, significand as nat);
        lemma_magnitude_of_parts(exponent as nat, significand as nat + 1);
        let ulp: nat = pow2(exponent as nat);
        assert(ulp * (den * bias) == width) by (nonlinear_arith)
            requires
                (ulp * bias) * den == width,
        ;
        assert((significand * ulp) * (den * bias) == significand * width) by (nonlinear_arith)
            requires
                ulp * (den * bias) == width,
        ;
        assert(((significand + 1) * ulp) * (den * bias) == significand * width + width)
            by (nonlinear_arith)
            requires
                ulp * (den * bias) == width,
        ;
        assert(low * grain >= 0) by (nonlinear_arith);
        assert(low * grain + grain <= width) by (nonlinear_arith)
            requires
                low + 1 <= low_range,
                width == low_range * grain,
        ;
        assert(den * bias > 0) by (nonlinear_arith)
            requires
                den > 0,
                bias > 0,
        ;
    }
    if exponent >= 2046 {
        proof {
            lemma_magnitude_of_parts(2046, BINADE as nat);
            if exponent > 2046 {
                lemma_pow2_strictly_increases(2046, exponent as nat);
            }
            assert(BINADE as nat * pow2(2046) <= significand * pow2(exponent as nat))
                by (nonlinear_arith)
                requires
                    BINADE <= significand,
                    pow2(2046) <= pow2(exponent as nat),
            ;
            assert(magnitude(INFINITY as nat) * (den * bias) <= (significand * pow2(
                exponent as nat,
            )) * (den * bias)) by (nonlinear_arith)
                requires
                    magnitude(INFINITY as nat) <= significand * pow2(exponent as nat),
            ;
            lemma_nearest_overflow(scaled, den * bias);
            lemma_nearest_scaled(num, den, bias, INFINITY as nat);
        }
        return INFINITY;
    }
    let lower: u64 = exponent as u64 * BINADE + significand;
    proof {
        lemma_nearest_of_neighbours(scaled, den * bias, lower as nat);
        assert(2 * low < low_range && inexact ==> 2 * (low * grain + grain) <= width)
            by (nonlinear_arith)
            requires
                width == low_range * grain,
                inexact ==> low_range % 2 == 0,
        ;
        assert(2 * low < low_range ==> 2 * (low * grain) < width) by (nonlinear_arith)
            requires
                width == low_range * grain,
                grain > 0,
        ;
        assert(2 * low > low_range ==> 2 * (low * grain) > width) by (nonlinear_arith)
            requires
                width == low_range * grain,
                grain > 0,
        ;
        assert(2 * low == low_range ==> 2 * (low * grain) == width) by (nonlinear_arith)
            requires
                width == low_range * grain,
        ;
        assert(lower % 2 == significand % 2);
    }
    let up: bool = 2 * low > low_range || 2 * low == low_range && (inexact || significand % 2 == 1);
    let pattern: u64 = if up {
        lower + 1
    } else {
        lower
    };
    proof {
        lemma_nearest_scaled(num, den, bias, pattern as nat);
    }
    pattern
}

/// Rounds `units * 2^(scale - SCALE_BIAS)`, or, where it is inexact, a number strictly between
/// that and the next multiple of `2^(scale - SCALE_BIAS)`, to the nearest pattern.
pub(crate) fn round_scaled(
    units: u128,
    inexact: bool,
    scale: u32,
    Ghost(num): Ghost<nat>,
    Ghost(den): Ghost<nat>,
) -> (pattern: u64)
    requires
        den > 0,
        units < 0x100_0000_0000_0000_0000_0000_0000_0000,
        scale <= 10_000,
        inexact ==> units >= 2 * BINADE,
        lies_at(num, den, units as nat, inexact, scale as nat),
    ensures
        pattern == nearest(num, den),
        is_nearest(num, den, pattern as nat),
{
    let ghost bias: nat = pow2(SCALE_BIAS as nat);
    let ghost scaled: nat = num * bias;
    let ghost grain: nat = pow2(scale as nat) * den;
    proof {
        lemma_pow2_pos(SCALE_BIAS as nat);
        lemma_pow2_pos(scale as nat);
        assert(grain > 0) by (nonlinear_arith)
            requires
                grain == pow2(scale as nat) * den,
                pow2(scale as nat) > 0,
                den > 0,
        ;
    }
    let pattern: u64 = if scale + 121 <= SCALE_BIAS {
        proof {
            assert((units + 1) * grain == units * grain + grain) by (nonlinear_arith);
            lemma_rounds_to_zero(num, den, units as nat, scale as nat);
        }
        0
    } else if units >= 2 * BINADE as u128 || scale < SCALE_BIAS {
        round_by_halving(units, inexact, scale, Ghost(num), Ghost(den))
    } else {
        round_by_doubling(units as u64, scale, Ghost(num), Ghost(den))
    };
    proof {
        lemma_nearest_unique(num, den, pattern as nat);
    }
    pattern
}

/// What is far below the smallest subnormal rounds to zero.
proof fn lemma_rounds_to_zero(num: nat, den: nat, units: nat, scale: nat)
    requires
        den > 0,
        units < 0x100_0000_0000_0000_0000_0000_0000_0000,
        scale + 121 <= SCALE_BIAS,
        num * pow2(SCALE_BIAS as nat) < (units + 1) * (pow2(scale) * den),
    ensures
        is_nearest(num, den, 0),
{
    let bias: nat = pow2(SCALE_BIAS as nat);
    lemma_pow2_pos(SCALE_BIAS as nat);
    lemma2_to64();
    lemma2_to64_rest();
    lemma_pow2_adds(64, 57);
    lemma_pow2_adds(scale, 121);
    if scale + 121 < SCALE_BIAS {
        lemma_pow2_strictly_increases(scale + 121, SCALE_BIAS as nat);
    }
    let small: nat = pow2(scale);
    assert(2 * (num * bias) < den * bias) by (nonlinear_arith)
        requires
            num * bias < (units + 1) * (small * den),
            2 * (units + 1) <= 0x200_0000_0000_0000_0000_0000_0000_0000,
            small * 0x200_0000_0000_0000_0000_0000_0000_0000 <= bias,
            den > 0,
    ;
    assert(2 * num < den) by (nonlinear_arith)
        requires
            2 * (num * bias) < den * bias,
            bias > 0,
    ;
    lemma_magnitude_of_parts(0, 0);
    lemma_magnitude_of_parts(0, 1);
    assert(magnitude(0) * den == 0 && magnitude(1) * den == den) by (nonlinear_arith)
        requires
            magnitude(0) == 0,
            magnitude(1) == 1,
    ;
    lemma_nearest_of_neighbours(num, den, 0);
}

/// Rounds a number with more digits than a significand holds, or below the smallest subnormal.
fn round_by_halving(
    units: u128,
    inexact: bool,
    scale: u32,
    Ghost(num): Ghost<nat>,
    Ghost(den): Ghost<nat>,
) -> (pattern: u64)
    requires
        den > 0,
        units < 0x100_0000_0000_0000_0000_0000_0000_0000,
        SCALE_BIAS < scale + 121,
        scale <= 10_000,
        units >= 2 * BINADE || scale < SCALE_BIAS,
        inexact ==> units >= 2 * BINADE,
        lies_at(num, den, units as nat, inexact, scale as nat),
    ensures
        is_nearest(num, den, pattern as nat),
{
    let ghost grain: nat = pow2(scale as nat) * den;
    let mut significand: u128 = units;
    let mut low: u128 = 0;
    let mut low_range: u128 = 1;
    let mut at: u32 = scale;
    proof {
        lemma2_to64();
        lemma2_to64_rest();
        lemma_pow2_adds(64, 57);
        lemma_pow2_pos(scale as nat);
    }
    while significand >= 2 * BINADE as u128 || at < SCALE_BIAS
        invariant
            den > 0,
            units < 0x100_0000_0000_0000_0000_0000_0000_0000,
            SCALE_BIAS < scale + 121,
            scale <= 10_000,
            units >= 2 * BINADE || scale < SCALE_BIAS,
            pow2(121) == 0x200_0000_0000_0000_0000_0000_0000_0000,
            scale <= at <= scale + 121,
            units == significand * low_range + low,
            low < low_range,
            low_range == pow2((at - scale) as nat),
            at == scale ==> low_range == 1 && significand == units,
            at > scale ==> low_range % 2 == 0,
            at > SCALE_BIAS ==> significand >= BINADE,
        decreases 121 - (at - scale),
    {
        proof {
            let shift: nat = (at - scale) as nat;
            if shift >= 121 {
                if shift > 121 {
                    lemma_pow2_strictly_increases(121, shift);
                }
                assert(significand * low_range >= low_range) by (nonlinear_arith)
                    requires
                        significand >= 1,
                ;
                assert(false);
            }
            lemma_pow2_strictly_increases(shift, 121);
            lemma_pow2_unfold(shift + 1);
            let half: u128 = significand / 2;
            let bit: u128 = significand % 2;
            assert(significand * low_range == half * (2 * low_range) + bit * low_range)
                by (nonlinear_arith)
                requires
                    significand == 2 * half + bit,
            ;
            assert(bit == 1 ==> bit * low_range == low_range) by (nonlinear_arith);
            assert(bit == 0 ==> bit * low_range == 0) by (nonlinear_arith);
        }
        if significand % 2 == 1 {
            low = low + low_range;
        }
        significand = significand / 2;
        low_range = low_range * 2;
        at = at + 1;
    }
    proof {
        let shift: nat = (at - scale) as nat;
        lemma_pow2_adds(scale as nat, shift);
        if shift < 121 {
            lemma_pow2_strictly_increases(shift, 121);
        }
        assert(grain > 0) by (nonlinear_arith)
            requires
                grain == pow2(scale as nat) * den,
                pow2(scale as nat) > 0,
                den > 0,
        ;
        assert(pow2(at as nat) * den == low_range * grain) by (nonlinear_arith)
            requires
                pow2(at as nat) == pow2(scale as nat) * low_range,
                grain == pow2(scale as nat) * den,
        ;
        assert(units * grain == significand * (low_range * grain) + low * grain)
            by (nonlinear_arith)
            requires
                units == significand * low_range + low,
        ;
        assert((units + 1) * grain == units * grain + grain) by (nonlinear_arith);
    }
    round_split(
        significand as u64,
        low,
        low_range,
        inexact,
        at,
        Ghost(grain),
        Ghost(num),
        Ghost(den),
    )
}

/// Rounds a whole number that a significand can hold: exactly, but for overflow.
fn round_by_doubling(
    units: u64,
    scale: u32,
    Ghost(num): Ghost<nat>,
    Ghost(den): Ghost<nat>,
) -> (pattern: u64)
    requires
        den > 0,
        units < 2 * BINADE,
        SCALE_BIAS <= scale <= 10_000,
        lies_at(num, den, units as nat, false, scale as nat),
    ensures
        is_nearest(num, den, pattern as nat),
{
    if units == 0 {
        proof {
            lemma_pow2_pos(SCALE_BIAS as nat);
            assert(num == 0) by (nonlinear_arith)
                requires
                    num * pow2(SCALE_BIAS as nat) == 0 * (pow2(scale as nat) * den),
                    pow2(SCALE_BIAS as nat) > 0,
            ;
            lemma_magnitude_of_parts(0, 0);
            lemma_magnitude_of_parts(0, 1);
            assert(magnitude(0) * den == 0 && magnitude(1) * den == den) by (nonlinear_arith)
                requires
                    magnitude(0) == 0,
                    magnitude(1) == 1,
            ;
            lemma_nearest_of_neighbours(num, den, 0);
        }
        return 0;
    }
    let mut significand: u64 = units;
    let mut at: u32 = scale;
    while significand < BINADE && at > SCALE_BIAS
        invariant
            0 < significand < 2 * BINADE,
            SCALE_BIAS <= at <= scale,
            significand * pow2(at as nat) == units * pow2(scale as nat),
        decreases at,
    {
        proof {
            lemma_pow2_unfold(at as nat);
            assert((2 * significand) * pow2((at - 1) as nat) == significand * pow2(at as nat))
                by (nonlinear_arith)
                requires
                    pow2(at as nat) == 2 * pow2((at - 1) as nat),
            ;
        }
        significand = 2 * significand;
        at = at - 1;
    }
    let ghost grain: nat = pow2(at as nat) * den;
    proof {
        lemma_pow2_pos(at as nat);
        assert(grain > 0) by (nonlinear_arith)
            requires
                grain == pow2(at as nat) * den,
                pow2(at as nat) > 0,
                den > 0,
        ;
        assert(significand * grain == units * (pow2(scale as nat) * den)) by (nonlinear_arith)
            requires
                significand * pow2(at as nat) == units * pow2(scale as nat),
                grain == pow2(at as nat) * den,
        ;
    }
    round_split(significand, 0, 1, false, at, Ghost(grain), Ghost(num), Ghost(den))
}

} // verus!
