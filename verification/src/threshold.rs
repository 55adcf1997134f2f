//! What the recognition threshold means for movements of an exact length.
//!
//! The tracker squares, adds and compares doubles, so its arithmetic rounds. It nevertheless never
//! takes a movement within the threshold for a gesture, and never misses one that exceeds the
//! threshold by more than a trace.

use vstd::arithmetic::power2::{
    lemma2_to64, lemma2_to64_rest, lemma_pow2_adds, lemma_pow2_pos, lemma_pow2_strictly_increases,
    lemma_pow2_unfold, pow2,
};
use vstd::prelude::*;

use crate::binary64::Binary64;
use crate::geometry::Point;
use crate::rounding::{
    distance, lemma_enclosed, lemma_magnitude_of_parts, lemma_magnitude_step,
    lemma_magnitude_strictly_increases, lemma_nearest_exists, lemma_nearest_monotone,
    lemma_nearest_of_neighbours, lemma_nearest_unique, magnitude, nearest, ulp_exponent, BINADE,
    INFINITY,
};
use crate::touch_swipe_tracker::{
    dominant_direction, exceeds_threshold, SwipeDirection, GESTURE_THRESHOLD_PX,
};

verus! {

/// One pixel, in the units in which doubles are counted.
pub open spec fn pixel() -> nat {
    pow2(1074)
}

/// The exact square of the length of a displacement.
pub open spec fn squared_length(delta: Point) -> int {
    delta.x.value() * delta.x.value() + delta.y.value() * delta.y.value()
}

/// The exact square of the threshold: sixteen pixels squared.
pub open spec fn squared_threshold() -> nat {
    (16 * pixel()) * (16 * pixel())
}

/// Pattern of 256, the square of the threshold.
pub open spec fn square_pattern() -> nat {
    0x4070_0000_0000_0000
}

/// The threshold is sixteen pixels, and its square is 256 exactly.
pub proof fn lemma_threshold_square()
    ensures
        magnitude(GESTURE_THRESHOLD_PX as nat) == 16 * pixel(),
        magnitude(square_pattern()) == 256 * pixel(),
        magnitude(square_pattern() + 1) == 256 * pixel() + pow2(1030),
        ulp_exponent(square_pattern()) == 1030,
        ulp_exponent((square_pattern() - 1) as nat) == 1029,
        pow2(1030) == 2 * pow2(1029),
        pow2(1031) == 2 * pow2(1030),
        pixel() > 0,
        ({
            let threshold: Binary64 = Binary64 { bits: GESTURE_THRESHOLD_PX };
            threshold.spec_times(threshold) == (Binary64 { bits: square_pattern() as u64 })
        }),
{
    lemma2_to64();
    lemma2_to64_rest();
    lemma_pow2_pos(1074);
    lemma_pow2_unfold(1030);
    lemma_pow2_unfold(1031);
    lemma_magnitude_of_parts(1026, BINADE as nat);
    lemma_magnitude_of_parts(1030, BINADE as nat);
    lemma_magnitude_step(square_pattern());
    // 2^52 * 2^1026 is 2^4 * 2^1074, and 2^52 * 2^1030 is 2^8 * 2^1074.
    lemma_pow2_adds(52, 1026);
    lemma_pow2_adds(4, 1074);
    lemma_pow2_adds(52, 1030);
    lemma_pow2_adds(8, 1074);
    let one: nat = pixel();
    assert((16 * one) * (16 * one) == (256 * one) * one) by (nonlinear_arith);
    let square: nat = magnitude(GESTURE_THRESHOLD_PX as nat) * magnitude(
        GESTURE_THRESHOLD_PX as nat,
    );
    lemma_nearest_exists(square, one);
    lemma_nearest_monotone(square, one, square_pattern());
}

/// Rounding moves a number by at most half a unit in the last place below a limit that the number
/// does not exceed.
pub proof fn lemma_rounding_error(num: nat, den: nat, limit: nat)
    requires
        den > 0,
        0 < limit <= INFINITY,
        num <= magnitude(limit) * den,
    ensures
        2 * distance(num, den, nearest(num, den)) <= pow2(ulp_exponent((limit - 1) as nat)) * den,
{
    let rounded: nat = nearest(num, den);
    lemma_nearest_exists(num, den);
    lemma_nearest_monotone(num, den, limit);
    let width: nat = pow2(ulp_exponent((limit - 1) as nat));
    assert(width * den >= 0) by (nonlinear_arith);
    if num < magnitude(limit) * den {
        let lower: nat = lemma_enclosed(num, den, limit);
        lemma_magnitude_step(lower);
        let _ = (magnitude(lower), magnitude(lower + 1));
        let step: nat = pow2(ulp_exponent(lower));
        assert(ulp_exponent(lower) <= ulp_exponent((limit - 1) as nat)) by {
            assert(lower / BINADE as nat <= ((limit - 1) as nat) / BINADE as nat) by (nonlinear_arith)
                requires
                    lower <= limit - 1,
                    BINADE > 0,
            ;
        }
        if ulp_exponent(lower) < ulp_exponent((limit - 1) as nat) {
            lemma_pow2_strictly_increases(ulp_exponent(lower), ulp_exponent((limit - 1) as nat));
        }
        assert(magnitude(lower + 1) * den - magnitude(lower) * den == step * den)
            by (nonlinear_arith)
            requires
                magnitude(lower + 1) == magnitude(lower) + step,
        ;
        assert(step * den <= width * den) by (nonlinear_arith)
            requires
                step <= width,
        ;
    }
}

/// The square of a finite coordinate, rounded, and how far rounding moved it where the exact square
/// is at most a limit.
proof fn lemma_squared_coordinate(coordinate: Binary64, limit: nat)
    requires
        coordinate.finite(),
        0 < limit <= INFINITY,
    ensures
        ({
            let exact: int = coordinate.value() * coordinate.value();
            let square: Binary64 = coordinate.spec_times(coordinate);
            &&& exact >= 0
            &&& !square.negative()
            &&& square.pattern() <= INFINITY
            &&& exact >= magnitude(limit) * pixel() ==> square.pattern() >= limit
            &&& exact <= magnitude(limit) * pixel() ==> {
                let error: int = square.value() * pixel() - exact;
                let width: nat = pow2(ulp_exponent((limit - 1) as nat)) * pixel();
                &&& square.pattern() <= limit
                &&& -width <= 2 * error <= width
            }
        }),
{
    let size: nat = magnitude(coordinate.pattern());
    let exact: int = coordinate.value() * coordinate.value();
    assert(exact == size * size && exact >= 0) by (nonlinear_arith)
        requires
            exact == coordinate.value() * coordinate.value(),
            coordinate.value() == size || coordinate.value() == -(size as int),
    ;
    lemma_pow2_pos(1074);
    lemma_nearest_exists(size * size, pixel());
    lemma_nearest_monotone(size * size, pixel(), limit);
    if exact <= magnitude(limit) * pixel() {
        lemma_rounding_error(size * size, pixel(), limit);
    }
}

/// A movement of at most sixteen pixels, measured exactly, is never taken for a gesture.
pub proof fn movement_within_threshold_is_no_gesture(delta: Point)
    requires
        delta.x.finite(),
        delta.y.finite(),
        squared_length(delta) <= squared_threshold(),
    ensures
        !exceeds_threshold(delta),
{
    lemma_threshold_square();
    let one: nat = pixel();
    let limit: nat = square_pattern();
    let x: int = delta.x.value() * delta.x.value();
    let y: int = delta.y.value() * delta.y.value();
    assert((16 * one) * (16 * one) == (256 * one) * one) by (nonlinear_arith);
    lemma_squared_coordinate(delta.x, limit);
    lemma_squared_coordinate(delta.y, limit);
    let xx: Binary64 = delta.x.spec_times(delta.x);
    let yy: Binary64 = delta.y.spec_times(delta.y);
    let sum: nat = (xx.value() + yy.value()) as nat;
    assert(sum <= 256 * one + pow2(1029)) by (nonlinear_arith)
        requires
            2 * (xx.value() * one - x) <= pow2(1029) * one,
            2 * (yy.value() * one - y) <= pow2(1029) * one,
            x + y <= (256 * one) * one,
            one > 0,
            sum == xx.value() + yy.value(),
    ;
    lemma_nearest_exists(sum, 1);
    if sum <= 256 * one {
        lemma_nearest_monotone(sum, 1, limit);
    } else {
        lemma_nearest_of_neighbours(sum, 1, limit);
        lemma_nearest_unique(sum, 1, limit);
    }
    let dist_sq: Binary64 = xx.spec_plus(yy);
    assert(dist_sq.pattern() <= limit);
    if dist_sq.pattern() < limit {
        lemma_magnitude_strictly_increases(dist_sq.pattern(), limit);
    }
}

/// A movement whose exact length exceeds sixteen pixels by more than a trace, 2^-43 in the square
/// of the pixels, is always taken for one.
pub proof fn movement_beyond_threshold_is_a_gesture(delta: Point)
    requires
        !delta.x.nan(),
        !delta.y.nan(),
        squared_length(delta) >= squared_threshold() + pow2(1031) * pixel(),
    ensures
        exceeds_threshold(delta),
{
    lemma_threshold_square();
    let one: nat = pixel();
    let limit: nat = square_pattern() + 1;
    let xx: Binary64 = delta.x.spec_times(delta.x);
    let yy: Binary64 = delta.y.spec_times(delta.y);
    let dist_sq: Binary64 = xx.spec_plus(yy);
    lemma_magnitude_strictly_increases(square_pattern(), INFINITY as nat);
    if delta.x.finite() {
        lemma_squared_coordinate(delta.x, limit);
    }
    if delta.y.finite() {
        lemma_squared_coordinate(delta.y, limit);
    }
    if xx.infinite() || yy.infinite() {
        assert(dist_sq.infinite());
    } else {
        let x: int = delta.x.value() * delta.x.value();
        let y: int = delta.y.value() * delta.y.value();
        let sum: nat = (xx.value() + yy.value()) as nat;
        assert((16 * one) * (16 * one) == (256 * one) * one) by (nonlinear_arith);
        if xx.pattern() >= limit {
            if xx.pattern() > limit {
                lemma_magnitude_strictly_increases(limit, xx.pattern());
            }
        } else if yy.pattern() >= limit {
            if yy.pattern() > limit {
                lemma_magnitude_strictly_increases(limit, yy.pattern());
            }
        } else {
            assert(sum >= 256 * one + pow2(1030)) by (nonlinear_arith)
                requires
                    2 * (xx.value() * one - x) >= -(pow2(1030) * one),
                    2 * (yy.value() * one - y) >= -(pow2(1030) * one),
                    x + y >= (256 * one) * one + pow2(1031) * one,
                    pow2(1031) == 2 * pow2(1030),
                    one > 0,
                    sum == xx.value() + yy.value(),
            ;
        }
        lemma_nearest_exists(sum, 1);
        lemma_nearest_monotone(sum, 1, limit);
        assert(dist_sq.pattern() >= limit);
    }
    lemma_magnitude_strictly_increases(square_pattern(), dist_sq.pattern());
}

/// A swipe is horizontal exactly if it went farther sideways than up or down.
pub proof fn direction_is_the_longer_axis(delta: Point)
    requires
        !delta.x.nan(),
        !delta.y.nan(),
    ensures
        dominant_direction(delta) == SwipeDirection::Horizontal <==> vstd::math::abs(
            delta.x.value(),
        ) > vstd::math::abs(delta.y.value()),
{
    assert(delta.x.spec_abs().value() == vstd::math::abs(delta.x.value()));
    assert(delta.y.spec_abs().value() == vstd::math::abs(delta.y.value()));
}

} // verus!
