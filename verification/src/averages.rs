//! What the centroid of the fingers is, and how one finger moves it.
//!
//! The centroid is the mean of the positions, and its movement the mean of the movements, up to a
//! trace that the size of the coordinates determines: on a screen of 16384 pixels the tenth finger
//! is still averaged to within 2^-35 of a pixel.

use std::time::Duration;

use vstd::arithmetic::power2::{lemma_pow2_pos, pow2};
use vstd::prelude::*;

use crate::arithmetic::{is_closest, quotient_is_closest, sum_is_closest};
use crate::binary64::Binary64;
use crate::deltas::reported_delta;
use crate::fingers::finger_that_moves_is_followed;
use crate::geometry::{centroid, total, Axis, Point, TouchSlot};
use crate::laws::{
    gesture_begins_with_enough_fingers, step, step_keeps_valid, update_reports_centroid_movement,
    Touch,
};
use crate::rounding::{
    lemma_magnitude_of_parts, lemma_magnitude_strictly_increases, lemma_nearest_exists,
    lemma_nearest_monotone, magnitude, nearest, ulp_exponent, BINADE, INFINITY,
};
use crate::summation::{
    averages_exactly, centroid_difference_on_a_grid_is_exact, coordinate_sum, lemma_representable,
    lemma_sum_without, sum_over,
};
use crate::threshold::lemma_rounding_error;
use crate::touch_swipe_tracker::{positions, GestureEvent, Phase, TrackerState};

verus! {

/// The coordinates of the given slots along an axis are finite and at most `size` times `2^grid`
/// units, few and small enough for a double to hold their sum to the unit `2^grid`.
pub open spec fn stay_within(
    keys: Seq<u64>,
    at: Map<u64, Point>,
    axis: Axis,
    size: nat,
    grid: nat,
) -> bool {
    &&& grid <= 2044
    &&& size > 0
    &&& (keys.len() + 1) * size <= 2 * BINADE
    &&& forall|i: int|
        0 <= i < keys.len() ==> (#[trigger] at[keys[i]]).along(axis).finite() && vstd::math::abs(
            at[keys[i]].along(axis).value(),
        ) <= size * pow2(grid)
}

/// Rounding a fraction that is at most a multiple of `2^grid` keeps it within that multiple and
/// moves it by at most half of `2^grid`.
proof fn lemma_rounded(number: Binary64, num: int, den: nat, multiple: nat, grid: nat)
    requires
        den > 0,
        grid <= 2044,
        multiple <= 2 * BINADE,
        vstd::math::abs(num) <= (multiple * pow2(grid)) * den,
        num == 0 ==> number.pattern() == 0,
        num != 0 ==> number.pattern() == nearest(vstd::math::abs(num), den) && number.negative()
            == (num < 0),
    ensures
        number.finite(),
        vstd::math::abs(number.value()) <= multiple * pow2(grid),
        2 * vstd::math::abs(number.value() * den - num) <= pow2(grid) * den,
{
    let unit: nat = pow2(grid);
    let size: nat = vstd::math::abs(num);
    let limit: nat = grid * BINADE as nat + 2 * BINADE as nat;
    lemma_pow2_pos(grid);
    lemma_magnitude_of_parts(grid, 2 * BINADE as nat);
    let bound: nat = if multiple == 2 * BINADE {
        limit
    } else {
        lemma_representable(multiple, grid)
    };
    assert(magnitude(bound) == multiple * unit);
    assert(limit < INFINITY);
    assert(bound <= limit) by {
        if bound > limit {
            lemma_magnitude_strictly_increases(limit, bound);
            assert(multiple * unit <= (2 * BINADE as nat) * unit) by (nonlinear_arith)
                requires
                    multiple <= 2 * BINADE,
            ;
        }
    }
    if num == 0 {
        assert(number.value() * den == 0) by (nonlinear_arith)
            requires
                number.value() == 0,
        ;
        assert(pow2(grid) * den >= 0 && multiple * pow2(grid) >= 0) by (nonlinear_arith);
    } else {
        lemma_nearest_exists(size, den);
        lemma_nearest_monotone(size, den, bound);
        let pattern: nat = number.pattern();
        if pattern < bound {
            lemma_magnitude_strictly_increases(pattern, bound);
        }
        assert(size <= magnitude(limit) * den) by {
            assert((multiple * unit) * den <= ((2 * BINADE as nat) * unit) * den)
                by (nonlinear_arith)
                requires
                    multiple <= 2 * BINADE,
            ;
        }
        lemma_rounding_error(size, den, limit);
        assert(ulp_exponent((limit - 1) as nat) == grid) by {
            let last: nat = (limit - 1) as nat;
            assert(last == (grid + 1) * BINADE as nat + (BINADE - 1));
            assert(last / BINADE as nat == grid + 1) by (nonlinear_arith)
                requires
                    last == (grid + 1) * BINADE as nat + (BINADE - 1),
                    BINADE > 0,
            ;
        }
        let m: nat = magnitude(pattern);
        assert((-(m as int)) * den == -(m * den)) by (nonlinear_arith);
    }
}

/// The sum of the coordinates is off by at most half a unit for every slot.
proof fn lemma_total_is_near(keys: Seq<u64>, at: Map<u64, Point>, axis: Axis, size: nat, grid: nat)
    requires
        stay_within(keys, at, axis, size, grid),
    ensures
        ({
            let sum: Binary64 = total(positions(keys, at)).along(axis);
            &&& sum.finite()
            &&& vstd::math::abs(sum.value()) <= (keys.len() * size) * pow2(grid)
            &&& 2 * vstd::math::abs(sum.value() - coordinate_sum(keys, at, axis)) <= keys.len()
                * pow2(grid)
        }),
    decreases keys.len(),
{
    let points: Seq<Point> = positions(keys, at);
    let unit: nat = pow2(grid);
    let count: nat = keys.len();
    if count == 0 {
        assert(points.len() == 0);
        assert((0 * size) * unit == 0 && 0 * unit == 0) by (nonlinear_arith);
    } else {
        let rest: Seq<u64> = keys.drop_last();
        assert(forall|i: int| 0 <= i < rest.len() ==> rest[i] == keys[i]);
        assert((rest.len() + 1) * size <= (count + 1) * size) by (nonlinear_arith)
            requires
                rest.len() + 1 == count,
        ;
        assert(stay_within(rest, at, axis, size, grid));
        lemma_total_is_near(rest, at, axis, size, grid);
        assert(points.drop_last() =~= positions(rest, at));
        assert(points.last() == at[keys.last()]);
        let a: Binary64 = total(points.drop_last()).along(axis);
        let b: Binary64 = at[keys[count - 1]].along(axis);
        let sum: int = a.value() + b.value();
        assert(total(points).along(axis) == a.spec_plus(b));
        assert((rest.len() * size) * unit + size * unit == (count * size) * unit)
            by (nonlinear_arith)
            requires
                rest.len() + 1 == count,
        ;
        assert(count * size <= 2 * BINADE) by (nonlinear_arith)
            requires
                (count + 1) * size <= 2 * BINADE,
        ;
        lemma_rounded_sum(a, b, count * size, grid);
        assert(rest.len() * unit + unit == count * unit) by (nonlinear_arith)
            requires
                rest.len() + 1 == count,
        ;
    }
}

/// The same of a sum of two numbers.
proof fn lemma_rounded_sum(a: Binary64, b: Binary64, multiple: nat, grid: nat)
    requires
        a.finite(),
        b.finite(),
        grid <= 2044,
        multiple <= 2 * BINADE,
        vstd::math::abs(a.value() + b.value()) <= multiple * pow2(grid),
    ensures
        a.spec_plus(b).finite(),
        vstd::math::abs(a.spec_plus(b).value()) <= multiple * pow2(grid),
        2 * vstd::math::abs(a.spec_plus(b).value() - (a.value() + b.value())) <= pow2(grid),
{
    let sum: int = a.value() + b.value();
    lemma_nearest_exists(vstd::math::abs(sum), 1);
    lemma_rounded(a.spec_plus(b), sum, 1, multiple, grid);
}

/// The centroid is the exact mean of the coordinates to within one unit, and lies within the same
/// bounds as they do.
pub proof fn centroid_is_near_the_mean(
    keys: Seq<u64>,
    at: Map<u64, Point>,
    axis: Axis,
    size: nat,
    grid: nat,
)
    requires
        keys.len() > 0,
        stay_within(keys, at, axis, size, grid),
    ensures
        ({
            let mean: Binary64 = centroid(positions(keys, at)).along(axis);
            &&& mean.finite()
            &&& vstd::math::abs(mean.value()) <= size * pow2(grid)
            &&& vstd::math::abs(mean.value() * keys.len() - coordinate_sum(keys, at, axis))
                <= keys.len() * pow2(grid)
        }),
{
    let count: nat = keys.len();
    let unit: nat = pow2(grid);
    let sum: Binary64 = total(positions(keys, at)).along(axis);
    let mean: Binary64 = centroid(positions(keys, at)).along(axis);
    lemma_total_is_near(keys, at, axis, size, grid);
    assert(mean == sum.spec_over(count));
    lemma_nearest_exists(vstd::math::abs(sum.value()), count);
    if sum.pattern() > 0 {
        lemma_magnitude_strictly_increases(0, sum.pattern());
    }
    lemma_nearest_exists(0, count);
    lemma_nearest_monotone(0, count, 0);
    assert((count * size) * unit == (size * unit) * count) by (nonlinear_arith);
    assert(size <= 2 * BINADE) by (nonlinear_arith)
        requires
            (count + 1) * size <= 2 * BINADE,
    ;
    lemma_rounded(mean, sum.value(), count, size, grid);
    assert(unit * count == count * unit) by (nonlinear_arith);
}

/// How far the centroid comes is the exact mean of how far the slots come, to within two and a half
/// units.
pub proof fn centroid_movement_is_near_the_mean(
    keys: Seq<u64>,
    from: Map<u64, Point>,
    to: Map<u64, Point>,
    axis: Axis,
    size: nat,
    grid: nat,
)
    requires
        keys.len() > 0,
        stay_within(keys, from, axis, size, grid),
        stay_within(keys, to, axis, size, grid),
    ensures
        ({
            let delta: Binary64 = centroid(positions(keys, to)).spec_minus(
                centroid(positions(keys, from)),
            ).along(axis);
            let movement: int = coordinate_sum(keys, to, axis) - coordinate_sum(keys, from, axis);
            &&& delta.finite()
            &&& 2 * vstd::math::abs(delta.value() * keys.len() - movement) <= 5 * (keys.len()
                * pow2(grid))
        }),
{
    let count: nat = keys.len();
    let unit: nat = pow2(grid);
    let before: Binary64 = centroid(positions(keys, from)).along(axis);
    let after: Binary64 = centroid(positions(keys, to)).along(axis);
    let delta: Binary64 = after.spec_minus(before);
    centroid_is_near_the_mean(keys, from, axis, size, grid);
    centroid_is_near_the_mean(keys, to, axis, size, grid);
    assert(before.spec_negated().value() == -before.value());
    assert(2 * size <= 2 * BINADE) by (nonlinear_arith)
        requires
            (count + 1) * size <= 2 * BINADE,
            count > 0,
    ;
    assert((2 * size) * unit == size * unit + size * unit) by (nonlinear_arith);
    lemma_rounded_sum(after, before.spec_negated(), 2 * size, grid);
    let slip: int = delta.value() - (after.value() - before.value());
    assert(delta.value() * count == after.value() * count - before.value() * count + slip * count)
        by (nonlinear_arith)
        requires
            slip == delta.value() - (after.value() - before.value()),
    ;
    assert(-(count * unit) <= 2 * (slip * count) <= count * unit) by (nonlinear_arith)
        requires
            -(unit as int) <= 2 * slip <= unit,
            count > 0,
    ;
}

/// A sum of points starts at zero and grows, along each axis, by the next point, to the double
/// closest to the exact result; and the centroid is the double closest to that sum divided by the
/// number of points.
pub proof fn centroid_is_the_rounded_sum_divided(points: Seq<Point>, next: Point, axis: Axis)
    ensures
        total(Seq::empty()).along(axis).bits == 0,
        centroid(Seq::empty()).along(axis).bits == 0,
        ({
            let before: Binary64 = total(points).along(axis);
            let after: Binary64 = total(points.push(next)).along(axis);
            let mean: Binary64 = centroid(points.push(next)).along(axis);
            let count: nat = points.len() + 1;
            &&& after == before.spec_plus(next.along(axis))
            &&& before.finite() && next.along(axis).finite() ==> is_closest(
                after,
                before.value() + next.along(axis).value(),
                1,
            )
            &&& mean == after.spec_over(count)
            &&& after.finite() ==> is_closest(mean, after.value(), count)
        }),
{
    let before: Binary64 = total(points).along(axis);
    let after: Binary64 = total(points.push(next)).along(axis);
    assert(points.push(next).drop_last() =~= points);
    if before.finite() && next.along(axis).finite() {
        sum_is_closest(before, next.along(axis));
    }
    if after.finite() {
        quotient_is_closest(after, points.len() + 1);
    }
}

/// The axes are independent: where the centroid lies along one does not depend on where the points
/// lie along the other.
pub proof fn axes_are_independent(a: Seq<Point>, b: Seq<Point>, axis: Axis)
    requires
        a.len() == b.len(),
        forall|i: int| 0 <= i < a.len() ==> (#[trigger] a[i]).along(axis) == b[i].along(axis),
    ensures
        total(a).along(axis) == total(b).along(axis),
        centroid(a).along(axis) == centroid(b).along(axis),
    decreases a.len(),
{
    if a.len() > 0 {
        assert(a[a.len() - 1].along(axis) == b[b.len() - 1].along(axis));
        axes_are_independent(a.drop_last(), b.drop_last(), axis);
    }
}

/// A coordinate that is not finite leaves a centroid that is not finite, and NaN leaves NaN.
pub proof fn centroid_of_what_is_not_finite(keys: Seq<u64>, at: Map<u64, Point>, axis: Axis, i: int)
    requires
        0 <= i < keys.len(),
        !at[keys[i]].along(axis).finite(),
    ensures
        !centroid(positions(keys, at)).along(axis).finite(),
        at[keys[i]].along(axis).nan() ==> centroid(positions(keys, at)).along(axis).nan(),
{
    lemma_total_of_what_is_not_finite(positions(keys, at), axis, i);
}

proof fn lemma_total_of_what_is_not_finite(points: Seq<Point>, axis: Axis, i: int)
    requires
        0 <= i < points.len(),
        !points[i].along(axis).finite(),
    ensures
        !total(points).along(axis).finite(),
        points[i].along(axis).nan() ==> total(points).along(axis).nan(),
    decreases points.len(),
{
    let a: Binary64 = total(points.drop_last()).along(axis);
    assert(total(points).along(axis) == a.spec_plus(points.last().along(axis)));
    if i < points.len() - 1 {
        lemma_total_of_what_is_not_finite(points.drop_last(), axis, i);
    }
}

/// Sums of quantities that agree on the slots agree.
proof fn lemma_sum_same(keys: Seq<u64>, a: spec_fn(u64) -> int, b: spec_fn(u64) -> int)
    requires
        forall|i: int| 0 <= i < keys.len() ==> a(#[trigger] keys[i]) == b(keys[i]),
    ensures
        sum_over(keys, a) == sum_over(keys, b),
    decreases keys.len(),
{
    if keys.len() > 0 {
        let rest: Seq<u64> = keys.drop_last();
        assert(forall|i: int| 0 <= i < rest.len() ==> rest[i] == keys[i]);
        assert(a(keys[keys.len() - 1]) == b(keys[keys.len() - 1]));
        lemma_sum_same(rest, a, b);
    }
}

/// Moving one slot moves the sum by as much.
proof fn lemma_sum_follows(keys: Seq<u64>, at: Map<u64, Point>, key: u64, pos: Point, axis: Axis)
    requires
        keys.no_duplicates(),
        keys.contains(key),
    ensures
        coordinate_sum(keys, at.insert(key, pos), axis) - coordinate_sum(keys, at, axis)
            == pos.along(axis).value() - at[key].along(axis).value(),
{
    let to: Map<u64, Point> = at.insert(key, pos);
    let i: int = keys.index_of(key);
    let others: Seq<u64> = keys.remove(i);
    let a = |k: u64| at[k].along(axis).value();
    let b = |k: u64| to[k].along(axis).value();
    lemma_sum_without(keys, i, a);
    lemma_sum_without(keys, i, b);
    assert forall|j: int| 0 <= j < others.len() implies a(#[trigger] others[j]) == b(
        others[j],
    ) by {
        assert(others[j] == keys[if j < i { j } else { j + 1 }]);
    }
    lemma_sum_same(others, a, b);
}

/// An update reports the share that the finger has in the movement of the centroid: along each axis
/// how far the finger moved, divided by the number of tracked fingers, to within two and a half
/// units.
pub proof fn update_reports_the_share_of_the_finger(
    pre: TrackerState,
    slot: TouchSlot,
    pos: Point,
    timestamp: Duration,
    event: Option<GestureEvent>,
    post: TrackerState,
    axis: Axis,
    size: nat,
    grid: nat,
)
    requires
        pre.valid(),
        step(pre, Touch::Motion { slot, pos, timestamp }, event, post),
        pre.phase == Phase::Active,
        pre.tracked_slots.contains(slot.key()),
        stay_within(pre.tracked_slots, pre.slots, axis, size, grid),
        vstd::math::abs(pos.along(axis).value()) <= size * pow2(grid),
        pos.along(axis).finite(),
    ensures
        event matches Some(update) && update is Update,
        reported_delta(event, axis) matches Some(delta) && {
            let count: nat = pre.tracked_slots.len();
            let moved: int = pos.along(axis).value() - pre.slots[slot.key()].along(axis).value();
            &&& delta.finite()
            &&& 2 * vstd::math::abs(delta.value() * count - moved) <= 5 * (count * pow2(grid))
        },
{
    let keys: Seq<u64> = pre.tracked_slots;
    assert(keys.to_set().contains(slot.key()));
    assert(pre.slots.dom().contains(slot.key()));
    finger_that_moves_is_followed(pre, slot, pos, timestamp, event, post);
    update_reports_centroid_movement(pre, slot, pos, timestamp);
    lemma_sum_follows(keys, pre.slots, slot.key(), pos, axis);
    assert forall|i: int| 0 <= i < keys.len() implies (#[trigger] post.slots[keys[i]]).along(
        axis,
    ).finite() && vstd::math::abs(post.slots[keys[i]].along(axis).value()) <= size * pow2(grid) by {
        let _ = pre.slots[keys[i]];
    }
    centroid_movement_is_near_the_mean(keys, pre.slots, post.slots, axis, size, grid);
}

/// On a grid that holds the centroids, an update reports that share exactly.
pub proof fn update_on_a_grid_reports_the_share_exactly(
    pre: TrackerState,
    slot: TouchSlot,
    pos: Point,
    timestamp: Duration,
    event: Option<GestureEvent>,
    post: TrackerState,
    axis: Axis,
    grid: nat,
)
    requires
        pre.valid(),
        step(pre, Touch::Motion { slot, pos, timestamp }, event, post),
        pre.phase == Phase::Active,
        pre.tracked_slots.contains(slot.key()),
        averages_exactly(pre.tracked_slots, pre.slots, axis, grid),
        averages_exactly(pre.tracked_slots, pre.slots.insert(slot.key(), pos), axis, grid),
    ensures
        event matches Some(update) && update is Update,
        reported_delta(event, axis) matches Some(delta) && {
            let moved: int = pos.along(axis).value() - pre.slots[slot.key()].along(axis).value();
            delta.finite() && delta.value() * pre.tracked_slots.len() == moved
        },
{
    let keys: Seq<u64> = pre.tracked_slots;
    assert(keys.to_set().contains(slot.key()));
    assert(pre.slots.dom().contains(slot.key()));
    finger_that_moves_is_followed(pre, slot, pos, timestamp, event, post);
    update_reports_centroid_movement(pre, slot, pos, timestamp);
    lemma_sum_follows(keys, pre.slots, slot.key(), pos, axis);
    centroid_difference_on_a_grid_is_exact(keys, pre.slots, post.slots, axis, grid);
}

/// The begin event reports, along each axis, the mean of how far the tracked fingers have come since
/// recognition began, to within two and a half units.
pub proof fn begin_reports_the_mean_movement(
    pre: TrackerState,
    touch: Touch,
    event: Option<GestureEvent>,
    post: TrackerState,
    axis: Axis,
    size: nat,
    grid: nat,
)
    requires
        pre.valid(),
        step(pre, touch, event, post),
        event matches Some(begin) && begin is Begin,
        stay_within(post.tracked_slots, post.start, axis, size, grid),
        stay_within(post.tracked_slots, post.slots, axis, size, grid),
    ensures
        reported_delta(event, axis) matches Some(delta) && {
            let count: nat = post.tracked_slots.len();
            let movement: int = coordinate_sum(post.tracked_slots, post.slots, axis)
                - coordinate_sum(post.tracked_slots, post.start, axis);
            &&& delta.finite()
            &&& 2 * vstd::math::abs(delta.value() * count - movement) <= 5 * (count * pow2(grid))
        },
{
    step_keeps_valid(pre, touch, event, post);
    gesture_begins_with_enough_fingers(pre, touch, event, post);
    centroid_movement_is_near_the_mean(
        post.tracked_slots,
        post.start,
        post.slots,
        axis,
        size,
        grid,
    );
}

} // verus!
