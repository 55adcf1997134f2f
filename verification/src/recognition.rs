//! When a swipe is recognized, and as what.
//!
//! A gesture begins as soon as the centroid of the tracked fingers has come more than sixteen pixels
//! from where recognition began, whichever way it went, and it is of the axis along which it went
//! farther.

use std::time::Duration;

use vstd::arithmetic::power2::{lemma_pow2_pos, pow2};
use vstd::prelude::*;

use crate::arithmetic::{
    difference_is_closest, is_closest, product_is_closest, sum_is_closest,
    sum_of_what_is_not_finite,
};
use crate::averages::{centroid_movement_is_near_the_mean, stay_within};
use crate::binary64::Binary64;
use crate::fingers::finger_that_moves_is_followed;
use crate::geometry::{Axis, Point, TouchSlot};
use crate::laws::{gesture_begins_with_enough_fingers, step, Touch};
use crate::rounding::{
    lemma_magnitude_strictly_increases, lemma_nearest_exists, lemma_nearest_monotone, magnitude,
    nearest, INFINITY,
};
use crate::summation::{
    averages_exactly, centroid_difference_on_a_grid_is_exact, coordinate_sum,
};
use crate::threshold::{
    direction_is_the_longer_axis, lemma_threshold_square, movement_beyond_threshold_is_a_gesture,
    movement_within_threshold_is_no_gesture, pixel, squared_length, squared_threshold,
};
use crate::touch_swipe_tracker::{
    exceeds_threshold, GestureEvent, Phase, SwipeDirection, TrackerState,
};

verus! {

/// How far the centroid has come is the difference of where it is and where it was when recognition
/// began, along each axis by itself, and the double closest to it where both are finite.
pub proof fn travelled_is_the_way_of_the_centroid(state: TrackerState, axis: Axis)
    ensures
        ({
            let now: Binary64 = state.centroid().along(axis);
            let then: Binary64 = state.start_centroid().along(axis);
            let way: Binary64 = state.travelled().along(axis);
            &&& way == now.spec_minus(then)
            &&& now.finite() && then.finite() ==> is_closest(way, now.value() - then.value(), 1)
        }),
{
    let now: Binary64 = state.centroid().along(axis);
    let then: Binary64 = state.start_centroid().along(axis);
    if now.finite() && then.finite() {
        difference_is_closest(now, then);
    }
}

/// Among tracked fingers, a motion during recognition begins the gesture exactly if it takes the
/// centroid beyond the threshold, whichever way, and recognition goes on otherwise.
///
/// A way of at most sixteen pixels, measured exactly, never begins a gesture, and neither does one
/// that is not a number. A way that exceeds sixteen pixels by more than a trace always does.
pub proof fn gesture_begins_exactly_beyond_the_threshold(
    pre: TrackerState,
    slot: TouchSlot,
    pos: Point,
    timestamp: Duration,
    event: Option<GestureEvent>,
    post: TrackerState,
)
    requires
        pre.valid(),
        step(pre, Touch::Motion { slot, pos, timestamp }, event, post),
        pre.phase == Phase::Recognizing,
        pre.slots.contains_key(slot.key()),
        pre.tracked_slots.len() > 0,
    ensures
        ({
            let way: Point = post.travelled();
            let begins: bool = event matches Some(begin) && begin is Begin;
            &&& begins <==> exceeds_threshold(way)
            &&& begins <==> post.phase == Phase::Active
            &&& !begins <==> event is None && post.phase == Phase::Recognizing
            &&& way.x.nan() || way.y.nan() ==> !begins
            &&& way.x.finite() && way.y.finite() && squared_length(way) <= squared_threshold()
                ==> !begins
            &&& !way.x.nan() && !way.y.nan() && squared_length(way) >= squared_threshold() + pow2(
                1031,
            ) * pixel() ==> begins
        }),
{
    let way: Point = post.travelled();
    if way.x.finite() && way.y.finite() && squared_length(way) <= squared_threshold() {
        movement_within_threshold_is_no_gesture(way);
    }
    if !way.x.nan() && !way.y.nan() && squared_length(way) >= squared_threshold() + pow2(1031)
        * pixel() {
        movement_beyond_threshold_is_a_gesture(way);
    }
    if way.x.nan() || way.y.nan() {
        nothing_but_numbers_exceeds_the_threshold(way);
    }
}

/// With no finger left to average, no motion begins a gesture.
pub proof fn no_gesture_without_tracked_fingers(
    pre: TrackerState,
    slot: TouchSlot,
    pos: Point,
    timestamp: Duration,
    event: Option<GestureEvent>,
    post: TrackerState,
)
    requires
        pre.valid(),
        step(pre, Touch::Motion { slot, pos, timestamp }, event, post),
        pre.phase == Phase::Recognizing,
        pre.tracked_slots.len() == 0,
    ensures
        event is None,
        post.phase == Phase::Recognizing,
{
}

/// A gesture that begins is of the axis along which its own deltas are larger, vertical where
/// neither is, and the tracker keeps that direction. Its deltas are numbers.
pub proof fn gesture_takes_the_longer_axis(
    pre: TrackerState,
    touch: Touch,
    event: Option<GestureEvent>,
    post: TrackerState,
)
    requires
        pre.valid(),
        step(pre, touch, event, post),
    ensures
        event matches Some(
            GestureEvent::Begin { direction, delta_x, delta_y, timestamp },
        ) ==> {
            &&& !delta_x.nan() && !delta_y.nan()
            &&& direction == SwipeDirection::Horizontal <==> vstd::math::abs(delta_x.value())
                > vstd::math::abs(delta_y.value())
            &&& direction == SwipeDirection::Vertical <==> vstd::math::abs(delta_x.value())
                <= vstd::math::abs(delta_y.value())
            &&& post.direction == direction
        },
{
    if event matches Some(begin) && begin is Begin {
        let way: Point = post.travelled();
        gesture_begins_with_enough_fingers(pre, touch, event, post);
        if way.x.nan() || way.y.nan() {
            nothing_but_numbers_exceeds_the_threshold(way);
        }
        assert(!way.x.nan() && !way.y.nan());
        direction_is_the_longer_axis(way);
    }
}

/// A displacement that is not a number exceeds nothing.
pub proof fn nothing_but_numbers_exceeds_the_threshold(delta: Point)
    requires
        delta.x.nan() || delta.y.nan(),
    ensures
        !exceeds_threshold(delta),
{
}

/// What is compared with the threshold is the square of the length, computed in doubles: the double
/// closest to the sum of the doubles closest to the squares. It exceeds the threshold exactly if it
/// is larger than 256, in square pixels.
pub proof fn rounded_square_is_compared_with_the_threshold(delta: Point) -> (squares: (
    Binary64,
    Binary64,
    Binary64,
))
    requires
        delta.x.finite(),
        delta.y.finite(),
    ensures
        is_closest(squares.0, delta.x.value() * delta.x.value(), pixel()),
        is_closest(squares.1, delta.y.value() * delta.y.value(), pixel()),
        squares.0.finite() && squares.1.finite() ==> is_closest(
            squares.2,
            squares.0.value() + squares.1.value(),
            1,
        ),
        !squares.0.finite() || !squares.1.finite() ==> squares.2.infinite(),
        exceeds_threshold(delta) <==> squares.2.value() > 256 * pixel(),
{
    let xx: Binary64 = delta.x.spec_times(delta.x);
    let yy: Binary64 = delta.y.spec_times(delta.y);
    let sum: Binary64 = xx.spec_plus(yy);
    product_is_closest(delta.x, delta.x);
    product_is_closest(delta.y, delta.y);
    if xx.finite() && yy.finite() {
        sum_is_closest(xx, yy);
    } else {
        sum_of_what_is_not_finite(xx, yy);
    }
    lemma_threshold_square();
    (xx, yy, sum)
}

/// Which way a displacement points does not matter for the threshold: neither its signs nor which
/// axis is which.
pub proof fn threshold_is_the_same_every_way(delta: Point, other: Point)
    requires
        ({
            ||| other.x.pattern() == delta.x.pattern() && other.y.pattern() == delta.y.pattern()
            ||| other.x.pattern() == delta.y.pattern() && other.y.pattern() == delta.x.pattern()
        }),
    ensures
        exceeds_threshold(other) == exceeds_threshold(delta),
{
}

/// Fractions round in their order.
proof fn lemma_nearest_ordered(lower: nat, upper: nat, den: nat)
    requires
        den > 0,
        lower <= upper,
    ensures
        nearest(lower, den) <= nearest(upper, den),
{
    let p: nat = nearest(lower, den);
    let q: nat = nearest(upper, den);
    lemma_nearest_exists(lower, den);
    lemma_nearest_exists(upper, den);
    lemma_nearest_monotone(lower, den, q);
    if p > q {
        let _ = (magnitude(p), magnitude(q));
        lemma_magnitude_strictly_increases(q, p);
        assert(magnitude(q) * den < magnitude(p) * den) by (nonlinear_arith)
            requires
                magnitude(q) < magnitude(p),
                den > 0,
        ;
    }
}

/// Larger numbers have larger squares.
proof fn lemma_squares_ordered(a: Binary64, b: Binary64)
    requires
        !a.nan(),
        !b.nan(),
        a.pattern() <= b.pattern(),
    ensures
        a.spec_times(a).pattern() <= b.spec_times(b).pattern() <= INFINITY,
        !a.spec_times(a).negative(),
        !b.spec_times(b).negative(),
{
    let m: nat = magnitude(a.pattern());
    let n: nat = magnitude(b.pattern());
    if a.pattern() < b.pattern() {
        lemma_magnitude_strictly_increases(a.pattern(), b.pattern());
    }
    assert(m * m <= n * n) by (nonlinear_arith)
        requires
            m <= n,
    ;
    lemma_pow2_pos(1074);
    lemma_nearest_exists(m * m, pow2(1074));
    lemma_nearest_exists(n * n, pow2(1074));
    lemma_nearest_ordered(m * m, n * n, pow2(1074));
}

/// Larger numbers have larger sums.
proof fn lemma_sums_ordered(a: Binary64, b: Binary64, c: Binary64, d: Binary64)
    requires
        a.pattern() <= c.pattern() <= INFINITY,
        b.pattern() <= d.pattern() <= INFINITY,
        !a.negative(),
        !b.negative(),
        !c.negative(),
        !d.negative(),
    ensures
        a.spec_plus(b).value() <= c.spec_plus(d).value(),
        !c.spec_plus(d).nan(),
{
    if a.pattern() < c.pattern() {
        lemma_magnitude_strictly_increases(a.pattern(), c.pattern());
    }
    if b.pattern() < d.pattern() {
        lemma_magnitude_strictly_increases(b.pattern(), d.pattern());
    }
    let lower: nat = (a.value() + b.value()) as nat;
    let upper: nat = (c.value() + d.value()) as nat;
    lemma_nearest_exists(lower, 1);
    lemma_nearest_exists(upper, 1);
    lemma_nearest_ordered(lower, upper, 1);
    let p: nat = a.spec_plus(b).pattern();
    let q: nat = c.spec_plus(d).pattern();
    lemma_magnitude_strictly_increases(0, INFINITY as nat);
    if lower == 0 {
        assert(p == 0);
    }
    assert(p <= q);
    if p < q {
        lemma_magnitude_strictly_increases(p, q);
    }
}

/// Going farther never falls back below the threshold: a displacement that is at least as large
/// along both axes as one that exceeds it exceeds it too.
pub proof fn going_farther_exceeds_the_threshold_too(delta: Point, farther: Point)
    requires
        exceeds_threshold(delta),
        !farther.x.nan(),
        !farther.y.nan(),
        vstd::math::abs(delta.x.value()) <= vstd::math::abs(farther.x.value()),
        vstd::math::abs(delta.y.value()) <= vstd::math::abs(farther.y.value()),
    ensures
        exceeds_threshold(farther),
{
    if delta.x.nan() || delta.y.nan() {
        nothing_but_numbers_exceeds_the_threshold(delta);
    }
    if farther.x.pattern() < delta.x.pattern() {
        lemma_magnitude_strictly_increases(farther.x.pattern(), delta.x.pattern());
    }
    if farther.y.pattern() < delta.y.pattern() {
        lemma_magnitude_strictly_increases(farther.y.pattern(), delta.y.pattern());
    }
    lemma_squares_ordered(delta.x, farther.x);
    lemma_squares_ordered(delta.y, farther.y);
    lemma_sums_ordered(
        delta.x.spec_times(delta.x),
        delta.y.spec_times(delta.y),
        farther.x.spec_times(farther.x),
        farther.y.spec_times(farther.y),
    );
}

/// The sum, over the tracked fingers, of how far each has come along an axis since recognition
/// began.
pub open spec fn ways_of_fingers(state: TrackerState, axis: Axis) -> int {
    coordinate_sum(state.tracked_slots, state.slots, axis) - coordinate_sum(
        state.tracked_slots,
        state.start,
        axis,
    )
}

/// What a motion during recognition leads to, by how far the fingers have come in all. `slack` is
/// twice how far the computed way of the centroid, times the number of fingers, may be off.
pub open spec fn decided_by_the_ways(
    event: Option<GestureEvent>,
    post: TrackerState,
    slack: nat,
) -> bool {
    let count: nat = post.tracked_slots.len();
    let x: int = ways_of_fingers(post, Axis::X);
    let y: int = ways_of_fingers(post, Axis::Y);
    let size: nat = vstd::math::abs(x) + vstd::math::abs(y);
    let far: nat = (count * count) * squared_threshold();
    let trace: nat = (count * count) * (pow2(1031) * pixel());
    &&& 2 * (x * x + y * y) + 2 * (slack * size) + slack * slack <= 2 * far ==> {
        event is None && post.phase == Phase::Recognizing
    }
    &&& x * x + y * y >= far + trace + slack * size ==> {
        &&& event matches Some(begin) && begin is Begin
        &&& post.phase == Phase::Active
    }
    &&& event matches Some(GestureEvent::Begin { direction, .. }) ==> {
        &&& vstd::math::abs(x) > vstd::math::abs(y) + slack ==> direction
            == SwipeDirection::Horizontal
        &&& vstd::math::abs(y) >= vstd::math::abs(x) + slack ==> direction
            == SwipeDirection::Vertical
    }
}

/// The squares of a way and of what it is off from.
proof fn lemma_square_of_way(way: int, count: nat, exact: int, slack: nat)
    requires
        2 * vstd::math::abs(way * count - exact) <= slack,
    ensures
        4 * (exact * exact) - 4 * (slack * vstd::math::abs(exact)) <= 4 * ((count * count) * (way
            * way)) <= 4 * (exact * exact) + 4 * (slack * vstd::math::abs(exact)) + slack * slack,
        2 * vstd::math::abs(exact) - slack <= 2 * (vstd::math::abs(way) * count) <= 2
            * vstd::math::abs(exact) + slack,
{
    let scaled: int = way * count;
    let off: int = 2 * (scaled - exact);
    let size: int = vstd::math::abs(exact) as int;
    assert((count * count) * (way * way) == scaled * scaled) by (nonlinear_arith)
        requires
            scaled == way * count,
    ;
    assert(4 * (scaled * scaled) == 4 * (exact * exact) + 4 * (exact * off) + off * off)
        by (nonlinear_arith)
        requires
            off == 2 * (scaled - exact),
    ;
    assert(-(slack * size) <= exact * off <= slack * size && 0 <= off * off <= slack * slack)
        by (nonlinear_arith)
        requires
            -slack <= off <= slack,
            -size <= exact <= size,
            size >= 0,
    ;
    assert(vstd::math::abs(scaled) == vstd::math::abs(way) * count) by (nonlinear_arith)
        requires
            scaled == way * count,
            vstd::math::abs(scaled) == (if scaled < 0 { -scaled } else { scaled }),
            vstd::math::abs(way) == (if way < 0 { -way } else { way }),
    ;
}

/// A motion during recognition is decided by how far the fingers have come, as far as the computed
/// way of the centroid tells it.
proof fn lemma_decided_by_the_ways(
    pre: TrackerState,
    slot: TouchSlot,
    pos: Point,
    timestamp: Duration,
    event: Option<GestureEvent>,
    post: TrackerState,
    slack: nat,
)
    requires
        pre.valid(),
        step(pre, Touch::Motion { slot, pos, timestamp }, event, post),
        pre.phase == Phase::Recognizing,
        pre.slots.contains_key(slot.key()),
        pre.tracked_slots.len() > 0,
        post.tracked_slots == pre.tracked_slots,
        post.travelled().x.finite(),
        post.travelled().y.finite(),
        2 * vstd::math::abs(
            post.travelled().x.value() * pre.tracked_slots.len() - ways_of_fingers(post, Axis::X),
        ) <= slack,
        2 * vstd::math::abs(
            post.travelled().y.value() * pre.tracked_slots.len() - ways_of_fingers(post, Axis::Y),
        ) <= slack,
    ensures
        decided_by_the_ways(event, post, slack),
{
    let count: nat = post.tracked_slots.len();
    let way: Point = post.travelled();
    let x: int = ways_of_fingers(post, Axis::X);
    let y: int = ways_of_fingers(post, Axis::Y);
    let wx: int = way.x.value();
    let wy: int = way.y.value();
    let x_size: int = vstd::math::abs(x) as int;
    let y_size: int = vstd::math::abs(y) as int;
    gesture_begins_exactly_beyond_the_threshold(pre, slot, pos, timestamp, event, post);
    gesture_takes_the_longer_axis(pre, Touch::Motion { slot, pos, timestamp }, event, post);
    lemma_square_of_way(wx, count, x, slack);
    lemma_square_of_way(wy, count, y, slack);
    let square: int = count * count as int;
    let limit: int = squared_threshold() as int;
    let trace: int = (pow2(1031) * pixel()) as int;
    assert(square > 0) by (nonlinear_arith)
        requires
            square == count * count,
            count > 0,
    ;
    assert(square * (wx * wx) + square * (wy * wy) == square * squared_length(way))
        by (nonlinear_arith)
        requires
            squared_length(way) == wx * wx + wy * wy,
    ;
    assert(slack * x_size + slack * y_size == slack * (x_size + y_size)) by (nonlinear_arith);
    assert(square * squared_length(way) <= square * limit ==> squared_length(way) <= limit)
        by (nonlinear_arith)
        requires
            square > 0,
    ;
    assert(square * (limit + trace) == square * limit + square * trace) by (nonlinear_arith);
    assert(square * squared_length(way) >= square * (limit + trace) ==> squared_length(way) >= limit
        + trace) by (nonlinear_arith)
        requires
            square > 0,
    ;
    let a: int = vstd::math::abs(wx) as int;
    let b: int = vstd::math::abs(wy) as int;
    assert(a * count > b * count ==> a > b) by (nonlinear_arith)
        requires
            count > 0,
    ;
    assert(a * count <= b * count ==> a <= b) by (nonlinear_arith)
        requires
            count > 0,
    ;
    if event matches Some(begin) && begin is Begin {
        gesture_begins_with_enough_fingers(
            pre,
            Touch::Motion { slot, pos, timestamp },
            event,
            post,
        );
    }
}

/// A swipe is recognized by how far the fingers have come: whichever way they went, the gesture
/// begins once the sum of their ways, divided by their number, is clearly longer than sixteen
/// pixels, and never while it is clearly shorter. It is of the axis along which the fingers clearly
/// went farther.
///
/// Clearly is by more than two and a half units along each axis.
pub proof fn swipe_is_recognized_by_the_ways_of_the_fingers(
    pre: TrackerState,
    slot: TouchSlot,
    pos: Point,
    timestamp: Duration,
    event: Option<GestureEvent>,
    post: TrackerState,
    size: nat,
    grid: nat,
)
    requires
        pre.valid(),
        step(pre, Touch::Motion { slot, pos, timestamp }, event, post),
        pre.phase == Phase::Recognizing,
        pre.slots.contains_key(slot.key()),
        pre.tracked_slots.len() > 0,
        forall|axis: Axis| #[trigger]
            stay_within(pre.tracked_slots, pre.start, axis, size, grid) && stay_within(
                pre.tracked_slots,
                pre.slots.insert(slot.key(), pos),
                axis,
                size,
                grid,
            ),
    ensures
        decided_by_the_ways(event, post, 5 * (pre.tracked_slots.len() * pow2(grid))),
{
    let keys: Seq<u64> = pre.tracked_slots;
    finger_that_moves_is_followed(pre, slot, pos, timestamp, event, post);
    assert(stay_within(keys, pre.start, Axis::X, size, grid));
    assert(stay_within(keys, pre.start, Axis::Y, size, grid));
    centroid_movement_is_near_the_mean(keys, post.start, post.slots, Axis::X, size, grid);
    centroid_movement_is_near_the_mean(keys, post.start, post.slots, Axis::Y, size, grid);
    lemma_decided_by_the_ways(
        pre,
        slot,
        pos,
        timestamp,
        event,
        post,
        5 * (keys.len() * pow2(grid)),
    );
}

/// On a grid that holds the centroids nothing is lost: the gesture begins by the exact mean of how
/// far the fingers have come, and is horizontal exactly if they went farther sideways.
pub proof fn swipe_on_a_grid_is_recognized_exactly(
    pre: TrackerState,
    slot: TouchSlot,
    pos: Point,
    timestamp: Duration,
    event: Option<GestureEvent>,
    post: TrackerState,
    x_grid: nat,
    y_grid: nat,
)
    requires
        pre.valid(),
        step(pre, Touch::Motion { slot, pos, timestamp }, event, post),
        pre.phase == Phase::Recognizing,
        pre.slots.contains_key(slot.key()),
        averages_exactly(pre.tracked_slots, pre.start, Axis::X, x_grid),
        averages_exactly(pre.tracked_slots, pre.start, Axis::Y, y_grid),
        averages_exactly(pre.tracked_slots, pre.slots.insert(slot.key(), pos), Axis::X, x_grid),
        averages_exactly(pre.tracked_slots, pre.slots.insert(slot.key(), pos), Axis::Y, y_grid),
    ensures
        ({
            let count: nat = pre.tracked_slots.len();
            let x: int = ways_of_fingers(post, Axis::X);
            let y: int = ways_of_fingers(post, Axis::Y);
            let far: nat = (count * count) * squared_threshold();
            let trace: nat = (count * count) * (pow2(1031) * pixel());
            &&& x * x + y * y <= far ==> event is None && post.phase == Phase::Recognizing
            &&& x * x + y * y >= far + trace ==> {
                &&& event matches Some(begin) && begin is Begin
                &&& post.phase == Phase::Active
            }
            &&& event matches Some(
                GestureEvent::Begin { direction, delta_x, delta_y, timestamp: time },
            ) ==> {
                &&& delta_x.finite() && delta_x.value() * count == x
                &&& delta_y.finite() && delta_y.value() * count == y
                &&& direction == SwipeDirection::Horizontal <==> vstd::math::abs(x)
                    > vstd::math::abs(y)
            }
        }),
{
    let keys: Seq<u64> = pre.tracked_slots;
    finger_that_moves_is_followed(pre, slot, pos, timestamp, event, post);
    centroid_difference_on_a_grid_is_exact(keys, post.start, post.slots, Axis::X, x_grid);
    centroid_difference_on_a_grid_is_exact(keys, post.start, post.slots, Axis::Y, y_grid);
    lemma_decided_by_the_ways(pre, slot, pos, timestamp, event, post, 0);
    let size: nat = vstd::math::abs(ways_of_fingers(post, Axis::X)) + vstd::math::abs(
        ways_of_fingers(post, Axis::Y),
    );
    assert(0 * size == 0);
    if event matches Some(begin) && begin is Begin {
        gesture_begins_with_enough_fingers(
            pre,
            Touch::Motion { slot, pos, timestamp },
            event,
            post,
        );
    }
}

} // verus!
