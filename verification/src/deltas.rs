//! How the deltas that one gesture reports add up.
//!
//! The begin event reports how far the centroid has come since recognition began, and each update
//! how far it has come since. Together they make up the whole movement of the centroid: nothing is
//! lost and nothing is counted twice, but for the rounding of each delta.

use vstd::arithmetic::power2::{lemma_pow2_strictly_increases, pow2};
use vstd::prelude::*;

use crate::binary64::Binary64;
use crate::geometry::{Axis, Point};
use crate::laws::{
    active_gesture_is_locked, events_follow_the_phase, every_reached_state_is_valid,
    gesture_begins_with_enough_fingers, is_run, step, step_keeps_valid,
    update_reports_centroid_movement, Touch,
};
use crate::rounding::{
    lemma_magnitude_step, lemma_nearest_exists, nearest, ulp_exponent, BINADE,
};
use crate::summation::{
    averages_exactly, centroid_difference_on_a_grid_is_exact, difference_is_exact,
};
use crate::touch_swipe_tracker::{GestureEvent, Phase, TrackerState};

verus! {

/// The delta that an event reports along an axis, where it reports one.
pub open spec fn reported_delta(event: Option<GestureEvent>, axis: Axis) -> Option<Binary64> {
    match event {
        Some(GestureEvent::Begin { delta_x, delta_y, .. }) => Some(
            (Point { x: delta_x, y: delta_y }).along(axis),
        ),
        Some(GestureEvent::Update { delta_x, delta_y, .. }) => Some(
            (Point { x: delta_x, y: delta_y }).along(axis),
        ),
        _ => None,
    }
}

/// The exact sum of the deltas that the events from the `first` up to before the `last` report.
pub open spec fn reported_total(
    events: Seq<Option<GestureEvent>>,
    axis: Axis,
    first: int,
    last: int,
) -> int
    decreases last - first,
{
    if last <= first {
        0
    } else {
        reported_total(events, axis, first, last - 1) + match reported_delta(
            events[last - 1],
            axis,
        ) {
            Some(delta) => delta.value(),
            None => 0,
        }
    }
}

/// The sum of one unit in the last place of each of those deltas.
pub open spec fn last_places(
    events: Seq<Option<GestureEvent>>,
    axis: Axis,
    first: int,
    last: int,
) -> int
    decreases last - first,
{
    if last <= first {
        0
    } else {
        last_places(events, axis, first, last - 1) + match reported_delta(events[last - 1], axis) {
            Some(delta) => pow2(ulp_exponent(delta.pattern())) as int,
            None => 0,
        }
    }
}

/// The touches from the `first`, with which a gesture begins, up to before the `last` belong to one
/// gesture: it neither ends nor is reset in between.
pub open spec fn is_one_gesture(
    touches: Seq<Touch>,
    events: Seq<Option<GestureEvent>>,
    first: int,
    last: int,
) -> bool {
    &&& 0 <= first < last <= touches.len()
    &&& events[first] matches Some(event) && event is Begin
    &&& forall|i: int|
        first < i < last ==> (#[trigger] touches[i]) !is Reset && !(events[i] matches Some(event)
            && event is End)
}

/// Rounding a difference moves it by at most half a unit in its last place.
proof fn lemma_difference_error(a: Binary64, b: Binary64)
    requires
        a.finite(),
        b.finite(),
        a.spec_minus(b).finite(),
    ensures
        2 * vstd::math::abs(a.spec_minus(b).value() - (a.value() - b.value())) <= pow2(
            ulp_exponent(a.spec_minus(b).pattern()),
        ),
{
    let exact: int = a.value() - b.value();
    assert(b.spec_negated().value() == -b.value());
    if exact != 0 {
        let num: nat = vstd::math::abs(exact) as nat;
        let pattern: nat = nearest(num, 1);
        lemma_nearest_exists(num, 1);
        assert(a.spec_minus(b).pattern() == pattern);
        lemma_magnitude_step(pattern);
        if pattern > 0 {
            let below: nat = (pattern - 1) as nat;
            lemma_magnitude_step(below);
            assert(below / BINADE as nat <= pattern / BINADE as nat) by (nonlinear_arith)
                requires
                    below <= pattern,
                    BINADE > 0,
            ;
            if ulp_exponent(below) < ulp_exponent(pattern) {
                lemma_pow2_strictly_increases(ulp_exponent(below), ulp_exponent(pattern));
            }
        }
    }
}

/// What one touch within an active gesture reports: the movement of the centroid, or nothing
/// because it has not moved.
proof fn lemma_step_within_gesture(
    pre: TrackerState,
    touch: Touch,
    event: Option<GestureEvent>,
    post: TrackerState,
    axis: Axis,
)
    requires
        pre.valid(),
        step(pre, touch, event, post),
        pre.phase == Phase::Active,
        post.phase == Phase::Active,
    ensures
        match reported_delta(event, axis) {
            Some(delta) => delta == post.centroid().spec_minus(pre.centroid()).along(axis),
            None => post.centroid() == pre.centroid(),
        },
{
    step_keeps_valid(pre, touch, event, post);
    events_follow_the_phase(pre, touch, event, post);
    match touch {
        Touch::Motion { slot, pos, timestamp } => {
            if pre.tracked_slots.contains(slot.key()) {
                update_reports_centroid_movement(pre, slot, pos, timestamp);
            }
        },
        _ => {},
    }
}

/// Throughout one gesture the tracker is active, with the same slots and the same start.
pub proof fn lemma_within_gesture(
    min_fingers: usize,
    states: Seq<TrackerState>,
    touches: Seq<Touch>,
    events: Seq<Option<GestureEvent>>,
    first: int,
    last: int,
)
    requires
        is_run(min_fingers, states, touches, events),
        is_one_gesture(touches, events, first, last),
    ensures
        states[last].valid(),
        states[last].phase == Phase::Active,
        states[last].tracked_slots == states[first + 1].tracked_slots,
        states[last].start == states[first + 1].start,
    decreases last - first,
{
    let i: int = last - 1;
    every_reached_state_is_valid(min_fingers, states, touches, events, i as nat);
    every_reached_state_is_valid(min_fingers, states, touches, events, last as nat);
    assert(step(states[i], touches[i], events[i], states[i + 1]));
    events_follow_the_phase(states[i], touches[i], events[i], states[i + 1]);
    if first < i {
        lemma_within_gesture(min_fingers, states, touches, events, first, i);
        active_gesture_is_locked(states[i], touches[i], events[i], states[i + 1]);
    }
}

/// The deltas of one gesture, begin and updates, add up to the whole movement of the centroid since
/// recognition began, up to half a unit in the last place of each of them.
pub proof fn deltas_add_up_to_the_movement(
    min_fingers: usize,
    states: Seq<TrackerState>,
    touches: Seq<Touch>,
    events: Seq<Option<GestureEvent>>,
    first: int,
    last: int,
    axis: Axis,
)
    requires
        is_run(min_fingers, states, touches, events),
        is_one_gesture(touches, events, first, last),
        states[last].start_centroid().along(axis).finite(),
        forall|i: int|
            first < i <= last ==> (#[trigger] states[i]).centroid().along(axis).finite(),
        forall|i: int|
            first <= i < last ==> (reported_delta(#[trigger] events[i], axis) matches Some(delta)
                ==> delta.finite()),
    ensures
        states[last].phase == Phase::Active,
        ({
            let movement: int = states[last].centroid().along(axis).value()
                - states[last].start_centroid().along(axis).value();
            2 * vstd::math::abs(reported_total(events, axis, first, last) - movement)
                <= last_places(events, axis, first, last)
        }),
    decreases last - first,
{
    let i: int = last - 1;
    lemma_within_gesture(min_fingers, states, touches, events, first, last);
    every_reached_state_is_valid(min_fingers, states, touches, events, i as nat);
    assert(step(states[i], touches[i], events[i], states[i + 1]));
    if first < i {
        lemma_within_gesture(min_fingers, states, touches, events, first, i);
        deltas_add_up_to_the_movement(min_fingers, states, touches, events, first, i, axis);
        lemma_step_within_gesture(states[i], touches[i], events[i], states[i + 1], axis);
        if reported_delta(events[i], axis) is Some {
            lemma_difference_error(
                states[last].centroid().along(axis),
                states[i].centroid().along(axis),
            );
        }
    } else {
        gesture_begins_with_enough_fingers(states[i], touches[i], events[i], states[i + 1]);
        assert(reported_total(events, axis, first, first) == 0);
        assert(last_places(events, axis, first, first) == 0);
        lemma_difference_error(
            states[last].centroid().along(axis),
            states[last].start_centroid().along(axis),
        );
    }
}

/// Where no delta of the gesture is rounded, and neither is the distance of the centroid from where
/// recognition began, the deltas add up exactly to that distance.
pub proof fn exact_deltas_add_up_exactly(
    min_fingers: usize,
    states: Seq<TrackerState>,
    touches: Seq<Touch>,
    events: Seq<Option<GestureEvent>>,
    first: int,
    last: int,
    axis: Axis,
)
    requires
        is_run(min_fingers, states, touches, events),
        is_one_gesture(touches, events, first, last),
        difference_is_exact(states[first + 1].start_centroid(), states[first + 1].centroid(), axis),
        difference_is_exact(states[last].start_centroid(), states[last].centroid(), axis),
        forall|i: int|
            first < i < last && reported_delta(events[i], axis) is Some ==> difference_is_exact(
                (#[trigger] states[i]).centroid(),
                states[i + 1].centroid(),
                axis,
            ),
    ensures
        states[last].phase == Phase::Active,
        reported_total(events, axis, first, last) == states[last].travelled().along(axis).value(),
{
    lemma_within_gesture(min_fingers, states, touches, events, first, last);
    lemma_exact_deltas_telescope(min_fingers, states, touches, events, first, last, axis);
}

/// Deltas that are not rounded add up to the difference of the first and the last centroid.
proof fn lemma_exact_deltas_telescope(
    min_fingers: usize,
    states: Seq<TrackerState>,
    touches: Seq<Touch>,
    events: Seq<Option<GestureEvent>>,
    first: int,
    last: int,
    axis: Axis,
)
    requires
        is_run(min_fingers, states, touches, events),
        is_one_gesture(touches, events, first, last),
        difference_is_exact(states[first + 1].start_centroid(), states[first + 1].centroid(), axis),
        forall|i: int|
            first < i < last && reported_delta(events[i], axis) is Some ==> difference_is_exact(
                (#[trigger] states[i]).centroid(),
                states[i + 1].centroid(),
                axis,
            ),
    ensures
        reported_total(events, axis, first, last) == states[last].centroid().along(axis).value()
            - states[last].start_centroid().along(axis).value(),
    decreases last - first,
{
    let i: int = last - 1;
    lemma_within_gesture(min_fingers, states, touches, events, first, last);
    every_reached_state_is_valid(min_fingers, states, touches, events, i as nat);
    assert(step(states[i], touches[i], events[i], states[i + 1]));
    if first < i {
        lemma_within_gesture(min_fingers, states, touches, events, first, i);
        lemma_exact_deltas_telescope(min_fingers, states, touches, events, first, i, axis);
        lemma_step_within_gesture(states[i], touches[i], events[i], states[i + 1], axis);
    } else {
        gesture_begins_with_enough_fingers(states[i], touches[i], events[i], states[i + 1]);
        assert(reported_total(events, axis, first, first) == 0);
    }
}

/// On a grid that holds every centroid of the gesture, the deltas add up exactly to the distance
/// from where recognition began.
pub proof fn deltas_on_a_grid_add_up_exactly(
    min_fingers: usize,
    states: Seq<TrackerState>,
    touches: Seq<Touch>,
    events: Seq<Option<GestureEvent>>,
    first: int,
    last: int,
    axis: Axis,
    grid: nat,
)
    requires
        is_run(min_fingers, states, touches, events),
        is_one_gesture(touches, events, first, last),
        averages_exactly(states[last].tracked_slots, states[last].start, axis, grid),
        forall|i: int|
            first < i <= last ==> averages_exactly(
                (#[trigger] states[i]).tracked_slots,
                states[i].slots,
                axis,
                grid,
            ),
    ensures
        states[last].phase == Phase::Active,
        reported_total(events, axis, first, last) == states[last].travelled().along(axis).value(),
{
    let keys: Seq<u64> = states[last].tracked_slots;
    let start: Map<u64, Point> = states[last].start;
    lemma_within_gesture(min_fingers, states, touches, events, first, last);
    centroid_difference_on_a_grid_is_exact(keys, start, states[first + 1].slots, axis, grid);
    centroid_difference_on_a_grid_is_exact(keys, start, states[last].slots, axis, grid);
    assert forall|i: int| first < i < last implies difference_is_exact(
        (#[trigger] states[i]).centroid(),
        states[i + 1].centroid(),
        axis,
    ) by {
        lemma_within_gesture(min_fingers, states, touches, events, first, i);
        lemma_within_gesture(min_fingers, states, touches, events, first, i + 1);
        centroid_difference_on_a_grid_is_exact(
            keys,
            states[i].slots,
            states[i + 1].slots,
            axis,
            grid,
        );
    }
    exact_deltas_add_up_exactly(min_fingers, states, touches, events, first, last, axis);
}

} // verus!
