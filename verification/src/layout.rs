//! What the grab does to the layout.
//!
//! A horizontal swipe scrolls the view and a vertical one switches workspaces. The layout moves
//! against the fingers, by as much as they do, along the axis of the swipe alone.

use std::time::Duration;

use vstd::prelude::*;

use crate::binary64::Binary64;
use crate::deltas::{
    deltas_add_up_to_the_movement, exact_deltas_add_up_exactly, is_one_gesture, last_places,
    lemma_within_gesture, reported_delta, reported_total,
};
use crate::geometry::Axis;
use crate::laws::{events_follow_the_phase, every_reached_state_is_valid, is_run, step, Touch};
use crate::summation::difference_is_exact;
use crate::touch_swipe_grab::{
    calls_for, end_calls, gesture_after, gesture_for, outcome_for, GestureState, GrabState,
    LayoutCall, Outcome,
};
use crate::touch_swipe_tracker::{GestureEvent, Phase, SwipeDirection, TrackerState};

verus! {

/// One number is the other with the opposite sign.
pub open spec fn is_opposite(number: Binary64, other: Binary64) -> bool {
    &&& number.value() == -other.value()
    &&& number.negative() != other.negative()
    &&& number.pattern() == other.pattern()
}

/// The layout gesture is the one for swipes in this direction: scrolling the view for horizontal
/// ones, switching workspaces for vertical ones.
pub open spec fn drives(gesture: GestureState, direction: SwipeDirection) -> bool {
    match direction {
        SwipeDirection::Horizontal => gesture == GestureState::ViewOffset,
        SwipeDirection::Vertical => gesture == GestureState::WorkspaceSwitch,
    }
}

/// The call moves the layout along the axis of the direction, against the fingers and by as much,
/// whatever they do along the other axis, and not as a touchpad.
pub open spec fn moves_against_the_fingers(
    call: LayoutCall,
    direction: SwipeDirection,
    delta_x: Binary64,
    delta_y: Binary64,
    time: Duration,
) -> bool {
    match direction {
        SwipeDirection::Horizontal => {
            call matches LayoutCall::ViewOffsetUpdate { delta, timestamp, is_touchpad } && {
                is_opposite(delta, delta_x) && timestamp == time && !is_touchpad
            }
        },
        SwipeDirection::Vertical => {
            call matches LayoutCall::WorkspaceSwitchUpdate { delta, timestamp, is_touchpad } && {
                is_opposite(delta, delta_y) && timestamp == time && !is_touchpad
            }
        },
    }
}

/// Whatever the grab did before, a gesture that begins makes it begin the layout gesture of its
/// direction on the output, move that by the whole way so far, against the fingers, redraw, and go
/// on with it.
pub proof fn begin_event_begins_and_moves_the_layout(
    gesture: GestureState,
    direction: SwipeDirection,
    delta_x: Binary64,
    delta_y: Binary64,
    timestamp: Duration,
)
    ensures
        ({
            let event: Option<GestureEvent> = Some(
                GestureEvent::Begin { direction, delta_x, delta_y, timestamp },
            );
            let calls: Seq<LayoutCall> = calls_for(gesture, event);
            &&& calls.len() == 3
            &&& match direction {
                SwipeDirection::Horizontal => calls[0] == (LayoutCall::ViewOffsetBegin {
                    workspace_idx: None,
                    is_touchpad: false,
                }),
                SwipeDirection::Vertical => calls[0] == (LayoutCall::WorkspaceSwitchBegin {
                    is_touchpad: false,
                }),
            }
            &&& moves_against_the_fingers(calls[1], direction, delta_x, delta_y, timestamp)
            &&& calls[2] == LayoutCall::QueueRedrawAll
            &&& outcome_for(gesture, event) == Outcome::Stay
            &&& drives(gesture_after(gesture, event), direction)
        }),
{
}

/// An update moves the layout gesture that is running, against the fingers, with one call whose
/// answer decides whether the grab goes on. Without a running gesture it does nothing. Either way
/// the gesture stays the same.
pub proof fn update_event_moves_the_layout(
    gesture: GestureState,
    delta_x: Binary64,
    delta_y: Binary64,
    timestamp: Duration,
)
    ensures
        ({
            let event: Option<GestureEvent> = Some(
                GestureEvent::Update { delta_x, delta_y, timestamp },
            );
            let calls: Seq<LayoutCall> = calls_for(gesture, event);
            &&& gesture == GestureState::Recognizing ==> {
                calls.len() == 0 && outcome_for(gesture, event) == Outcome::Stay
            }
            &&& forall|direction: SwipeDirection| #[trigger]
                drives(gesture, direction) ==> {
                    &&& calls.len() == 1
                    &&& moves_against_the_fingers(calls[0], direction, delta_x, delta_y, timestamp)
                    &&& outcome_for(gesture, event) == Outcome::AwaitAnswer
                }
            &&& gesture_after(gesture, event) == gesture
        }),
{
}

/// The calls end the layout gesture, if one is running, and redraw.
pub open spec fn ends_the_gesture(
    calls: Seq<LayoutCall>,
    gesture: GestureState,
    touchpad: Option<bool>,
) -> bool {
    match gesture {
        GestureState::Recognizing => calls.len() == 1 && calls[0] == LayoutCall::QueueRedrawAll,
        GestureState::ViewOffset => {
            &&& calls.len() == 2
            &&& calls[0] == LayoutCall::ViewOffsetEnd { touchpad }
            &&& calls[1] == LayoutCall::QueueRedrawAll
        },
        GestureState::WorkspaceSwitch => {
            &&& calls.len() == 2
            &&& calls[0] == LayoutCall::WorkspaceSwitchEnd { touchpad }
            &&& calls[1] == LayoutCall::QueueRedrawAll
        },
    }
}

/// An end event ends the layout gesture that is running, as one that was not on a touchpad, and a
/// cancel without saying what it was on. Both end the grab. Unsetting the grab ends the gesture as
/// an end event does.
pub proof fn end_of_a_gesture_ends_the_layout_gesture(gesture: GestureState, timestamp: Duration)
    ensures
        ({
            let end: Option<GestureEvent> = Some(GestureEvent::End { timestamp });
            let cancel: Option<GestureEvent> = Some(GestureEvent::Cancel);
            &&& ends_the_gesture(calls_for(gesture, end), gesture, Some(false))
            &&& ends_the_gesture(calls_for(gesture, cancel), gesture, None)
            &&& ends_the_gesture(end_calls(gesture, Some(false)), gesture, Some(false))
            &&& outcome_for(gesture, end) == Outcome::Ungrab
            &&& outcome_for(gesture, cancel) == Outcome::Ungrab
            &&& gesture_after(gesture, end) == gesture
            &&& gesture_after(gesture, cancel) == gesture
        }),
{
}

/// Without an event nothing happens.
pub proof fn no_event_leaves_the_layout_alone(gesture: GestureState)
    ensures
        calls_for(gesture, None).len() == 0,
        outcome_for(gesture, None) == Outcome::Stay,
        gesture_after(gesture, None) == gesture,
{
}

/// A grab whose tracker is in a gesture drives the layout gesture of its direction: horizontal
/// swipes scroll the view, vertical ones switch workspaces.
pub proof fn active_grab_drives_its_direction<S, O>(grab: GrabState<S, O>)
    requires
        grab.valid(),
        grab.tracker.phase == Phase::Active,
    ensures
        drives(grab.gesture, grab.tracker.direction),
{
}

/// Every direction has its layout gesture, with which a grab starts on a tracker that is already in
/// a gesture.
pub proof fn each_direction_has_its_gesture(direction: SwipeDirection)
    ensures
        drives(gesture_for(direction), direction),
{
}

/// The axis of a direction.
pub open spec fn axis_of(direction: SwipeDirection) -> Axis {
    match direction {
        SwipeDirection::Horizontal => Axis::X,
        SwipeDirection::Vertical => Axis::Y,
    }
}

/// How far the calls move the layout in a direction: scrolling for the horizontal one, switching
/// workspaces for the vertical one.
pub open spec fn layout_movement(calls: Seq<LayoutCall>, direction: SwipeDirection) -> int
    decreases calls.len(),
{
    if calls.len() == 0 {
        0
    } else {
        layout_movement(calls.drop_last(), direction) + match (direction, calls.last()) {
            (
                SwipeDirection::Horizontal,
                LayoutCall::ViewOffsetUpdate { delta, .. },
            ) => delta.value(),
            (
                SwipeDirection::Vertical,
                LayoutCall::WorkspaceSwitchUpdate { delta, .. },
            ) => delta.value(),
            _ => 0,
        }
    }
}

/// How far the calls for the events from the `first` up to before the `last` move the layout.
pub open spec fn layout_total(
    gestures: Seq<GestureState>,
    events: Seq<Option<GestureEvent>>,
    direction: SwipeDirection,
    first: int,
    last: int,
) -> int
    decreases last - first,
{
    if last <= first {
        0
    } else {
        layout_total(gestures, events, direction, first, last - 1) + layout_movement(
            calls_for(gestures[last - 1], events[last - 1]),
            direction,
        )
    }
}

/// A grab that handles the events from the `first` up to before the `last` goes through these
/// gesture states.
pub open spec fn handles(
    gestures: Seq<GestureState>,
    events: Seq<Option<GestureEvent>>,
    first: int,
    last: int,
) -> bool {
    forall|i: int|
        first <= i < last ==> #[trigger] gestures[i + 1] == gesture_after(gestures[i], events[i])
}

/// One event of a gesture moves the layout by as much as it reports, the other way, and in no other
/// direction.
proof fn lemma_event_moves_layout(
    gesture: GestureState,
    event: Option<GestureEvent>,
    direction: SwipeDirection,
)
    requires
        match event {
            None => true,
            Some(GestureEvent::Begin { direction: begun, .. }) => begun == direction,
            Some(GestureEvent::Update { .. }) => drives(gesture, direction),
            _ => false,
        },
    ensures
        layout_movement(calls_for(gesture, event), direction) == (match reported_delta(
            event,
            axis_of(direction),
        ) {
            Some(delta) => -delta.value(),
            None => 0,
        }),
        forall|other: SwipeDirection|
            other != direction ==> #[trigger] layout_movement(calls_for(gesture, event), other)
                == 0,
{
    let calls: Seq<LayoutCall> = calls_for(gesture, event);
    reveal_with_fuel(layout_movement, 4);
    match event {
        Some(GestureEvent::Begin { delta_x, delta_y, timestamp, .. }) => {
            begin_event_begins_and_moves_the_layout(
                gesture,
                direction,
                delta_x,
                delta_y,
                timestamp,
            );
            assert(calls.drop_last().last() == calls[1]);
            assert(calls.drop_last().drop_last().last() == calls[0]);
        },
        Some(GestureEvent::Update { delta_x, delta_y, timestamp }) => {
            update_event_moves_the_layout(gesture, delta_x, delta_y, timestamp);
        },
        _ => {},
    }
}

/// Over one gesture the layout moves by the sum of the reported deltas along the axis of the
/// gesture, the other way, and not at all in the other direction.
pub proof fn layout_moves_by_the_reported_deltas(
    min_fingers: usize,
    states: Seq<TrackerState>,
    touches: Seq<Touch>,
    events: Seq<Option<GestureEvent>>,
    gestures: Seq<GestureState>,
    first: int,
    last: int,
)
    requires
        is_run(min_fingers, states, touches, events),
        is_one_gesture(touches, events, first, last),
        handles(gestures, events, first, last),
    ensures
        ({
            let direction: SwipeDirection = events[first]->0->Begin_direction;
            &&& drives(gestures[last], direction)
            &&& layout_total(gestures, events, direction, first, last) == -reported_total(
                events,
                axis_of(direction),
                first,
                last,
            )
            &&& forall|other: SwipeDirection|
                other != direction ==> #[trigger] layout_total(gestures, events, other, first, last)
                    == 0
        }),
    decreases last - first,
{
    let i: int = last - 1;
    let direction: SwipeDirection = events[first]->0->Begin_direction;
    let event: Option<GestureEvent> = events[i];
    every_reached_state_is_valid(min_fingers, states, touches, events, i as nat);
    assert(step(states[i], touches[i], event, states[i + 1]));
    events_follow_the_phase(states[i], touches[i], event, states[i + 1]);
    assert(gestures[i + 1] == gesture_after(gestures[i], event));
    if first < i {
        lemma_within_gesture(min_fingers, states, touches, events, first, i);
        layout_moves_by_the_reported_deltas(
            min_fingers,
            states,
            touches,
            events,
            gestures,
            first,
            i,
        );
        assert(touches[i] !is Reset);
    } else {
        assert(reported_total(events, axis_of(direction), first, first) == 0);
        assert forall|any: SwipeDirection| #[trigger]
            layout_total(gestures, events, any, first, first) == 0 by {}
    }
    lemma_event_moves_layout(gestures[i], event, direction);
    match event {
        Some(GestureEvent::Begin { delta_x, delta_y, timestamp, .. }) => {
            begin_event_begins_and_moves_the_layout(
                gestures[i],
                direction,
                delta_x,
                delta_y,
                timestamp,
            );
        },
        Some(GestureEvent::Update { delta_x, delta_y, timestamp }) => {
            update_event_moves_the_layout(gestures[i], delta_x, delta_y, timestamp);
        },
        _ => {
            no_event_leaves_the_layout_alone(gestures[i]);
        },
    }
    assert(drives(gestures[last], direction));
    let axis: Axis = axis_of(direction);
    let reported: int = match reported_delta(event, axis) {
        Some(delta) => delta.value(),
        None => 0,
    };
    assert(layout_movement(calls_for(gestures[i], event), direction) == -reported);
    assert(layout_total(gestures, events, direction, first, i) == -reported_total(
        events,
        axis,
        first,
        i,
    ));
    assert(reported_total(events, axis, first, last) == reported_total(events, axis, first, i)
        + reported);
    assert forall|other: SwipeDirection| other != direction implies #[trigger] layout_total(
        gestures,
        events,
        other,
        first,
        last,
    ) == 0 by {
        assert(layout_movement(calls_for(gestures[i], event), other) == 0);
        assert(layout_total(gestures, events, other, first, i) == 0);
    }
}

/// Over one gesture the layout moves against the whole movement of the centroid along the axis of
/// the gesture, up to half a unit in the last place of each delta.
pub proof fn layout_moves_against_the_centroid(
    min_fingers: usize,
    states: Seq<TrackerState>,
    touches: Seq<Touch>,
    events: Seq<Option<GestureEvent>>,
    gestures: Seq<GestureState>,
    first: int,
    last: int,
)
    requires
        is_run(min_fingers, states, touches, events),
        is_one_gesture(touches, events, first, last),
        handles(gestures, events, first, last),
        ({
            let axis: Axis = axis_of(events[first]->0->Begin_direction);
            &&& states[last].start_centroid().along(axis).finite()
            &&& forall|i: int|
                first < i <= last ==> (#[trigger] states[i]).centroid().along(axis).finite()
            &&& forall|i: int|
                first <= i < last ==> (reported_delta(#[trigger] events[i], axis) matches Some(
                    delta,
                ) ==> delta.finite())
        }),
    ensures
        ({
            let direction: SwipeDirection = events[first]->0->Begin_direction;
            let axis: Axis = axis_of(direction);
            let movement: int = states[last].centroid().along(axis).value()
                - states[last].start_centroid().along(axis).value();
            2 * vstd::math::abs(
                layout_total(gestures, events, direction, first, last) + movement,
            ) <= last_places(events, axis, first, last)
        }),
{
    let axis: Axis = axis_of(events[first]->0->Begin_direction);
    layout_moves_by_the_reported_deltas(
        min_fingers,
        states,
        touches,
        events,
        gestures,
        first,
        last,
    );
    deltas_add_up_to_the_movement(min_fingers, states, touches, events, first, last, axis);
}

/// Where no delta of the gesture is rounded, and neither is the distance of the centroid from where
/// recognition began, the layout moves by exactly that distance, the other way.
pub proof fn layout_moves_exactly_against_the_centroid(
    min_fingers: usize,
    states: Seq<TrackerState>,
    touches: Seq<Touch>,
    events: Seq<Option<GestureEvent>>,
    gestures: Seq<GestureState>,
    first: int,
    last: int,
)
    requires
        is_run(min_fingers, states, touches, events),
        is_one_gesture(touches, events, first, last),
        handles(gestures, events, first, last),
        ({
            let axis: Axis = axis_of(events[first]->0->Begin_direction);
            &&& difference_is_exact(
                states[first + 1].start_centroid(),
                states[first + 1].centroid(),
                axis,
            )
            &&& difference_is_exact(states[last].start_centroid(), states[last].centroid(), axis)
            &&& forall|i: int|
                first < i < last && reported_delta(events[i], axis) is Some ==> difference_is_exact(
                    (#[trigger] states[i]).centroid(),
                    states[i + 1].centroid(),
                    axis,
                )
        }),
    ensures
        ({
            let direction: SwipeDirection = events[first]->0->Begin_direction;
            let axis: Axis = axis_of(direction);
            layout_total(gestures, events, direction, first, last)
                == states[last].start_centroid().along(axis).value()
                - states[last].centroid().along(axis).value()
        }),
{
    let axis: Axis = axis_of(events[first]->0->Begin_direction);
    layout_moves_by_the_reported_deltas(
        min_fingers,
        states,
        touches,
        events,
        gestures,
        first,
        last,
    );
    exact_deltas_add_up_exactly(min_fingers, states, touches, events, first, last, axis);
}

} // verus!
