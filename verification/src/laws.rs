//! What holds of the tracker and of the grab over any course of touches.

use std::time::Duration;

use vstd::prelude::*;

use crate::binary64::Binary64;
use crate::geometry::{Point, TouchSlot};
use crate::touch_swipe_grab::{
    begin_call, calls_for, end_calls, gesture_after, gesture_for, outcome_for, update_calls,
    GestureState, GrabState, LayoutCall, Outcome,
};
use crate::touch_swipe_tracker::{
    down_keeps_valid, idle_is_valid, motion_keeps_valid, up_keeps_valid, GestureEvent,
    Phase, TrackerState, MAX_SLOTS,
};

verus! {

/// One thing that can happen to a tracker.
pub ghost enum Touch {
    Down { slot: TouchSlot, pos: Point },
    Motion { slot: TouchSlot, pos: Point, timestamp: Duration },
    Up { slot: TouchSlot, timestamp: Duration },
    Reset,
}

/// A touch takes a tracker from one state to another and causes an event.
pub open spec fn step(
    pre: TrackerState,
    touch: Touch,
    event: Option<GestureEvent>,
    post: TrackerState,
) -> bool {
    match touch {
        Touch::Down { slot, pos } => pre.down_leads_to(slot, pos, post) && event is None,
        Touch::Motion { slot, pos, timestamp } => {
            &&& post == pre.after_motion(slot, pos)
            &&& event == pre.motion_event(slot, pos, timestamp)
        },
        Touch::Up { slot, timestamp } => {
            &&& post == pre.after_up(slot)
            &&& event == pre.up_event(slot, timestamp)
        },
        Touch::Reset => post == TrackerState::idle(pre.min_fingers) && event is None,
    }
}

/// A course of touches on a new tracker, with the state before each and the event of each.
pub open spec fn is_run(
    min_fingers: usize,
    states: Seq<TrackerState>,
    touches: Seq<Touch>,
    events: Seq<Option<GestureEvent>>,
) -> bool {
    &&& states.len() == touches.len() + 1
    &&& events.len() == touches.len()
    &&& states[0] == TrackerState::idle(min_fingers)
    &&& forall|i: int|
        0 <= i < touches.len() ==> #[trigger] step(states[i], touches[i], events[i], states[i + 1])
}

/// After the first `n` touches, a gesture has begun that has neither ended nor been reset.
pub open spec fn gesture_open(
    touches: Seq<Touch>,
    events: Seq<Option<GestureEvent>>,
    n: nat,
) -> bool
    decreases n,
{
    if n == 0 {
        false
    } else {
        match events[n - 1] {
            Some(GestureEvent::Begin { .. }) => true,
            Some(GestureEvent::End { .. }) => false,
            _ => touches[n - 1] !is Reset && gesture_open(touches, events, (n - 1) as nat),
        }
    }
}

/// Every touch keeps a tracker valid, and its minimum number of fingers.
pub proof fn step_keeps_valid(
    pre: TrackerState,
    touch: Touch,
    event: Option<GestureEvent>,
    post: TrackerState,
)
    requires
        pre.valid(),
        step(pre, touch, event, post),
    ensures
        post.valid(),
        post.min_fingers == pre.min_fingers,
{
    match touch {
        Touch::Down { slot, pos } => down_keeps_valid(pre, slot, pos, post),
        Touch::Motion { slot, pos, timestamp } => motion_keeps_valid(pre, slot, pos),
        Touch::Up { slot, timestamp } => up_keeps_valid(pre, slot),
        Touch::Reset => idle_is_valid(pre.min_fingers),
    }
}

/// Whatever touches a tracker sees, it stays valid: at most [`MAX_SLOTS`] slots are known, the
/// tracked ones are among them, and the minimum number of fingers never changes.
pub proof fn every_reached_state_is_valid(
    min_fingers: usize,
    states: Seq<TrackerState>,
    touches: Seq<Touch>,
    events: Seq<Option<GestureEvent>>,
    n: nat,
)
    requires
        is_run(min_fingers, states, touches, events),
        n <= touches.len(),
    ensures
        states[n as int].valid(),
        states[n as int].slots.len() <= MAX_SLOTS,
        states[n as int].tracked_slots.to_set().subset_of(states[n as int].slots.dom()),
        states[n as int].min_fingers == min_fingers,
    decreases n,
{
    if n == 0 {
        idle_is_valid(min_fingers);
    } else {
        let i: int = n - 1;
        every_reached_state_is_valid(min_fingers, states, touches, events, (n - 1) as nat);
        assert(step(states[i], touches[i], events[i], states[i + 1]));
        step_keeps_valid(states[i], touches[i], events[i], states[i + 1]);
    }
}

/// How one touch changes whether a gesture is active: it becomes active exactly with a begin
/// event, and stops being active exactly with an end event or a reset. Updates come only while it
/// is active, a cancel only while it is not.
pub proof fn events_follow_the_phase(
    pre: TrackerState,
    touch: Touch,
    event: Option<GestureEvent>,
    post: TrackerState,
)
    requires
        pre.valid(),
        step(pre, touch, event, post),
    ensures
        (event matches Some(e) && e is Begin) <==> pre.phase != Phase::Active && post.phase
            == Phase::Active,
        (event matches Some(e) && e is End) <==> pre.phase == Phase::Active && post.phase
            != Phase::Active && touch !is Reset,
        (event matches Some(e) && e is Update) ==> pre.phase == Phase::Active && post.phase
            == Phase::Active,
        (event matches Some(e) && e is Cancel) ==> pre.phase == Phase::Recognizing && post.phase
            == Phase::Idle,
{
}

/// A gesture is active exactly while one has begun and neither ended nor been reset.
pub proof fn active_means_gesture_open(
    min_fingers: usize,
    states: Seq<TrackerState>,
    touches: Seq<Touch>,
    events: Seq<Option<GestureEvent>>,
    n: nat,
)
    requires
        is_run(min_fingers, states, touches, events),
        n <= touches.len(),
    ensures
        states[n as int].phase == Phase::Active <==> gesture_open(touches, events, n),
    decreases n,
{
    if n > 0 {
        let i: int = n - 1;
        active_means_gesture_open(min_fingers, states, touches, events, (n - 1) as nat);
        every_reached_state_is_valid(min_fingers, states, touches, events, (n - 1) as nat);
        assert(step(states[i], touches[i], events[i], states[i + 1]));
        events_follow_the_phase(states[i], touches[i], events[i], states[i + 1]);
    }
}

/// Over any course of touches the events are properly bracketed: a gesture begins only when none
/// is open, is updated and ended only while it is open, and a cancel comes only when none is open.
pub proof fn events_are_bracketed(
    min_fingers: usize,
    states: Seq<TrackerState>,
    touches: Seq<Touch>,
    events: Seq<Option<GestureEvent>>,
    n: nat,
)
    requires
        is_run(min_fingers, states, touches, events),
        n < touches.len(),
    ensures
        match events[n as int] {
            None => true,
            Some(GestureEvent::Begin { .. }) => !gesture_open(touches, events, n),
            Some(GestureEvent::Update { .. }) => gesture_open(touches, events, n),
            Some(GestureEvent::End { .. }) => gesture_open(touches, events, n),
            Some(GestureEvent::Cancel) => !gesture_open(touches, events, n),
        },
{
    active_means_gesture_open(min_fingers, states, touches, events, n);
    every_reached_state_is_valid(min_fingers, states, touches, events, n);
    let i: int = n as int;
    assert(step(states[i], touches[i], events[i], states[i + 1]));
    events_follow_the_phase(states[i], touches[i], events[i], states[i + 1]);
}

/// The direction is locked, and the tracked slots are fixed, for as long as a gesture is active.
pub proof fn active_gesture_is_locked(
    pre: TrackerState,
    touch: Touch,
    event: Option<GestureEvent>,
    post: TrackerState,
)
    requires
        pre.valid(),
        step(pre, touch, event, post),
        pre.phase == Phase::Active,
        post.phase == Phase::Active,
    ensures
        post.direction == pre.direction,
        post.tracked_slots == pre.tracked_slots,
        post.start == pre.start,
{
}

/// Once recognition has begun no slot joins the tracked ones, and none is measured from another
/// start.
pub proof fn no_slot_joins_recognition(
    pre: TrackerState,
    touch: Touch,
    event: Option<GestureEvent>,
    post: TrackerState,
    key: u64,
)
    requires
        pre.valid(),
        step(pre, touch, event, post),
        pre.phase == Phase::Recognizing,
        post.tracked_slots.contains(key),
    ensures
        pre.tracked_slots.contains(key),
        post.start.contains_key(key) && post.start[key] == pre.start[key],
{
    step_keeps_valid(pre, touch, event, post);
    assert(post.tracked_slots.to_set().contains(key));
    assert(post.start.dom().contains(key));
    assert(pre.tracked_slots.to_set() == pre.start.dom());
    assert(pre.start.dom().contains(key));
}

/// Fewer fingers than the minimum cause no event, however they move.
pub proof fn too_few_fingers_cause_nothing(
    pre: TrackerState,
    touch: Touch,
    event: Option<GestureEvent>,
    post: TrackerState,
)
    requires
        pre.valid(),
        step(pre, touch, event, post),
        pre.phase != Phase::Active,
        pre.slots.len() < pre.min_fingers,
    ensures
        event is None,
        post.phase != Phase::Active,
{
}

/// A gesture begins only out of recognition with at least the minimum number of fingers down, and
/// reports how far the centroid has come since recognition began.
pub proof fn gesture_begins_with_enough_fingers(
    pre: TrackerState,
    touch: Touch,
    event: Option<GestureEvent>,
    post: TrackerState,
)
    requires
        pre.valid(),
        step(pre, touch, event, post),
        event matches Some(e) && e is Begin,
    ensures
        pre.phase == Phase::Recognizing,
        post.slots.len() >= post.min_fingers,
        ({
            let begin: GestureEvent = event->0;
            &&& begin->Begin_direction == post.direction
            &&& begin->Begin_delta_x == post.travelled().x
            &&& begin->Begin_delta_y == post.travelled().y
        }),
{
    assert(post.slots.dom() =~= pre.slots.dom());
}

/// While a gesture is active, an extra finger goes unnoticed: putting it down changes nothing, and
/// lifting it neither causes an event nor disturbs the gesture.
pub proof fn extra_finger_goes_unnoticed(
    pre: TrackerState,
    slot: TouchSlot,
    pos: Point,
    down: TrackerState,
    timestamp: Duration,
)
    requires
        pre.valid(),
        pre.phase == Phase::Active,
        !pre.tracked_slots.contains(slot.key()),
        pre.down_leads_to(slot, pos, down),
    ensures
        down == pre,
        down.up_event(slot, timestamp) is None,
        down.after_up(slot) == (TrackerState { slots: pre.slots.remove(slot.key()), ..pre }),
{
}

/// Lifting any tracked finger ends an active gesture and leaves the tracker as if it were new.
pub proof fn tracked_lift_ends_gesture(pre: TrackerState, slot: TouchSlot, timestamp: Duration)
    requires
        pre.valid(),
        pre.phase == Phase::Active,
        pre.tracked_slots.contains(slot.key()),
    ensures
        pre.up_event(slot, timestamp) == Some(GestureEvent::End { timestamp }),
        pre.after_up(slot) == TrackerState::idle(pre.min_fingers),
{
}

/// Every update reports the centroid of the tracked positions after the movement less that before
/// it.
pub proof fn update_reports_centroid_movement(
    pre: TrackerState,
    slot: TouchSlot,
    pos: Point,
    timestamp: Duration,
)
    requires
        pre.valid(),
        pre.phase == Phase::Active,
        pre.tracked_slots.contains(slot.key()),
    ensures
        ({
            let post: TrackerState = pre.after_motion(slot, pos);
            let delta: Point = post.centroid().spec_minus(pre.centroid());
            pre.motion_event(slot, pos, timestamp) == Some(
                GestureEvent::Update { delta_x: delta.x, delta_y: delta.y, timestamp },
            )
        }),
{
    assert(pre.tracked_slots.to_set().contains(slot.key()));
}

/// An active grab moves the layout gesture that its direction began, against the fingers, and the
/// answer decides whether it goes on; lifting a tracked finger ends that same gesture and the grab.
pub proof fn grab_drives_one_gesture<S, O>(
    pre: GrabState<S, O>,
    slot: TouchSlot,
    pos: Point,
    timestamp: Duration,
)
    requires
        pre.valid(),
        pre.tracker.phase == Phase::Active,
        pre.tracker.tracked_slots.contains(slot.key()),
    ensures
        ({
            let gesture: GestureState = gesture_for(pre.tracker.direction);
            let moved: Option<GestureEvent> = pre.tracker.motion_event(slot, pos, timestamp);
            let lifted: Option<GestureEvent> = pre.tracker.up_event(slot, timestamp);
            let delta: Point = pre.tracker.after_motion(slot, pos).centroid().spec_minus(
                pre.tracker.centroid(),
            );
            &&& calls_for(pre.gesture, moved) == update_calls(gesture, delta.x, delta.y, timestamp)
            &&& calls_for(pre.gesture, moved).len() == 1
            &&& outcome_for(pre.gesture, moved) == Outcome::AwaitAnswer
            &&& gesture_after(pre.gesture, moved) == gesture
            &&& calls_for(pre.gesture, lifted) == end_calls(gesture, Some(false))
            &&& outcome_for(pre.gesture, lifted) == Outcome::Ungrab
        }),
{
    update_reports_centroid_movement(pre.tracker, slot, pos, timestamp);
}

/// When a gesture begins, the grab begins the layout gesture of its direction, moves it by the
/// whole distance so far and goes on, ready to drive that gesture.
pub proof fn grab_begins_the_gesture_of_its_direction<S, O>(
    pre: GrabState<S, O>,
    slot: TouchSlot,
    pos: Point,
    timestamp: Duration,
)
    requires
        pre.valid(),
        pre.tracker.phase == Phase::Recognizing,
        pre.tracker.slots.contains_key(slot.key()),
        pre.tracker.moved(slot, pos).recognizes(),
    ensures
        ({
            let post: TrackerState = pre.tracker.after_motion(slot, pos);
            let event: Option<GestureEvent> = pre.tracker.motion_event(slot, pos, timestamp);
            let gesture: GestureState = gesture_for(post.direction);
            let way: Point = post.travelled();
            &&& calls_for(pre.gesture, event) == seq![begin_call(post.direction)] + update_calls(
                gesture,
                way.x,
                way.y,
                timestamp,
            ) + seq![LayoutCall::QueueRedrawAll]
            &&& outcome_for(pre.gesture, event) == Outcome::Stay
            &&& gesture_after(pre.gesture, event) == gesture
        }),
{
}

/// A finite number less itself is zero.
proof fn lemma_minus_itself(number: Binary64)
    requires
        number.finite(),
    ensures
        number.spec_minus(number) == (Binary64 { bits: 0 }),
{
}

/// A tracked finger that reports the position it already has changes nothing and gives an update
/// of zero.
pub proof fn finger_that_stays_gives_a_zero_update(
    pre: TrackerState,
    slot: TouchSlot,
    timestamp: Duration,
)
    requires
        pre.valid(),
        pre.phase == Phase::Active,
        pre.tracked_slots.contains(slot.key()),
        pre.centroid().x.finite(),
        pre.centroid().y.finite(),
    ensures
        ({
            let pos: Point = pre.slots[slot.key()];
            let zero: Binary64 = Binary64 { bits: 0 };
            &&& pre.after_motion(slot, pos) == pre
            &&& pre.motion_event(slot, pos, timestamp) == Some(
                GestureEvent::Update { delta_x: zero, delta_y: zero, timestamp },
            )
        }),
{
    let pos: Point = pre.slots[slot.key()];
    assert(pre.tracked_slots.to_set().contains(slot.key()));
    assert(pre.slots.insert(slot.key(), pos) =~= pre.slots);
    assert(pre.after_motion(slot, pos) =~= pre);
    lemma_minus_itself(pre.centroid().x);
    lemma_minus_itself(pre.centroid().y);
}

/// A touch takes a grab from one state to another, with an event of its tracker.
pub open spec fn grab_step<S, O>(
    pre: GrabState<S, O>,
    touch: Touch,
    event: Option<GestureEvent>,
    post: GrabState<S, O>,
) -> bool {
    &&& touch !is Reset
    &&& step(pre.tracker, touch, event, post.tracker)
    &&& post.gesture == gesture_after(pre.gesture, event)
    &&& post.start_data == pre.start_data
    &&& post.output == pre.output
}

/// From the first touch until it is unset, a grab runs a layout gesture exactly while its tracker
/// is in a gesture.
pub proof fn grab_stays_in_step<S, O>(
    pre: GrabState<S, O>,
    touch: Touch,
    event: Option<GestureEvent>,
    post: GrabState<S, O>,
)
    requires
        pre.in_step(),
        grab_step(pre, touch, event, post),
        outcome_for(pre.gesture, event) != Outcome::Ungrab,
    ensures
        post.in_step(),
{
    step_keeps_valid(pre.tracker, touch, event, post.tracker);
    events_follow_the_phase(pre.tracker, touch, event, post.tracker);
    if pre.tracker.phase == Phase::Active {
        active_gesture_is_locked(pre.tracker, touch, event, post.tracker);
    }
}

/// A grab begins a layout gesture only while none is running, moves and ends only the one that is
/// running, and has none to cancel when recognition fails.
pub proof fn grab_calls_are_bracketed<S, O>(
    pre: GrabState<S, O>,
    touch: Touch,
    event: Option<GestureEvent>,
    post: GrabState<S, O>,
)
    requires
        pre.in_step(),
        grab_step(pre, touch, event, post),
    ensures
        match event {
            None => calls_for(pre.gesture, event).len() == 0,
            Some(GestureEvent::Begin { direction, .. }) => {
                &&& pre.gesture == GestureState::Recognizing
                &&& calls_for(pre.gesture, event)[0] == begin_call(direction)
                &&& post.gesture == gesture_for(direction)
            },
            Some(GestureEvent::Update { delta_x, delta_y, timestamp }) => {
                &&& pre.gesture == gesture_for(pre.tracker.direction)
                &&& calls_for(pre.gesture, event) == update_calls(
                    pre.gesture,
                    delta_x,
                    delta_y,
                    timestamp,
                )
                &&& post.gesture == pre.gesture
            },
            Some(GestureEvent::End { .. }) => {
                &&& pre.gesture == gesture_for(pre.tracker.direction)
                &&& calls_for(pre.gesture, event) == end_calls(pre.gesture, Some(false))
            },
            Some(GestureEvent::Cancel) => {
                &&& pre.gesture == GestureState::Recognizing
                &&& calls_for(pre.gesture, event) == seq![LayoutCall::QueueRedrawAll]
            },
        },
{
    events_follow_the_phase(pre.tracker, touch, event, post.tracker);
}

} // verus!
