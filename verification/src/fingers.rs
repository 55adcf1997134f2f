//! Which fingers a tracker knows, where it takes them to be, and what each touch does to that.
//!
//! The tracker follows every finger in every phase. It counts the fingers that are down at the same
//! time, measures from where they were when there were enough of them, and forgets all of them when
//! a gesture ends or fails.

use std::time::Duration;

use vstd::prelude::*;

use crate::geometry::{keys_tell_slots_apart, Point, TouchSlot};
use crate::laws::{
    every_reached_state_is_valid, gesture_begins_with_enough_fingers, is_run, step,
    step_keeps_valid, Touch,
};
use crate::touch_swipe_tracker::{
    idle_is_valid, lemma_without, GestureEvent, Phase, SwipeDirection, TrackerState,
};

verus! {

/// A tracker has just been made or reset: it knows no finger and is in no gesture.
pub open spec fn knows_nothing(state: TrackerState) -> bool {
    &&& state.slots.dom() =~= Set::empty()
    &&& state.tracked_slots.len() == 0
    &&& state.start.dom() =~= Set::empty()
    &&& state.phase == Phase::Idle
    &&& state.direction == SwipeDirection::Horizontal
}

/// A new tracker, and one that is reset, knows nothing but how many fingers it takes.
pub proof fn new_tracker_knows_nothing(min_fingers: usize)
    ensures
        knows_nothing(TrackerState::idle(min_fingers)),
        TrackerState::idle(min_fingers).min_fingers == min_fingers,
{
}

/// A reset makes the tracker forget everything, in every phase, without an event.
pub proof fn reset_forgets_everything(
    pre: TrackerState,
    event: Option<GestureEvent>,
    post: TrackerState,
)
    requires
        pre.valid(),
        step(pre, Touch::Reset, event, post),
    ensures
        knows_nothing(post),
        post.min_fingers == pre.min_fingers,
        event is None,
{
}

/// Putting a finger down causes no event. The tracker knows it from then on, where it was put down,
/// and the others as before; unless a gesture is active or ten fingers are down already, and then
/// nothing changes.
pub proof fn finger_put_down_is_known(
    pre: TrackerState,
    slot: TouchSlot,
    pos: Point,
    event: Option<GestureEvent>,
    post: TrackerState,
)
    requires
        pre.valid(),
        step(pre, Touch::Down { slot, pos }, event, post),
    ensures
        event is None,
        pre.phase == Phase::Active || pre.slots.len() >= 10 ==> post == pre,
        pre.phase != Phase::Active && pre.slots.len() < 10 ==> {
            &&& post.slots.contains_key(slot.key())
            &&& post.slots[slot.key()] == pos
            &&& forall|key: u64|
                key != slot.key() ==> {
                    &&& #[trigger] post.slots.contains_key(key) == pre.slots.contains_key(key)
                    &&& pre.slots.contains_key(key) ==> post.slots[key] == pre.slots[key]
                }
        },
        post.min_fingers == pre.min_fingers,
        post.direction == pre.direction,
{
}

/// Recognition begins exactly when a finger put down on an idle tracker makes enough of them. It
/// tracks every finger that is down, each once, and measures each from where it is at that moment.
pub proof fn recognition_begins_with_enough_fingers(
    pre: TrackerState,
    slot: TouchSlot,
    pos: Point,
    event: Option<GestureEvent>,
    post: TrackerState,
)
    requires
        pre.valid(),
        step(pre, Touch::Down { slot, pos }, event, post),
    ensures
        pre.phase == Phase::Idle ==> {
            let fingers: Set<u64> = pre.slots.dom().insert(slot.key());
            let enough: bool = pre.slots.len() < 10 && fingers.len() >= pre.min_fingers;
            &&& post.phase == (if enough {
                Phase::Recognizing
            } else {
                Phase::Idle
            })
            &&& enough ==> {
                &&& post.tracked_slots.no_duplicates()
                &&& post.tracked_slots.len() == fingers.len()
                &&& forall|key: u64| #[trigger]
                    post.tracked_slots.contains(key) <==> fingers.contains(key)
                &&& forall|key: u64| #[trigger]
                    post.start.contains_key(key) <==> fingers.contains(key)
                &&& post.start[slot.key()] == pos
                &&& forall|key: u64|
                    key != slot.key() && pre.slots.contains_key(key) ==> #[trigger] post.start[key]
                        == pre.slots[key]
            }
        },
        pre.phase != Phase::Idle ==> {
            &&& post.phase == pre.phase
            &&& post.tracked_slots == pre.tracked_slots
            &&& post.start == pre.start
        },
{
    let fingers: Set<u64> = pre.slots.dom().insert(slot.key());
    assert(pre.slots.insert(slot.key(), pos).dom() =~= fingers);
    if pre.phase == Phase::Idle && post.phase == Phase::Recognizing {
        post.tracked_slots.unique_seq_to_set();
        assert forall|key: u64| #[trigger]
            post.tracked_slots.contains(key) <==> fingers.contains(key) by {
            assert(post.tracked_slots.to_set().contains(key) == post.tracked_slots.contains(key));
        }
    }
}

/// The tracker follows a finger in every phase: after a motion of a finger that it knows, it takes
/// that finger to be where it moved, every other one to be where it was, and measures from the same
/// start as before.
pub proof fn finger_that_moves_is_followed(
    pre: TrackerState,
    slot: TouchSlot,
    pos: Point,
    timestamp: Duration,
    event: Option<GestureEvent>,
    post: TrackerState,
)
    requires
        pre.valid(),
        step(pre, Touch::Motion { slot, pos, timestamp }, event, post),
        pre.slots.contains_key(slot.key()),
    ensures
        post.slots == pre.slots.insert(slot.key(), pos),
        post.slots[slot.key()] == pos,
        forall|key: u64|
            key != slot.key() ==> {
                &&& #[trigger] post.slots.contains_key(key) == pre.slots.contains_key(key)
                &&& pre.slots.contains_key(key) ==> post.slots[key] == pre.slots[key]
            },
        post.tracked_slots == pre.tracked_slots,
        post.start == pre.start,
        post.min_fingers == pre.min_fingers,
{
}

/// A motion of a finger that the tracker does not know changes nothing and causes nothing.
pub proof fn unknown_finger_is_ignored(
    pre: TrackerState,
    slot: TouchSlot,
    pos: Point,
    timestamp: Duration,
    event: Option<GestureEvent>,
    post: TrackerState,
)
    requires
        pre.valid(),
        step(pre, Touch::Motion { slot, pos, timestamp }, event, post),
        !pre.slots.contains_key(slot.key()),
    ensures
        post == pre,
        event is None,
{
}

/// What a motion can cause in each phase. On an idle tracker it causes nothing. During recognition
/// it begins a gesture or causes nothing. During a gesture, a tracked finger causes an update and
/// any other finger nothing, and neither ends the gesture nor turns it.
pub proof fn motion_causes_what_the_phase_allows(
    pre: TrackerState,
    slot: TouchSlot,
    pos: Point,
    timestamp: Duration,
    event: Option<GestureEvent>,
    post: TrackerState,
)
    requires
        pre.valid(),
        step(pre, Touch::Motion { slot, pos, timestamp }, event, post),
    ensures
        pre.phase == Phase::Idle ==> event is None && post.phase == Phase::Idle,
        pre.phase == Phase::Recognizing ==> match event {
            None => post.phase == Phase::Recognizing,
            Some(GestureEvent::Begin { direction, delta_x, delta_y, timestamp: time }) => {
                post.phase == Phase::Active && post.direction == direction && time == timestamp
            },
            _ => false,
        },
        pre.phase == Phase::Active ==> {
            &&& post.phase == Phase::Active
            &&& post.direction == pre.direction
            &&& match event {
                None => !pre.tracked_slots.contains(slot.key()),
                Some(GestureEvent::Update { delta_x, delta_y, timestamp: time }) => {
                    pre.tracked_slots.contains(slot.key()) && time == timestamp
                },
                _ => false,
            }
        },
        event is None ==> post.direction == pre.direction,
{
    if pre.tracked_slots.contains(slot.key()) {
        assert(pre.tracked_slots.to_set().contains(slot.key()));
        assert(pre.slots.dom().contains(slot.key()));
    }
}

/// A lifted finger is no longer known, whatever the phase.
pub proof fn lifted_finger_is_forgotten(
    pre: TrackerState,
    slot: TouchSlot,
    timestamp: Duration,
    event: Option<GestureEvent>,
    post: TrackerState,
)
    requires
        pre.valid(),
        step(pre, Touch::Up { slot, timestamp }, event, post),
    ensures
        !post.slots.contains_key(slot.key()),
        !post.tracked_slots.contains(slot.key()),
        !post.start.contains_key(slot.key()),
        post.min_fingers == pre.min_fingers,
{
    step_keeps_valid(pre, Touch::Up { slot, timestamp }, event, post);
    if post.tracked_slots.contains(slot.key()) {
        assert(post.tracked_slots.to_set().contains(slot.key()));
        assert(post.slots.dom().contains(slot.key()));
    }
    if post.start.contains_key(slot.key()) {
        assert(post.start.dom().contains(slot.key()));
        assert(post.tracked_slots.to_set().contains(slot.key()));
    }
}

/// What lifting a finger causes, and what becomes of the others.
///
/// An idle tracker only forgets the finger. Recognition fails exactly when too few fingers are left,
/// and goes on without the finger otherwise. A gesture ends exactly when the finger is a tracked
/// one. A tracker whose recognition failed or whose gesture ended knows nothing; any other still
/// knows the other fingers, where they were.
pub proof fn lifting_a_finger_ends_what_needs_it(
    pre: TrackerState,
    slot: TouchSlot,
    timestamp: Duration,
    event: Option<GestureEvent>,
    post: TrackerState,
)
    requires
        pre.valid(),
        step(pre, Touch::Up { slot, timestamp }, event, post),
    ensures
        ({
            let left: Set<u64> = pre.slots.dom().remove(slot.key());
            let over: bool = match pre.phase {
                Phase::Idle => false,
                Phase::Recognizing => left.len() < pre.min_fingers,
                Phase::Active => pre.tracked_slots.contains(slot.key()),
            };
            &&& event == (if !over {
                None
            } else if pre.phase == Phase::Active {
                Some(GestureEvent::End { timestamp })
            } else {
                Some(GestureEvent::Cancel)
            })
            &&& over ==> knows_nothing(post)
            &&& !over ==> {
                &&& post.phase == pre.phase
                &&& post.direction == pre.direction
                &&& forall|key: u64| #[trigger]
                    post.slots.contains_key(key) <==> left.contains(key)
                &&& forall|key: u64|
                    left.contains(key) ==> #[trigger] post.slots[key] == pre.slots[key]
                &&& post.tracked_slots.no_duplicates()
                &&& forall|key: u64| #[trigger]
                    post.tracked_slots.contains(key) <==> pre.tracked_slots.contains(key) && key
                        != slot.key()
                &&& forall|key: u64| #[trigger]
                    post.start.contains_key(key) <==> pre.start.contains_key(key) && key
                        != slot.key()
                &&& forall|key: u64|
                    post.start.contains_key(key) ==> #[trigger] post.start[key] == pre.start[key]
            }
        }),
{
    let left: Set<u64> = pre.slots.dom().remove(slot.key());
    let key: u64 = slot.key();
    assert(pre.slots.remove(key).dom() =~= left);
    lemma_without(pre.tracked_slots, key);
    let kept: Seq<u64> = pre.tracked_slots.filter(|k: u64| k != key);
    assert forall|other: u64| #[trigger]
        kept.contains(other) <==> pre.tracked_slots.contains(other) && other != key by {
        assert(kept.to_set().contains(other) == kept.contains(other));
        assert(pre.tracked_slots.to_set().contains(other) == pre.tracked_slots.contains(other));
    }
    if pre.phase == Phase::Recognizing && left.len() >= pre.min_fingers {
        assert(post.tracked_slots == pre.tracked_slots.filter(|k: u64| k != slot.key()));
        assert(post.tracked_slots == kept);
    }
    if pre.phase == Phase::Idle {
        assert(pre.tracked_slots.len() == 0);
        assert(pre.start.dom() =~= Set::empty());
    }
    if pre.phase == Phase::Active && !pre.tracked_slots.contains(key) {
        assert(pre.tracked_slots.to_set().contains(key) == pre.tracked_slots.contains(key));
        assert(!pre.start.dom().contains(key));
    }
}

/// Where every finger is that the tracker can know of after the first `n` touches, read off the
/// touches and their events: put down while no gesture was active and fewer than ten were known,
/// at the place that a touch last reported, and neither lifted since nor let go with the end of a
/// gesture, a failed recognition or a reset.
pub open spec fn fingers_down(
    touches: Seq<Touch>,
    events: Seq<Option<GestureEvent>>,
    active: spec_fn(int) -> bool,
    n: nat,
) -> Map<u64, Point>
    decreases n,
{
    if n == 0 {
        Map::empty()
    } else {
        let before: Map<u64, Point> = fingers_down(touches, events, active, (n - 1) as nat);
        match touches[n - 1] {
            Touch::Reset => Map::empty(),
            Touch::Down { slot, pos } => if active(n - 1) || before.len() >= 10 {
                before
            } else {
                before.insert(slot.key(), pos)
            },
            Touch::Motion { slot, pos, .. } => if before.contains_key(slot.key()) {
                before.insert(slot.key(), pos)
            } else {
                before
            },
            Touch::Up { slot, .. } => if events[n - 1] is Some {
                Map::empty()
            } else {
                before.remove(slot.key())
            },
        }
    }
}

/// Over any course of touches, the fingers that a tracker knows are the fingers that are down, each
/// where it was last reported to be.
pub proof fn known_fingers_are_down(
    min_fingers: usize,
    states: Seq<TrackerState>,
    touches: Seq<Touch>,
    events: Seq<Option<GestureEvent>>,
    n: nat,
)
    requires
        is_run(min_fingers, states, touches, events),
        n <= touches.len(),
    ensures
        states[n as int].slots == fingers_down(
            touches,
            events,
            |i: int| states[i].phase == Phase::Active,
            n,
        ),
    decreases n,
{
    let active = |i: int| states[i].phase == Phase::Active;
    let known: Map<u64, Point> = states[n as int].slots;
    let down: Map<u64, Point> = fingers_down(touches, events, active, n);
    if n == 0 {
        assert(known =~= down);
    } else {
        let i: int = n - 1;
        let pre: TrackerState = states[i];
        let event: Option<GestureEvent> = events[i];
        let post: TrackerState = states[i + 1];
        known_fingers_are_down(min_fingers, states, touches, events, i as nat);
        every_reached_state_is_valid(min_fingers, states, touches, events, i as nat);
        assert(step(pre, touches[i], event, post));
        match touches[i] {
            Touch::Reset => {
                reset_forgets_everything(pre, event, post);
            },
            Touch::Down { slot, pos } => {
                finger_put_down_is_known(pre, slot, pos, event, post);
            },
            Touch::Motion { slot, pos, timestamp } => {
                if pre.slots.contains_key(slot.key()) {
                    finger_that_moves_is_followed(pre, slot, pos, timestamp, event, post);
                }
            },
            Touch::Up { slot, timestamp } => {
                lifting_a_finger_ends_what_needs_it(pre, slot, timestamp, event, post);
            },
        }
        assert(known =~= down);
    }
}

/// A slot has been put down and not lifted since, by the touches alone.
pub open spec fn is_down(touches: Seq<Touch>, n: nat, slot: TouchSlot) -> bool
    decreases n,
{
    if n == 0 {
        false
    } else {
        match touches[n - 1] {
            Touch::Down { slot: other, .. } if other == slot => true,
            Touch::Up { slot: other, .. } if other == slot => false,
            _ => is_down(touches, (n - 1) as nat, slot),
        }
    }
}

/// Every finger that a tracker knows was put down and has not been lifted since.
pub proof fn only_fingers_that_are_down_are_known(
    min_fingers: usize,
    states: Seq<TrackerState>,
    touches: Seq<Touch>,
    events: Seq<Option<GestureEvent>>,
    n: nat,
    slot: TouchSlot,
)
    requires
        is_run(min_fingers, states, touches, events),
        n <= touches.len(),
        states[n as int].slots.contains_key(slot.key()),
    ensures
        is_down(touches, n, slot),
    decreases n,
{
    if n > 0 {
        let i: int = n - 1;
        let pre: TrackerState = states[i];
        let event: Option<GestureEvent> = events[i];
        let post: TrackerState = states[i + 1];
        every_reached_state_is_valid(min_fingers, states, touches, events, i as nat);
        assert(step(pre, touches[i], event, post));
        let known_before: bool = match touches[i] {
            Touch::Reset => {
                reset_forgets_everything(pre, event, post);
                assert(!post.slots.dom().contains(slot.key()));
                true
            },
            Touch::Down { slot: other, pos } => {
                keys_tell_slots_apart(slot, other);
                finger_put_down_is_known(pre, other, pos, event, post);
                slot != other
            },
            Touch::Motion { slot: other, pos, timestamp } => {
                if pre.slots.contains_key(other.key()) {
                    finger_that_moves_is_followed(pre, other, pos, timestamp, event, post);
                }
                true
            },
            Touch::Up { slot: other, timestamp } => {
                lifted_finger_is_forgotten(pre, other, timestamp, event, post);
                lifting_a_finger_ends_what_needs_it(pre, other, timestamp, event, post);
                true
            },
        };
        if known_before {
            assert(pre.slots.contains_key(slot.key()));
            only_fingers_that_are_down_are_known(
                min_fingers,
                states,
                touches,
                events,
                i as nat,
                slot,
            );
        }
    }
}

/// A gesture begins only while at least the minimum number of fingers are down at the same time:
/// there are that many slots that were put down and not lifted since.
pub proof fn gesture_needs_fingers_that_are_down(
    min_fingers: usize,
    states: Seq<TrackerState>,
    touches: Seq<Touch>,
    events: Seq<Option<GestureEvent>>,
    n: nat,
) -> (fingers: Set<u64>)
    requires
        is_run(min_fingers, states, touches, events),
        n < touches.len(),
        events[n as int] matches Some(event) && event is Begin,
    ensures
        fingers.finite(),
        fingers.len() >= min_fingers,
        forall|slot: TouchSlot| fingers.contains(#[trigger] slot.key()) ==> is_down(
            touches,
            n + 1,
            slot,
        ),
{
    let i: int = n as int;
    every_reached_state_is_valid(min_fingers, states, touches, events, n);
    every_reached_state_is_valid(min_fingers, states, touches, events, n + 1);
    assert(step(states[i], touches[i], events[i], states[i + 1]));
    gesture_begins_with_enough_fingers(states[i], touches[i], events[i], states[i + 1]);
    let fingers: Set<u64> = states[i + 1].slots.dom();
    assert forall|slot: TouchSlot| fingers.contains(#[trigger] slot.key()) implies is_down(
        touches,
        n + 1,
        slot,
    ) by {
        only_fingers_that_are_down_are_known(min_fingers, states, touches, events, n + 1, slot);
    }
    fingers
}

/// When recognition begins, the start of every tracked finger is the position that a touch last
/// reported of it, and every finger that is down is tracked.
pub proof fn recognition_starts_where_the_fingers_are(
    min_fingers: usize,
    states: Seq<TrackerState>,
    touches: Seq<Touch>,
    events: Seq<Option<GestureEvent>>,
    n: nat,
)
    requires
        is_run(min_fingers, states, touches, events),
        n < touches.len(),
        states[n as int].phase == Phase::Idle,
        states[n as int + 1].phase == Phase::Recognizing,
    ensures
        ({
            let down: Map<u64, Point> = fingers_down(
                touches,
                events,
                |i: int| states[i].phase == Phase::Active,
                n + 1,
            );
            &&& down.len() >= min_fingers
            &&& states[n as int + 1].start == down
            &&& states[n as int + 1].tracked_slots.to_set() == down.dom()
        }),
{
    let i: int = n as int;
    let pre: TrackerState = states[i];
    let post: TrackerState = states[i + 1];
    every_reached_state_is_valid(min_fingers, states, touches, events, n);
    every_reached_state_is_valid(min_fingers, states, touches, events, n + 1);
    known_fingers_are_down(min_fingers, states, touches, events, n + 1);
    assert(step(pre, touches[i], events[i], post));
    match touches[i] {
        Touch::Down { slot, pos } => {
            recognition_begins_with_enough_fingers(pre, slot, pos, events[i], post);
            finger_put_down_is_known(pre, slot, pos, events[i], post);
            assert(post.start =~= post.slots);
        },
        Touch::Motion { slot, pos, timestamp } => {
            motion_causes_what_the_phase_allows(pre, slot, pos, timestamp, events[i], post);
        },
        Touch::Up { slot, timestamp } => {
            lifting_a_finger_ends_what_needs_it(pre, slot, timestamp, events[i], post);
        },
        Touch::Reset => {
            idle_is_valid(min_fingers);
        },
    }
}

} // verus!
