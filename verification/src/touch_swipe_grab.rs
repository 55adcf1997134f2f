//! The touch grab that turns tracked swipes into layout gestures.
//!
//! The grab decides; whoever holds the layout acts. Each touch event gives a [`Response`]: the
//! calls to make on the layout, in order, and whether the grab goes on.

use std::time::Duration;

use vstd::prelude::*;

use crate::binary64::Binary64;
use crate::geometry::{Point, TouchSlot};
use crate::laws::{grab_step, Touch};
use crate::touch_swipe_tracker::{
    GestureEvent, Phase, SwipeDirection, TouchSwipeGestureTracker, TrackerState,
};

verus! {

/// What `Duration::from_millis` gives for a number of milliseconds.
pub uninterp spec fn duration_of_millis(millis: u64) -> Duration;

/// `Duration::from_millis` is a function of its argument: equal numbers of milliseconds give equal
/// durations. Nothing more is said of a duration, which is only handed on.
pub assume_specification[ Duration::from_millis ](millis: u64) -> (duration: Duration)
    ensures
        duration == duration_of_millis(millis),
;

/// Gesture state for a touchscreen swipe outside the overview.
///
/// Feeds deltas into the same layout gestures that the touchpad path uses.
#[derive(Debug, Clone, Copy, PartialEq, Eq, Structural)]
pub enum GestureState {
    /// The tracker is still collecting fingers / hasn't exceeded the movement threshold.
    Recognizing,
    /// Horizontal swipe: drives the view offset gesture.
    ViewOffset,
    /// Vertical swipe: drives the workspace switch gesture.
    WorkspaceSwitch,
}

/// One call to make on the layout.
#[derive(Debug, Clone, Copy, PartialEq)]
pub enum LayoutCall {
    /// Begin scrolling the view on the grab's output.
    ViewOffsetBegin { workspace_idx: Option<usize>, is_touchpad: bool },
    /// Scroll the view on; answers whether the gesture is still ongoing.
    ViewOffsetUpdate { delta: Binary64, timestamp: Duration, is_touchpad: bool },
    /// End scrolling the view.
    ViewOffsetEnd { touchpad: Option<bool> },
    /// Begin switching workspaces on the grab's output.
    WorkspaceSwitchBegin { is_touchpad: bool },
    /// Switch workspaces on; answers whether the gesture is still ongoing.
    WorkspaceSwitchUpdate { delta: Binary64, timestamp: Duration, is_touchpad: bool },
    /// End switching workspaces.
    WorkspaceSwitchEnd { touchpad: Option<bool> },
    /// Redraw all outputs.
    QueueRedrawAll,
}

/// What becomes of the grab once the calls are made.
#[derive(Debug, Clone, Copy, PartialEq, Eq, Structural)]
pub enum Outcome {
    /// The grab goes on.
    Stay,
    /// The grab is to be unset.
    Ungrab,
    /// The answer to the call decides: hand it to [`update_answered`].
    AwaitAnswer,
}

/// The calls to make on the layout, in order, and what becomes of the grab then.
#[derive(Debug)]
pub struct Response {
    pub calls: Vec<LayoutCall>,
    pub outcome: Outcome,
}

/// The layout gesture that a swipe in this direction drives.
pub open spec fn gesture_for(direction: SwipeDirection) -> GestureState {
    match direction {
        SwipeDirection::Horizontal => GestureState::ViewOffset,
        SwipeDirection::Vertical => GestureState::WorkspaceSwitch,
    }
}

/// The calls that end a gesture.
pub open spec fn end_calls(gesture: GestureState, touchpad: Option<bool>) -> Seq<LayoutCall> {
    match gesture {
        GestureState::Recognizing => seq![LayoutCall::QueueRedrawAll],
        GestureState::ViewOffset => seq![
            LayoutCall::ViewOffsetEnd { touchpad },
            LayoutCall::QueueRedrawAll,
        ],
        GestureState::WorkspaceSwitch => seq![
            LayoutCall::WorkspaceSwitchEnd { touchpad },
            LayoutCall::QueueRedrawAll,
        ],
    }
}

/// The call that moves a gesture on; nothing while it is still being recognized.
///
/// The layout moves against the fingers.
pub open spec fn update_calls(
    gesture: GestureState,
    delta_x: Binary64,
    delta_y: Binary64,
    timestamp: Duration,
) -> Seq<LayoutCall> {
    match gesture {
        GestureState::Recognizing => seq![],
        GestureState::ViewOffset => seq![
            LayoutCall::ViewOffsetUpdate {
                delta: delta_x.spec_negated(),
                timestamp,
                is_touchpad: false,
            },
        ],
        GestureState::WorkspaceSwitch => seq![
            LayoutCall::WorkspaceSwitchUpdate {
                delta: delta_y.spec_negated(),
                timestamp,
                is_touchpad: false,
            },
        ],
    }
}

/// The call that begins a gesture.
pub open spec fn begin_call(direction: SwipeDirection) -> LayoutCall {
    match direction {
        SwipeDirection::Horizontal => LayoutCall::ViewOffsetBegin {
            workspace_idx: None,
            is_touchpad: false,
        },
        SwipeDirection::Vertical => LayoutCall::WorkspaceSwitchBegin { is_touchpad: false },
    }
}

/// The calls that a tracker event leads to.
pub open spec fn calls_for(gesture: GestureState, event: Option<GestureEvent>) -> Seq<LayoutCall> {
    match event {
        None => seq![],
        Some(GestureEvent::Begin { direction, delta_x, delta_y, timestamp }) => seq![
            begin_call(direction),
        ] + update_calls(gesture_for(direction), delta_x, delta_y, timestamp) + seq![
            LayoutCall::QueueRedrawAll,
        ],
        Some(GestureEvent::Update { delta_x, delta_y, timestamp }) => update_calls(
            gesture,
            delta_x,
            delta_y,
            timestamp,
        ),
        Some(GestureEvent::End { .. }) => end_calls(gesture, Some(false)),
        Some(GestureEvent::Cancel) => end_calls(gesture, None),
    }
}

/// What becomes of the grab after a tracker event.
pub open spec fn outcome_for(gesture: GestureState, event: Option<GestureEvent>) -> Outcome {
    match event {
        None => Outcome::Stay,
        Some(GestureEvent::Begin { .. }) => Outcome::Stay,
        Some(GestureEvent::Update { .. }) => if gesture == GestureState::Recognizing {
            Outcome::Stay
        } else {
            Outcome::AwaitAnswer
        },
        Some(GestureEvent::End { .. }) => Outcome::Ungrab,
        Some(GestureEvent::Cancel) => Outcome::Ungrab,
    }
}

/// The gesture state after a tracker event.
pub open spec fn gesture_after(gesture: GestureState, event: Option<GestureEvent>) -> GestureState {
    match event {
        Some(GestureEvent::Begin { direction, .. }) => gesture_for(direction),
        _ => gesture,
    }
}

/// A touch grab around a tracker. `S` is the data about the event that started the grab, `O` the
/// output that the gesture is on.
pub struct TouchSwipeGrab<S, O> {
    start_data: S,
    output: O,
    tracker: TouchSwipeGestureTracker,
    gesture: GestureState,
}

/// What a grab knows.
pub ghost struct GrabState<S, O> {
    pub start_data: S,
    pub output: O,
    pub tracker: TrackerState,
    pub gesture: GestureState,
}

impl<S, O> GrabState<S, O> {
    /// What always holds of a grab: an active swipe drives the layout gesture of its direction.
    pub open spec fn valid(self) -> bool {
        &&& self.tracker.valid()
        &&& self.tracker.phase == Phase::Active ==> self.gesture == gesture_for(
            self.tracker.direction,
        )
    }

    /// A layout gesture is running exactly while the tracker is in a gesture.
    pub open spec fn in_step(self) -> bool {
        &&& self.valid()
        &&& self.tracker.phase == Phase::Active <==> self.gesture != GestureState::Recognizing
    }
}

impl<S, O> View for TouchSwipeGrab<S, O> {
    type V = GrabState<S, O>;

    closed spec fn view(&self) -> GrabState<S, O> {
        GrabState {
            start_data: self.start_data,
            output: self.output,
            tracker: self.tracker@,
            gesture: self.gesture,
        }
    }
}

/// What the answer to an update leads to: while the gesture is ongoing a redraw, and otherwise the
/// end of the grab.
pub fn update_answered(ongoing: bool) -> (response: Response)
    ensures
        ongoing ==> response.calls@ == seq![LayoutCall::QueueRedrawAll] && response.outcome
            == Outcome::Stay,
        !ongoing ==> response.calls@ == Seq::<LayoutCall>::empty() && response.outcome
            == Outcome::Ungrab,
{
    let mut calls: Vec<LayoutCall> = Vec::new();
    if ongoing {
        calls.push(LayoutCall::QueueRedrawAll);
        Response { calls, outcome: Outcome::Stay }
    } else {
        // Gesture pipeline says stop.
        Response { calls, outcome: Outcome::Ungrab }
    }
}

impl<S, O> TouchSwipeGrab<S, O> {
    /// A grab that goes on with a tracker, which may already be in a gesture.
    pub fn new(start_data: S, output: O, tracker: TouchSwipeGestureTracker) -> (grab: Self)
        requires
            tracker@.valid(),
        ensures
            grab@.start_data == start_data,
            grab@.output == output,
            grab@.tracker == tracker@,
            grab@.gesture == (if tracker@.phase == Phase::Active {
                gesture_for(tracker@.direction)
            } else {
                GestureState::Recognizing
            }),
            grab@.valid(),
            grab@.in_step(),
    {
        let gesture: GestureState = if tracker.is_active() {
            match tracker.direction() {
                SwipeDirection::Horizontal => GestureState::ViewOffset,
                SwipeDirection::Vertical => GestureState::WorkspaceSwitch,
            }
        } else {
            GestureState::Recognizing
        };

        Self { start_data, output, tracker, gesture }
    }

    /// The data about the event that started the grab.
    pub fn start_data(&self) -> (start_data: &S)
        ensures
            *start_data == self@.start_data,
    {
        &self.start_data
    }

    /// The output that the gesture is on.
    pub fn output(&self) -> (output: &O)
        ensures
            *output == self@.output,
    {
        &self.output
    }

    /// Appends the call that moves the current gesture on, if there is one.
    fn push_update(
        &self,
        calls: &mut Vec<LayoutCall>,
        delta_x: Binary64,
        delta_y: Binary64,
        timestamp: Duration,
    )
        ensures
            final(calls)@ == old(calls)@ + update_calls(self@.gesture, delta_x, delta_y, timestamp),
    {
        match self.gesture {
            GestureState::Recognizing => {},
            GestureState::ViewOffset => {
                calls.push(
                    LayoutCall::ViewOffsetUpdate {
                        delta: delta_x.negated(),
                        timestamp,
                        is_touchpad: false,
                    },
                );
            },
            GestureState::WorkspaceSwitch => {
                calls.push(
                    LayoutCall::WorkspaceSwitchUpdate {
                        delta: delta_y.negated(),
                        timestamp,
                        is_touchpad: false,
                    },
                );
            },
        }
        assert(calls@ =~= old(calls)@ + update_calls(self@.gesture, delta_x, delta_y, timestamp));
    }

    /// The calls that end the current gesture.
    fn calls_to_end(&self, touchpad: Option<bool>) -> (calls: Vec<LayoutCall>)
        ensures
            calls@ == end_calls(self@.gesture, touchpad),
    {
        let mut calls: Vec<LayoutCall> = Vec::new();
        match self.gesture {
            GestureState::Recognizing => {},
            GestureState::ViewOffset => {
                calls.push(LayoutCall::ViewOffsetEnd { touchpad });
            },
            GestureState::WorkspaceSwitch => {
                calls.push(LayoutCall::WorkspaceSwitchEnd { touchpad });
            },
        }
        calls.push(LayoutCall::QueueRedrawAll);
        assert(calls@ =~= end_calls(self@.gesture, touchpad));
        calls
    }

    /// Decides what a tracker event leads to.
    pub fn handle_gesture_event(&mut self, event: Option<GestureEvent>) -> (response: Response)
        ensures
            response.calls@ == calls_for(old(self)@.gesture, event),
            response.outcome == outcome_for(old(self)@.gesture, event),
            final(self)@ == (GrabState {
                gesture: gesture_after(old(self)@.gesture, event),
                ..old(self)@
            }),
    {
        let mut calls: Vec<LayoutCall> = Vec::new();
        let Some(event) = event else {
            return Response { calls, outcome: Outcome::Stay };
        };
        match event {
            GestureEvent::Begin { direction, delta_x, delta_y, timestamp } => {
                match direction {
                    SwipeDirection::Horizontal => {
                        calls.push(
                            LayoutCall::ViewOffsetBegin { workspace_idx: None, is_touchpad: false },
                        );
                        self.gesture = GestureState::ViewOffset;
                    },
                    SwipeDirection::Vertical => {
                        calls.push(LayoutCall::WorkspaceSwitchBegin { is_touchpad: false });
                        self.gesture = GestureState::WorkspaceSwitch;
                    },
                }
                self.push_update(&mut calls, delta_x, delta_y, timestamp);
                calls.push(LayoutCall::QueueRedrawAll);
                assert(calls@ =~= seq![begin_call(direction)] + update_calls(
                    gesture_for(direction),
                    delta_x,
                    delta_y,
                    timestamp,
                ) + seq![LayoutCall::QueueRedrawAll]);
                Response { calls, outcome: Outcome::Stay }
            },
            GestureEvent::Update { delta_x, delta_y, timestamp } => {
                if self.gesture == GestureState::Recognizing {
                    return Response { calls, outcome: Outcome::Stay };
                }
                self.push_update(&mut calls, delta_x, delta_y, timestamp);
                assert(calls@ =~= update_calls(self@.gesture, delta_x, delta_y, timestamp));
                Response { calls, outcome: Outcome::AwaitAnswer }
            },
            GestureEvent::End { .. } => {
                Response { calls: self.calls_to_end(Some(false)), outcome: Outcome::Ungrab }
            },
            GestureEvent::Cancel => {
                Response { calls: self.calls_to_end(None), outcome: Outcome::Ungrab }
            },
        }
    }

    /// The calls to make when the grab is unset or replaced with another grab.
    pub fn on_ungrab(&self) -> (calls: Vec<LayoutCall>)
        ensures
            calls@ == end_calls(self@.gesture, Some(false)),
    {
        self.calls_to_end(Some(false))
    }

    /// A finger is put down.
    pub fn down(&mut self, slot: TouchSlot, location: Point) -> (response: Response)
        requires
            old(self)@.valid(),
        ensures
            old(self)@.tracker.down_leads_to(slot, location, final(self)@.tracker),
            final(self)@ == (GrabState { tracker: final(self)@.tracker, ..old(self)@ }),
            final(self)@.valid(),
            grab_step(old(self)@, Touch::Down { slot, pos: location }, None, final(self)@),
            response.calls@ == Seq::<LayoutCall>::empty(),
            response.outcome == Outcome::Stay,
    {
        let event: Option<GestureEvent> = self.tracker.touch_down(slot, location);
        self.handle_gesture_event(event)
    }

    /// A finger is lifted, `time` in milliseconds.
    pub fn up(&mut self, slot: TouchSlot, time: u32) -> (response: Response)
        requires
            old(self)@.valid(),
        ensures
            ({
                let event: Option<GestureEvent> = old(self)@.tracker.up_event(
                    slot,
                    duration_of_millis(time as u64),
                );
                let touch: Touch = Touch::Up { slot, timestamp: duration_of_millis(time as u64) };
                &&& grab_step(old(self)@, touch, event, final(self)@)
                &&& response.calls@ == calls_for(old(self)@.gesture, event)
                &&& response.outcome == outcome_for(old(self)@.gesture, event)
                &&& final(self)@ == (GrabState {
                    tracker: old(self)@.tracker.after_up(slot),
                    gesture: gesture_after(old(self)@.gesture, event),
                    ..old(self)@
                })
            }),
            final(self)@.valid(),
    {
        let timestamp: Duration = Duration::from_millis(time as u64);
        let event: Option<GestureEvent> = self.tracker.touch_up(slot, timestamp);
        self.handle_gesture_event(event)
    }

    /// A finger moves, `time` in milliseconds.
    pub fn motion(&mut self, slot: TouchSlot, location: Point, time: u32) -> (response: Response)
        requires
            old(self)@.valid(),
        ensures
            ({
                let event: Option<GestureEvent> = old(self)@.tracker.motion_event(
                    slot,
                    location,
                    duration_of_millis(time as u64),
                );
                let touch: Touch = Touch::Motion {
                    slot,
                    pos: location,
                    timestamp: duration_of_millis(time as u64),
                };
                &&& grab_step(old(self)@, touch, event, final(self)@)
                &&& response.calls@ == calls_for(old(self)@.gesture, event)
                &&& response.outcome == outcome_for(old(self)@.gesture, event)
                &&& final(self)@ == (GrabState {
                    tracker: old(self)@.tracker.after_motion(slot, location),
                    gesture: gesture_after(old(self)@.gesture, event),
                    ..old(self)@
                })
            }),
            final(self)@.valid(),
    {
        let timestamp: Duration = Duration::from_millis(time as u64);
        let event: Option<GestureEvent> = self.tracker.touch_motion(slot, location, timestamp);
        self.handle_gesture_event(event)
    }
}

} // verus!
