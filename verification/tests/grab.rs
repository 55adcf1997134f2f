use std::time::Duration;

use touch_swipe::binary64::Binary64;
use touch_swipe::geometry::{Point, TouchSlot};
use touch_swipe::touch_swipe_grab::{update_answered, LayoutCall, Outcome, TouchSwipeGrab};
use touch_swipe::touch_swipe_tracker::{GestureEvent, SwipeDirection, TouchSwipeGestureTracker};

fn slot(id: u32) -> TouchSlot {
    TouchSlot::from(Some(id))
}

fn number(x: f64) -> Binary64 {
    Binary64::from_bits(x.to_bits())
}

fn pt(x: f64, y: f64) -> Point {
    Point::new(number(x), number(y))
}

fn grab(tracker: TouchSwipeGestureTracker) -> TouchSwipeGrab<&'static str, u8> {
    TouchSwipeGrab::new("start", 7, tracker)
}

fn new_grab() -> TouchSwipeGrab<&'static str, u8> {
    grab(TouchSwipeGestureTracker::new(1))
}

#[test]
fn grab_keeps_what_it_was_given() {
    let grab = new_grab();
    assert_eq!(*grab.start_data(), "start");
    assert_eq!(*grab.output(), 7);
}

#[test]
fn horizontal_swipe_drives_the_view_offset() {
    let mut grab = new_grab();
    let response = grab.down(slot(0), pt(0.0, 0.0));
    assert!(response.calls.is_empty());
    assert_eq!(response.outcome, Outcome::Stay);

    let response = grab.motion(slot(0), pt(20.0, 5.0), 10);
    assert_eq!(
        response.calls,
        vec![
            LayoutCall::ViewOffsetBegin { workspace_idx: None, is_touchpad: false },
            LayoutCall::ViewOffsetUpdate {
                delta: number(-20.0),
                timestamp: Duration::from_millis(10),
                is_touchpad: false,
            },
            LayoutCall::QueueRedrawAll,
        ]
    );
    assert_eq!(response.outcome, Outcome::Stay);

    let response = grab.motion(slot(0), pt(17.0, 50.0), 20);
    assert_eq!(
        response.calls,
        vec![LayoutCall::ViewOffsetUpdate {
            delta: number(3.0),
            timestamp: Duration::from_millis(20),
            is_touchpad: false,
        }]
    );
    assert_eq!(response.outcome, Outcome::AwaitAnswer);

    let response = grab.up(slot(0), 30);
    assert_eq!(
        response.calls,
        vec![LayoutCall::ViewOffsetEnd { touchpad: Some(false) }, LayoutCall::QueueRedrawAll]
    );
    assert_eq!(response.outcome, Outcome::Ungrab);

    // Unsetting the grab ends the gesture once more.
    assert_eq!(
        grab.on_ungrab(),
        vec![LayoutCall::ViewOffsetEnd { touchpad: Some(false) }, LayoutCall::QueueRedrawAll]
    );
}

#[test]
fn vertical_swipe_drives_the_workspace_switch() {
    let mut grab = new_grab();
    grab.down(slot(0), pt(0.0, 0.0));
    let response = grab.motion(slot(0), pt(5.0, -20.0), u32::MAX);
    assert_eq!(
        response.calls,
        vec![
            LayoutCall::WorkspaceSwitchBegin { is_touchpad: false },
            LayoutCall::WorkspaceSwitchUpdate {
                delta: number(20.0),
                timestamp: Duration::from_millis(4_294_967_295),
                is_touchpad: false,
            },
            LayoutCall::QueueRedrawAll,
        ]
    );
    let response = grab.motion(slot(0), pt(9.0, -16.0), 1);
    assert_eq!(
        response.calls,
        vec![LayoutCall::WorkspaceSwitchUpdate {
            delta: number(-4.0),
            timestamp: Duration::from_millis(1),
            is_touchpad: false,
        }]
    );
    let response = grab.up(slot(0), 2);
    assert_eq!(
        response.calls,
        vec![
            LayoutCall::WorkspaceSwitchEnd { touchpad: Some(false) },
            LayoutCall::QueueRedrawAll,
        ]
    );
    assert_eq!(response.outcome, Outcome::Ungrab);
}

#[test]
fn lost_recognition_ungrabs() {
    let mut grab = new_grab();
    grab.down(slot(0), pt(0.0, 0.0));
    let response = grab.up(slot(0), 5);
    assert_eq!(response.calls, vec![LayoutCall::QueueRedrawAll]);
    assert_eq!(response.outcome, Outcome::Ungrab);
    assert_eq!(grab.on_ungrab(), vec![LayoutCall::QueueRedrawAll]);
}

#[test]
fn touches_without_an_event_ask_for_nothing() {
    let mut grab = grab(TouchSwipeGestureTracker::new(2));
    for response in [
        grab.down(slot(0), pt(0.0, 0.0)),
        grab.motion(slot(0), pt(90.0, 0.0), 1),
        grab.motion(slot(8), pt(90.0, 0.0), 2),
        grab.up(slot(0), 3),
    ] {
        assert!(response.calls.is_empty());
        assert_eq!(response.outcome, Outcome::Stay);
    }
}

#[test]
fn cancelled_gesture_is_ended_without_a_touchpad_answer() {
    let mut grab = new_grab();
    grab.handle_gesture_event(Some(GestureEvent::Begin {
        direction: SwipeDirection::Vertical,
        delta_x: number(0.0),
        delta_y: number(1.0),
        timestamp: Duration::from_millis(1),
    }));
    let response = grab.handle_gesture_event(Some(GestureEvent::Cancel));
    assert_eq!(
        response.calls,
        vec![LayoutCall::WorkspaceSwitchEnd { touchpad: None }, LayoutCall::QueueRedrawAll]
    );
    assert_eq!(response.outcome, Outcome::Ungrab);
}

#[test]
fn update_while_recognizing_is_dropped() {
    let mut grab = new_grab();
    let response = grab.handle_gesture_event(Some(GestureEvent::Update {
        delta_x: number(1.0),
        delta_y: number(1.0),
        timestamp: Duration::from_millis(1),
    }));
    assert!(response.calls.is_empty());
    assert_eq!(response.outcome, Outcome::Stay);
}

#[test]
fn answer_to_an_update_decides() {
    let response = update_answered(true);
    assert_eq!(response.calls, vec![LayoutCall::QueueRedrawAll]);
    assert_eq!(response.outcome, Outcome::Stay);
    let response = update_answered(false);
    assert!(response.calls.is_empty());
    assert_eq!(response.outcome, Outcome::Ungrab);
}

#[test]
fn grab_goes_on_with_an_active_tracker() {
    for (x, y, ends) in [
        (30.0, 0.0, LayoutCall::ViewOffsetEnd { touchpad: Some(false) }),
        (0.0, 30.0, LayoutCall::WorkspaceSwitchEnd { touchpad: Some(false) }),
    ] {
        let mut tracker = TouchSwipeGestureTracker::new(1);
        tracker.touch_down(slot(0), pt(0.0, 0.0));
        tracker.touch_motion(slot(0), pt(x, y), Duration::from_millis(1));
        let mut grab = grab(tracker);
        assert_eq!(grab.on_ungrab(), vec![ends, LayoutCall::QueueRedrawAll]);
        let response = grab.motion(slot(0), pt(2.0 * x, 2.0 * y), 2);
        assert_eq!(response.outcome, Outcome::AwaitAnswer);
        assert_eq!(response.calls.len(), 1);
    }
}
