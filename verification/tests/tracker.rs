use std::time::Duration;

use touch_swipe::binary64::Binary64;
use touch_swipe::geometry::{Point, TouchSlot};
use touch_swipe::touch_swipe_tracker::{
    GestureEvent, SwipeDirection, TouchSwipeGestureTracker, MAX_SLOTS,
};

/// Default minimum number of simultaneous touch points required to start a gesture.
const DEFAULT_MIN_FINGERS: usize = 3;

fn slot(id: u32) -> TouchSlot {
    TouchSlot::from(Some(id))
}

fn pt(x: f64, y: f64) -> Point {
    Point::new(Binary64::from_bits(x.to_bits()), Binary64::from_bits(y.to_bits()))
}

fn ts(millis: u64) -> Duration {
    Duration::from_millis(millis)
}

fn float(number: Binary64) -> f64 {
    f64::from_bits(number.to_bits())
}

/// A tracker with three fingers that swipe to the right.
fn swiping() -> TouchSwipeGestureTracker {
    let mut tracker = TouchSwipeGestureTracker::new(DEFAULT_MIN_FINGERS);
    tracker.touch_down(slot(0), pt(100.0, 100.0));
    tracker.touch_down(slot(1), pt(110.0, 100.0));
    tracker.touch_down(slot(2), pt(120.0, 100.0));
    tracker.touch_motion(slot(0), pt(120.0, 100.0), ts(10));
    tracker.touch_motion(slot(1), pt(130.0, 100.0), ts(10));
    tracker.touch_motion(slot(2), pt(140.0, 100.0), ts(10));
    assert!(tracker.is_active());
    tracker
}

#[test]
fn no_gesture_with_fewer_than_three_fingers() {
    let mut tracker = TouchSwipeGestureTracker::new(DEFAULT_MIN_FINGERS);
    assert!(tracker.touch_down(slot(0), pt(100.0, 100.0)).is_none());
    assert!(tracker.touch_down(slot(1), pt(110.0, 100.0)).is_none());
    // Move them a lot — still no gesture.
    assert!(tracker
        .touch_motion(slot(0), pt(200.0, 100.0), ts(10))
        .is_none());
    assert!(tracker
        .touch_motion(slot(1), pt(210.0, 100.0), ts(10))
        .is_none());
    assert!(!tracker.is_active());
}

#[test]
fn gesture_begins_after_threshold_with_three_fingers() {
    let mut tracker = TouchSwipeGestureTracker::new(DEFAULT_MIN_FINGERS);
    tracker.touch_down(slot(0), pt(100.0, 100.0));
    tracker.touch_down(slot(1), pt(110.0, 100.0));
    tracker.touch_down(slot(2), pt(120.0, 100.0));

    assert!(!tracker.is_active());

    // Move all fingers a small amount — below threshold.
    tracker.touch_motion(slot(0), pt(105.0, 100.0), ts(10));
    tracker.touch_motion(slot(1), pt(115.0, 100.0), ts(10));
    let ev = tracker.touch_motion(slot(2), pt(125.0, 100.0), ts(10));
    assert!(ev.is_none());

    // Move all fingers beyond threshold horizontally (20px each).
    tracker.touch_motion(slot(0), pt(120.0, 100.0), ts(20));
    tracker.touch_motion(slot(1), pt(130.0, 100.0), ts(20));
    let ev = tracker.touch_motion(slot(2), pt(140.0, 100.0), ts(20));
    assert!(matches!(
        ev,
        Some(GestureEvent::Begin {
            direction: SwipeDirection::Horizontal,
            ..
        })
    ));
    assert!(tracker.is_active());
    assert_eq!(tracker.direction(), SwipeDirection::Horizontal);
}

#[test]
fn vertical_direction_detected() {
    let mut tracker = TouchSwipeGestureTracker::new(DEFAULT_MIN_FINGERS);
    tracker.touch_down(slot(0), pt(100.0, 100.0));
    tracker.touch_down(slot(1), pt(110.0, 100.0));
    tracker.touch_down(slot(2), pt(120.0, 100.0));

    // Move all fingers down past threshold (20px each).
    tracker.touch_motion(slot(0), pt(100.0, 120.0), ts(10));
    tracker.touch_motion(slot(1), pt(110.0, 120.0), ts(10));
    let ev = tracker.touch_motion(slot(2), pt(120.0, 120.0), ts(10));

    assert!(matches!(
        ev,
        Some(GestureEvent::Begin {
            direction: SwipeDirection::Vertical,
            ..
        })
    ));
}

#[test]
fn updates_emit_centroid_delta() {
    let mut tracker = TouchSwipeGestureTracker::new(DEFAULT_MIN_FINGERS);
    tracker.touch_down(slot(0), pt(100.0, 100.0));
    tracker.touch_down(slot(1), pt(110.0, 100.0));
    tracker.touch_down(slot(2), pt(120.0, 100.0));

    // Trigger recognition by moving right.
    tracker.touch_motion(slot(0), pt(120.0, 100.0), ts(10));
    tracker.touch_motion(slot(1), pt(130.0, 100.0), ts(10));
    let begin = tracker.touch_motion(slot(2), pt(140.0, 100.0), ts(10));
    assert!(begin.is_some());

    // Now move slot 0 by 9px right.
    let ev = tracker.touch_motion(slot(0), pt(129.0, 100.0), ts(20));
    match ev {
        Some(GestureEvent::Update {
            delta_x, delta_y, ..
        }) => {
            // Only slot 0 moved 9px, centroid delta = 9 / 3 = 3.
            assert!((float(delta_x) - 3.0).abs() < 0.01);
            assert!(float(delta_y).abs() < 0.01);
        }
        other => panic!("expected Update, got {other:?}"),
    }
}

#[test]
fn gesture_ends_on_tracked_slot_lift() {
    let mut tracker = TouchSwipeGestureTracker::new(DEFAULT_MIN_FINGERS);
    tracker.touch_down(slot(0), pt(100.0, 100.0));
    tracker.touch_down(slot(1), pt(110.0, 100.0));
    tracker.touch_down(slot(2), pt(120.0, 100.0));

    // Trigger recognition.
    tracker.touch_motion(slot(0), pt(120.0, 100.0), ts(10));
    tracker.touch_motion(slot(1), pt(130.0, 100.0), ts(10));
    tracker.touch_motion(slot(2), pt(140.0, 100.0), ts(10));
    assert!(tracker.is_active());

    // Lift one tracked finger.
    let ev = tracker.touch_up(slot(1), ts(30));
    assert!(matches!(ev, Some(GestureEvent::End { .. })));
    assert!(!tracker.is_active());
}

#[test]
fn extra_finger_ignored_during_active_gesture() {
    let mut tracker = TouchSwipeGestureTracker::new(DEFAULT_MIN_FINGERS);
    tracker.touch_down(slot(0), pt(100.0, 100.0));
    tracker.touch_down(slot(1), pt(110.0, 100.0));
    tracker.touch_down(slot(2), pt(120.0, 100.0));

    // Trigger recognition.
    tracker.touch_motion(slot(0), pt(120.0, 100.0), ts(10));
    tracker.touch_motion(slot(1), pt(130.0, 100.0), ts(10));
    tracker.touch_motion(slot(2), pt(140.0, 100.0), ts(10));
    assert!(tracker.is_active());

    // Add a 4th finger.
    let ev = tracker.touch_down(slot(3), pt(200.0, 200.0));
    assert!(ev.is_none());

    // Lifting the 4th finger doesn't end the gesture.
    let ev = tracker.touch_up(slot(3), ts(40));
    assert!(ev.is_none());
    assert!(tracker.is_active());
}

#[test]
fn cancel_when_finger_lifts_during_recognition() {
    let mut tracker = TouchSwipeGestureTracker::new(DEFAULT_MIN_FINGERS);
    tracker.touch_down(slot(0), pt(100.0, 100.0));
    tracker.touch_down(slot(1), pt(110.0, 100.0));
    tracker.touch_down(slot(2), pt(120.0, 100.0));

    // Lift a finger before threshold is reached.
    let ev = tracker.touch_up(slot(2), ts(10));
    assert!(matches!(ev, Some(GestureEvent::Cancel)));
    assert!(!tracker.is_active());
}

#[test]
fn reset_clears_state() {
    let mut tracker = TouchSwipeGestureTracker::new(DEFAULT_MIN_FINGERS);
    tracker.touch_down(slot(0), pt(100.0, 100.0));
    tracker.touch_down(slot(1), pt(110.0, 100.0));
    tracker.touch_down(slot(2), pt(120.0, 100.0));

    // Trigger recognition.
    tracker.touch_motion(slot(0), pt(120.0, 100.0), ts(10));
    tracker.touch_motion(slot(1), pt(130.0, 100.0), ts(10));
    tracker.touch_motion(slot(2), pt(140.0, 100.0), ts(10));
    assert!(tracker.is_active());

    tracker.reset();
    assert!(!tracker.is_active());
}

#[test]
fn motion_on_unknown_slot_ignored() {
    let mut tracker = TouchSwipeGestureTracker::new(DEFAULT_MIN_FINGERS);
    let ev = tracker.touch_motion(slot(99), pt(0.0, 0.0), ts(10));
    assert!(ev.is_none());
}

#[test]
fn four_fingers_down_before_recognition() {
    let mut tracker = TouchSwipeGestureTracker::new(DEFAULT_MIN_FINGERS);
    tracker.touch_down(slot(0), pt(100.0, 100.0));
    tracker.touch_down(slot(1), pt(110.0, 100.0));
    tracker.touch_down(slot(2), pt(120.0, 100.0));
    // A 4th finger during the recognizing phase is fine.
    tracker.touch_down(slot(3), pt(130.0, 100.0));

    // Move all right past threshold.
    tracker.touch_motion(slot(0), pt(120.0, 100.0), ts(10));
    tracker.touch_motion(slot(1), pt(130.0, 100.0), ts(10));
    tracker.touch_motion(slot(2), pt(140.0, 100.0), ts(10));
    let ev = tracker.touch_motion(slot(3), pt(150.0, 100.0), ts(10));

    // Should recognize with all 4 fingers down.
    assert!(ev.is_some() || tracker.is_active());
}

#[test]
fn begin_delta_reflects_cumulative_movement() {
    let mut tracker = TouchSwipeGestureTracker::new(DEFAULT_MIN_FINGERS);
    tracker.touch_down(slot(0), pt(100.0, 100.0));
    tracker.touch_down(slot(1), pt(200.0, 100.0));
    tracker.touch_down(slot(2), pt(300.0, 100.0));

    // Move all three fingers 20px to the right.
    tracker.touch_motion(slot(0), pt(120.0, 100.0), ts(10));
    tracker.touch_motion(slot(1), pt(220.0, 100.0), ts(10));
    let ev = tracker.touch_motion(slot(2), pt(320.0, 100.0), ts(10));

    match ev {
        Some(GestureEvent::Begin {
            delta_x,
            delta_y,
            direction,
            ..
        }) => {
            assert_eq!(direction, SwipeDirection::Horizontal);
            assert!((float(delta_x) - 20.0).abs() < 0.01);
            assert!(float(delta_y).abs() < 0.01);
        }
        other => panic!("expected Begin, got {other:?}"),
    }
}

#[test]
fn begin_carries_exact_values() {
    let mut tracker = TouchSwipeGestureTracker::new(1);
    tracker.touch_down(slot(0), pt(1.5, -2.25));
    let ev = tracker.touch_motion(slot(0), pt(-18.5, 7.75), ts(12));
    assert_eq!(
        ev,
        Some(GestureEvent::Begin {
            direction: SwipeDirection::Horizontal,
            delta_x: Binary64::from_bits((-20.0f64).to_bits()),
            delta_y: Binary64::from_bits(10.0f64.to_bits()),
            timestamp: ts(12),
        })
    );
    let ev = tracker.touch_motion(slot(0), pt(-18.25, 3.75), ts(13));
    assert_eq!(
        ev,
        Some(GestureEvent::Update {
            delta_x: Binary64::from_bits(0.25f64.to_bits()),
            delta_y: Binary64::from_bits((-4.0f64).to_bits()),
            timestamp: ts(13),
        })
    );
    assert_eq!(tracker.touch_up(slot(0), ts(14)), Some(GestureEvent::End { timestamp: ts(14) }));
}

#[test]
fn threshold_must_be_exceeded() {
    let above_16 = f64::from_bits(16.0f64.to_bits() + 1);
    for (x, y, begins) in [
        (16.0, 0.0, false),
        (0.0, -16.0, false),
        (above_16, 0.0, true),
        (0.0, -above_16, true),
        (11.0, 11.0, false),
        (12.0, 12.0, true),
    ] {
        let mut tracker = TouchSwipeGestureTracker::new(1);
        tracker.touch_down(slot(0), pt(0.0, 0.0));
        let ev = tracker.touch_motion(slot(0), pt(x, y), ts(1));
        assert_eq!(ev.is_some(), begins);
        assert_eq!(tracker.is_active(), begins);
    }
}

#[test]
fn movement_that_is_not_a_number_is_no_gesture() {
    let mut tracker = TouchSwipeGestureTracker::new(1);
    tracker.touch_down(slot(0), pt(0.0, 0.0));
    assert!(tracker.touch_motion(slot(0), pt(f64::NAN, 50.0), ts(1)).is_none());
    assert!(!tracker.is_active());
    assert!(tracker.touch_motion(slot(0), pt(0.0, f64::INFINITY), ts(1)).is_some());
    assert_eq!(tracker.direction(), SwipeDirection::Vertical);
}

#[test]
fn diagonal_counts_as_vertical() {
    let mut tracker = TouchSwipeGestureTracker::new(1);
    tracker.touch_down(slot(0), pt(0.0, 0.0));
    assert!(tracker.touch_motion(slot(0), pt(-20.0, 20.0), ts(1)).is_some());
    assert_eq!(tracker.direction(), SwipeDirection::Vertical);
}

#[test]
fn finger_that_joins_recognition_is_not_averaged() {
    let mut tracker = TouchSwipeGestureTracker::new(2);
    tracker.touch_down(slot(0), pt(0.0, 0.0));
    tracker.touch_down(slot(1), pt(10.0, 0.0));
    tracker.touch_down(slot(2), pt(20.0, 0.0));
    // The third finger moves far, the centroid of the first two does not.
    assert!(tracker.touch_motion(slot(2), pt(500.0, 0.0), ts(1)).is_none());
    assert!(tracker.touch_motion(slot(0), pt(20.0, 0.0), ts(2)).is_none());
    let ev = tracker.touch_motion(slot(1), pt(30.0, 0.0), ts(3));
    match ev {
        Some(GestureEvent::Begin { delta_x, .. }) => assert_eq!(float(delta_x), 20.0),
        other => panic!("expected Begin, got {other:?}"),
    }
    // Nor does it update or end the gesture.
    assert!(tracker.touch_motion(slot(2), pt(0.0, 0.0), ts(4)).is_none());
    assert!(tracker.touch_up(slot(2), ts(5)).is_none());
    assert!(tracker.is_active());
}

#[test]
fn recognition_goes_on_with_enough_fingers_left() {
    let mut tracker = TouchSwipeGestureTracker::new(2);
    tracker.touch_down(slot(0), pt(0.0, 0.0));
    tracker.touch_down(slot(1), pt(100.0, 0.0));
    tracker.touch_down(slot(2), pt(200.0, 0.0));
    assert!(tracker.touch_up(slot(1), ts(1)).is_none());
    // Only the first finger is averaged now.
    let ev = tracker.touch_motion(slot(0), pt(0.0, 17.0), ts(2));
    match ev {
        Some(GestureEvent::Begin { direction, delta_y, .. }) => {
            assert_eq!(direction, SwipeDirection::Vertical);
            assert_eq!(float(delta_y), 17.0);
        }
        other => panic!("expected Begin, got {other:?}"),
    }
}

#[test]
fn nothing_to_average_is_never_recognized() {
    let mut tracker = TouchSwipeGestureTracker::new(1);
    tracker.touch_down(slot(0), pt(0.0, 0.0));
    tracker.touch_down(slot(1), pt(0.0, 0.0));
    assert!(tracker.touch_up(slot(0), ts(1)).is_none());
    assert!(tracker.touch_motion(slot(1), pt(900.0, 0.0), ts(2)).is_none());
    assert!(!tracker.is_active());
    assert_eq!(tracker.touch_up(slot(1), ts(3)), Some(GestureEvent::Cancel));
}

#[test]
fn slot_limit_is_enforced() {
    let mut tracker = TouchSwipeGestureTracker::new(MAX_SLOTS + 1);
    for id in 0..MAX_SLOTS as u32 + 5 {
        assert!(tracker.touch_down(slot(id), pt(0.0, 0.0)).is_none());
    }
    assert!(tracker.touch_up(slot(0), ts(1)).is_none());
    assert!(!tracker.is_active());

    let mut tracker = TouchSwipeGestureTracker::new(MAX_SLOTS);
    for id in 0..MAX_SLOTS as u32 {
        tracker.touch_down(slot(id), pt(0.0, 0.0));
    }
    tracker.touch_down(slot(50), pt(0.0, 0.0));
    assert!(tracker.touch_motion(slot(50), pt(999.0, 0.0), ts(1)).is_none());
    assert!(tracker.touch_motion(slot(3), pt(200.0, 0.0), ts(2)).is_some());
}

#[test]
fn slot_without_a_number_is_a_slot_of_its_own() {
    let mut tracker = TouchSwipeGestureTracker::new(3);
    tracker.touch_down(TouchSlot::from(None), pt(0.0, 0.0));
    tracker.touch_down(slot(0), pt(0.0, 0.0));
    assert!(tracker.touch_motion(slot(0), pt(100.0, 0.0), ts(1)).is_none());
    tracker.touch_down(slot(u32::MAX), pt(0.0, 0.0));
    tracker.touch_motion(TouchSlot::from(None), pt(100.0, 0.0), ts(2));
    assert!(tracker.is_active());
    assert!(tracker.touch_up(TouchSlot::from(None), ts(3)).is_some());
}

#[test]
fn putting_a_finger_down_twice_moves_it() {
    let mut tracker = TouchSwipeGestureTracker::new(1);
    tracker.touch_down(slot(0), pt(0.0, 0.0));
    tracker.touch_down(slot(0), pt(100.0, 0.0));
    let ev = tracker.touch_motion(slot(0), pt(101.0, 0.0), ts(1));
    match ev {
        Some(GestureEvent::Begin { delta_x, .. }) => assert_eq!(float(delta_x), 101.0),
        other => panic!("expected Begin, got {other:?}"),
    }
}

#[test]
fn tracker_is_as_new_after_end_and_after_reset() {
    let mut ended = swiping();
    ended.touch_up(slot(0), ts(20));
    let mut reset = swiping();
    reset.reset();
    for mut tracker in [ended, reset, TouchSwipeGestureTracker::new(DEFAULT_MIN_FINGERS)] {
        assert!(!tracker.is_active());
        assert_eq!(tracker.direction(), SwipeDirection::Horizontal);
        // The fingers that are still on the screen are forgotten.
        assert!(tracker.touch_motion(slot(1), pt(0.0, 0.0), ts(21)).is_none());
        assert!(tracker.touch_up(slot(1), ts(22)).is_none());
        // It still takes three fingers.
        tracker.touch_down(slot(5), pt(0.0, 0.0));
        tracker.touch_down(slot(6), pt(0.0, 0.0));
        assert!(tracker.touch_motion(slot(5), pt(300.0, 0.0), ts(23)).is_none());
        tracker.touch_down(slot(7), pt(0.0, 0.0));
        assert!(tracker.touch_motion(slot(5), pt(500.0, 0.0), ts(24)).is_some());
    }
}

#[test]
fn finger_that_stays_gives_a_zero_update() {
    let mut tracker = swiping();
    let ev = tracker.touch_motion(slot(1), pt(130.0, 100.0), ts(20));
    assert_eq!(
        ev,
        Some(GestureEvent::Update {
            delta_x: Binary64::zero(),
            delta_y: Binary64::zero(),
            timestamp: ts(20),
        })
    );
}

#[test]
fn direction_stays_locked() {
    let mut tracker = swiping();
    for id in 0..3 {
        tracker.touch_motion(slot(id), pt(100.0, 900.0), ts(20));
    }
    assert!(tracker.is_active());
    assert_eq!(tracker.direction(), SwipeDirection::Horizontal);
}

#[test]
fn events_come_in_brackets() {
    let mut tracker = TouchSwipeGestureTracker::new(2);
    let mut seed: u64 = 12_345;
    let mut open = false;
    let mut begun = 0;
    for step in 0..20_000u64 {
        seed = seed.wrapping_mul(6_364_136_223_846_793_005).wrapping_add(1_442_695_040_888_963_407);
        let id = (seed >> 33) as u32 % 4;
        let place = pt(((seed >> 40) % 60) as f64, ((seed >> 50) % 60) as f64);
        let event = match (seed >> 36) % 8 {
            0 | 1 => tracker.touch_down(slot(id), place),
            2 => tracker.touch_up(slot(id), ts(step)),
            3 if step % 16 == 0 => {
                tracker.reset();
                open = false;
                None
            }
            _ => tracker.touch_motion(slot(id), place, ts(step)),
        };
        match event {
            None => {}
            Some(GestureEvent::Begin { direction, timestamp, .. }) => {
                assert!(!open);
                assert_eq!(direction, tracker.direction());
                assert_eq!(timestamp, ts(step));
                open = true;
                begun += 1;
            }
            Some(GestureEvent::Update { timestamp, .. }) => {
                assert!(open);
                assert_eq!(timestamp, ts(step));
            }
            Some(GestureEvent::End { timestamp }) => {
                assert!(open);
                assert_eq!(timestamp, ts(step));
                open = false;
            }
            Some(GestureEvent::Cancel) => assert!(!open),
        }
        assert_eq!(tracker.is_active(), open);
    }
    assert!(begun > 100);
}

#[test]
fn order_of_fingers_does_not_matter_on_a_grid() {
    let fingers = [(0.125, 7.5), (1919.75, 0.25), (33.0, 1079.875), (5.5, 6.625), (801.0, 2.0)];
    let mut expected = None;
    for round in 0..200 {
        let mut tracker = TouchSwipeGestureTracker::new(fingers.len());
        for i in 0..fingers.len() {
            let id = (i + round) % fingers.len();
            let (x, y) = fingers[id];
            tracker.touch_down(slot(id as u32), pt(x, y));
        }
        let event = tracker.touch_motion(slot(1), pt(2500.5, 10.25), ts(1));
        assert!(event.is_some());
        if expected.is_none() {
            expected = event;
        }
        match (event, expected) {
            (
                Some(GestureEvent::Begin { delta_x: x, delta_y: y, .. }),
                Some(GestureEvent::Begin { delta_x, delta_y, .. }),
            ) => {
                assert_eq!(x.to_bits(), delta_x.to_bits());
                assert_eq!(y.to_bits(), delta_y.to_bits());
            }
            other => panic!("expected Begin, got {other:?}"),
        }
    }
}

#[test]
fn deltas_round_as_doubles_do() {
    let mut tracker = TouchSwipeGestureTracker::new(3);
    let start = [(0.1, 0.2), (0.3, 0.7), (1.1, 100.3)];
    for (id, (x, y)) in start.iter().enumerate() {
        tracker.touch_down(slot(id as u32), pt(*x, *y));
    }
    let event = tracker.touch_motion(slot(1), pt(77.7, -33.3), ts(1));
    match event {
        Some(GestureEvent::Begin { delta_x, delta_y, .. }) => {
            assert!((float(delta_x) - 77.4 / 3.0).abs() < 1e-12);
            assert!((float(delta_y) + 34.0 / 3.0).abs() < 1e-12);
        }
        other => panic!("expected Begin, got {other:?}"),
    }
}

#[test]
fn slots_with_different_numbers_differ() {
    assert_eq!(slot(3), slot(3));
    assert_ne!(slot(3), slot(4));
    assert_ne!(slot(0), TouchSlot::from(None));
    assert_ne!(slot(0).to_key(), TouchSlot::from(None).to_key());
    assert_ne!(slot(u32::MAX).to_key(), TouchSlot::from(None).to_key());
}

/// A course of three fingers from the given place: it begins and updates a gesture, with a finger
/// put down in between that does not belong to it.
fn course(x: f64, y: f64, scale: f64) -> Vec<Option<GestureEvent>> {
    let at = |dx: f64, dy: f64| pt(x + dx * scale, y + dy * scale);
    let mut tracker = TouchSwipeGestureTracker::new(3);
    tracker.touch_down(slot(0), at(0.0, 0.0));
    tracker.touch_down(slot(1), at(30.0, 6.0));
    tracker.touch_down(slot(2), at(60.0, -3.0));
    vec![
        tracker.touch_motion(slot(0), at(15.0, 3.0), ts(1)),
        tracker.touch_motion(slot(1), at(90.0, 9.0), ts(2)),
        tracker.touch_motion(slot(2), at(63.0, -30.0), ts(3)),
        tracker.touch_down(slot(3), at(500.0, 500.0)),
        tracker.touch_motion(slot(3), at(600.0, 600.0), ts(4)),
        tracker.touch_motion(slot(0), at(-6.0, 12.0), ts(5)),
        tracker.touch_motion(slot(1), at(30.0, 0.0), ts(6)),
    ]
}

fn reported(events: &[Option<GestureEvent>]) -> (f64, f64) {
    let mut x = 0.0;
    let mut y = 0.0;
    for event in events {
        match event {
            Some(GestureEvent::Begin { delta_x, delta_y, .. })
            | Some(GestureEvent::Update { delta_x, delta_y, .. }) => {
                x += float(*delta_x);
                y += float(*delta_y);
            }
            _ => {}
        }
    }
    (x, y)
}

#[test]
fn deltas_of_a_gesture_add_up() {
    let events = course(120.0, 240.0, 1.0);
    assert!(events[0].is_none());
    assert!(matches!(events[1], Some(GestureEvent::Begin { .. })));
    assert!(events[3].is_none() && events[4].is_none());
    // The centroid of the start is (150, 241): it moves by (25, 2) up to the begin event.
    assert_eq!(reported(&events[..2]), (25.0, 2.0));
    assert_eq!(reported(&events[..3]), (26.0, -7.0));
    assert_eq!(reported(&events), (-1.0, -7.0));
}

#[test]
fn rounded_deltas_nearly_add_up() {
    let (x, y) = reported(&course(0.1, 0.7, 1.1));
    assert!((x + 1.1).abs() < 1e-12);
    assert!((y + 7.7).abs() < 1e-12);
}

#[test]
fn only_displacement_matters_on_a_grid() {
    let expected = course(0.0, 0.0, 1.0);
    assert!(matches!(
        expected[1],
        Some(GestureEvent::Begin { direction: SwipeDirection::Horizontal, .. })
    ));
    assert!(matches!(expected[2], Some(GestureEvent::Update { .. })));
    for (x, y) in [(1000.5, -37.25), (-640.0, 3.125), (1e6, 1e6)] {
        assert_eq!(course(x, y, 1.0), expected);
    }
}

#[test]
fn only_displacement_matters_where_nothing_is_rounded() {
    // One finger, as far out as doubles tell apart whole pixels two by two.
    let alone = |x: f64, y: f64| {
        let mut tracker = TouchSwipeGestureTracker::new(1);
        tracker.touch_down(slot(0), pt(x, y));
        vec![
            tracker.touch_motion(slot(0), pt(x + 20.0, y), ts(1)),
            tracker.touch_motion(slot(0), pt(x + 24.0, y - 2.0), ts(2)),
        ]
    };
    let far = 9007199254740992.0;
    let expected = alone(0.0, 0.0);
    match expected[1] {
        Some(GestureEvent::Update { delta_x, delta_y, .. }) => {
            assert_eq!((float(delta_x), float(delta_y)), (4.0, -2.0));
        }
        other => panic!("expected Update, got {other:?}"),
    }
    assert_eq!(alone(far, far), expected);

    // Two fingers whose coordinates nearly cancel.
    let apart = |distance: f64| {
        let wide = 1152921504606846976.0;
        let mut tracker = TouchSwipeGestureTracker::new(2);
        tracker.touch_down(slot(0), pt(wide + distance, 0.0));
        tracker.touch_down(slot(1), pt(-wide + distance, 0.0));
        tracker.touch_motion(slot(1), pt(-wide + distance + 512.0, 0.0), ts(1))
    };
    match apart(0.0) {
        Some(GestureEvent::Begin { delta_x, delta_y, direction, .. }) => {
            assert_eq!((float(delta_x), float(delta_y)), (256.0, 0.0));
            assert_eq!(direction, SwipeDirection::Horizontal);
        }
        other => panic!("expected Begin, got {other:?}"),
    }
    assert_eq!(apart(2560.0), apart(0.0));
}

#[test]
fn zero_movement_is_positive_wherever_it_happens() {
    for start in [-0.0, 0.0, -300.0, 300.0] {
        let mut tracker = TouchSwipeGestureTracker::new(1);
        tracker.touch_down(slot(0), pt(start, 0.0));
        match tracker.touch_motion(slot(0), pt(start, 40.0), ts(1)) {
            Some(GestureEvent::Begin { delta_x, .. }) => assert_eq!(delta_x.to_bits(), 0),
            other => panic!("expected Begin, got {other:?}"),
        }
    }
}
