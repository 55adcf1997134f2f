//! Recognition of multi-finger touchscreen swipes.
//!
//! A [`touch_swipe_tracker::TouchSwipeGestureTracker`] follows the fingers and reports gestures; a
//! [`touch_swipe_grab::TouchSwipeGrab`] turns those into calls on a layout.

pub mod arithmetic;
pub mod averages;
pub mod binary64;
pub mod deltas;
pub mod displacement;
pub mod fingers;
pub mod geometry;
pub mod laws;
pub mod layout;
pub mod recognition;
pub mod rounding;
pub mod summation;
pub mod threshold;
pub mod touch_swipe_grab;
pub mod touch_swipe_tracker;
