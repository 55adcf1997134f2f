# touch_swipe

Recognizes swipes of several fingers on a touchscreen and turns them into layout gestures:
horizontal swipes scroll the view, vertical ones switch workspaces.

## Layout

- `src/touch_swipe_tracker.rs`: the tracker. Fingers go down, move and lift; gestures begin, are
  updated, end or are cancelled.
- `src/touch_swipe_grab.rs`: the grab. Turns the tracker's events into calls on a layout.
- `src/geometry.rs`: touch slots, points and their centroid.
- `src/binary64.rs`, `src/rounding.rs`: double-precision arithmetic on bit patterns, proved to round
  correctly. Coordinates are doubles, and their bits come and go unchanged.
- `src/laws.rs`: what holds over any course of touches.
- `src/threshold.rs`: what the recognition threshold means for exact lengths.
- `src/deltas.rs`: how the deltas of one gesture add up to its whole movement.
- `src/displacement.rs`: when the place of the fingers on the screen does not matter.
- `src/summation.rs`: when their order does not matter, and when their centroid is exact.
- `tests/`: the library in use, and its arithmetic held against the processor's.
- `app/`: the grab as a smithay touch grab. It converts values and makes the calls; nothing in it
  is verified.

## What is trusted

`Duration::from_millis` gives equal durations for equal numbers of milliseconds.
