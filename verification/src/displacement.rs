//! When the place of the fingers on the screen does not matter.
//!
//! A gesture is a displacement: where every mean and every difference comes out without rounding,
//! shifting all positions by one vector changes neither whether a gesture is recognized nor what it
//! reports.

use std::time::Duration;

use vstd::prelude::*;

use crate::binary64::Binary64;
use crate::geometry::{centroid, Axis, Point, TouchSlot};
use crate::summation::{
    averages_exactly, centroid_difference_on_a_grid_is_exact, centroid_on_a_grid_is_exact,
    coordinate_sum, difference_is_exact, lemma_exact_mean_of_zero, lemma_value_determines,
    mean_is_exact,
};
use crate::touch_swipe_tracker::{dominant_direction, positions, Phase, TrackerState};

verus! {

/// Along an axis, every given slot lies farther on in `to` than in `from` by the same distance.
pub open spec fn shifted(
    keys: Seq<u64>,
    from: Map<u64, Point>,
    to: Map<u64, Point>,
    axis: Axis,
    distance: int,
) -> bool {
    forall|i: int|
        0 <= i < keys.len() ==> (#[trigger] to[keys[i]]).along(axis).value() == from[keys[i]].along(
            axis,
        ).value() + distance
}

/// Every given slot lies in `to` where it lies in `from`, shifted by one vector.
pub open spec fn shifted_by(
    keys: Seq<u64>,
    from: Map<u64, Point>,
    to: Map<u64, Point>,
    x_distance: int,
    y_distance: int,
) -> bool {
    shifted(keys, from, to, Axis::X, x_distance) && shifted(keys, from, to, Axis::Y, y_distance)
}

/// How far the centroid of the given slots comes along an axis is computed without rounding.
pub open spec fn movement_is_exact(
    keys: Seq<u64>,
    from: Map<u64, Point>,
    to: Map<u64, Point>,
    axis: Axis,
) -> bool {
    &&& mean_is_exact(keys, from, axis)
    &&& mean_is_exact(keys, to, axis)
    &&& difference_is_exact(centroid(positions(keys, from)), centroid(positions(keys, to)), axis)
}

/// How far the centroid of the given slots comes is computed without rounding.
pub open spec fn moves_exactly(
    keys: Seq<u64>,
    from: Map<u64, Point>,
    to: Map<u64, Point>,
) -> bool {
    movement_is_exact(keys, from, to, Axis::X) && movement_is_exact(keys, from, to, Axis::Y)
}

/// A shift moves a sum by its distance for every slot.
proof fn lemma_shifted_sum(
    keys: Seq<u64>,
    from: Map<u64, Point>,
    to: Map<u64, Point>,
    axis: Axis,
    distance: int,
)
    requires
        shifted(keys, from, to, axis, distance),
    ensures
        coordinate_sum(keys, to, axis) == coordinate_sum(keys, from, axis) + keys.len() * distance,
    decreases keys.len(),
{
    if keys.len() == 0 {
        assert(0 * distance == 0);
    } else {
        let rest: Seq<u64> = keys.drop_last();
        assert(forall|i: int| 0 <= i < rest.len() ==> rest[i] == keys[i]);
        assert(shifted(rest, from, to, axis, distance));
        lemma_shifted_sum(rest, from, to, axis, distance);
        let _ = to[keys[keys.len() - 1]];
        assert((rest.len() + 1) * distance == rest.len() * distance + distance)
            by (nonlinear_arith);
    }
}

/// An exact movement is the mean of the movements, and zero comes out positive.
proof fn lemma_exact_movement(
    keys: Seq<u64>,
    from: Map<u64, Point>,
    to: Map<u64, Point>,
    axis: Axis,
)
    requires
        movement_is_exact(keys, from, to, axis),
    ensures
        ({
            let delta: Binary64 = centroid(positions(keys, to)).spec_minus(
                centroid(positions(keys, from)),
            ).along(axis);
            &&& delta.value() * keys.len() == coordinate_sum(keys, to, axis) - coordinate_sum(
                keys,
                from,
                axis,
            )
            &&& delta.value() == 0 ==> delta.bits == 0
        }),
{
    let before: Binary64 = centroid(positions(keys, from)).along(axis);
    let after: Binary64 = centroid(positions(keys, to)).along(axis);
    let count: nat = keys.len();
    assert((after.value() - before.value()) * count == after.value() * count - before.value()
        * count) by (nonlinear_arith);
    assert(before.spec_negated().value() == -before.value());
    if after.value() == 0 {
        lemma_exact_mean_of_zero(keys, to, axis);
    }
}

/// The difference of two centroids along an axis stays the same, to the bit, when every position
/// is shifted by the same distance.
proof fn lemma_difference_ignores_place(
    keys: Seq<u64>,
    from: Map<u64, Point>,
    to: Map<u64, Point>,
    shifted_from: Map<u64, Point>,
    shifted_to: Map<u64, Point>,
    axis: Axis,
    distance: int,
)
    requires
        shifted(keys, from, shifted_from, axis, distance),
        shifted(keys, to, shifted_to, axis, distance),
        movement_is_exact(keys, from, to, axis),
        movement_is_exact(keys, shifted_from, shifted_to, axis),
    ensures
        centroid(positions(keys, to)).spec_minus(centroid(positions(keys, from))).along(axis)
            == centroid(positions(keys, shifted_to)).spec_minus(
            centroid(positions(keys, shifted_from)),
        ).along(axis),
{
    if keys.len() > 0 {
        lemma_exact_movement(keys, from, to, axis);
        lemma_exact_movement(keys, shifted_from, shifted_to, axis);
        lemma_shifted_sum(keys, from, shifted_from, axis, distance);
        lemma_shifted_sum(keys, to, shifted_to, axis, distance);
        let here: Binary64 = centroid(positions(keys, to)).spec_minus(
            centroid(positions(keys, from)),
        ).along(axis);
        let there: Binary64 = centroid(positions(keys, shifted_to)).spec_minus(
            centroid(positions(keys, shifted_from)),
        ).along(axis);
        let count: nat = keys.len();
        assert(here.value() == there.value()) by (nonlinear_arith)
            requires
                here.value() * count == there.value() * count,
                count > 0,
        ;
        lemma_value_determines(here, there);
    }
}

/// How far a centroid comes does not depend on the place: shifting both the positions it starts
/// from and those it comes to by one vector leaves the difference the same, to the bit.
pub proof fn centroid_movement_ignores_place(
    keys: Seq<u64>,
    from: Map<u64, Point>,
    to: Map<u64, Point>,
    shifted_from: Map<u64, Point>,
    shifted_to: Map<u64, Point>,
    x_distance: int,
    y_distance: int,
)
    requires
        shifted_by(keys, from, shifted_from, x_distance, y_distance),
        shifted_by(keys, to, shifted_to, x_distance, y_distance),
        moves_exactly(keys, from, to),
        moves_exactly(keys, shifted_from, shifted_to),
    ensures
        centroid(positions(keys, to)).spec_minus(centroid(positions(keys, from))) == centroid(
            positions(keys, shifted_to),
        ).spec_minus(centroid(positions(keys, shifted_from))),
{
    lemma_difference_ignores_place(
        keys,
        from,
        to,
        shifted_from,
        shifted_to,
        Axis::X,
        x_distance,
    );
    lemma_difference_ignores_place(
        keys,
        from,
        to,
        shifted_from,
        shifted_to,
        Axis::Y,
        y_distance,
    );
}

/// Where on the screen the fingers are does not matter, only their displacement: of two trackers
/// whose start and current positions differ by one vector, both recognize a gesture or neither
/// does, in the same direction and with the same event, wherever the movement of both is computed
/// without rounding.
pub proof fn only_displacement_matters(
    a: TrackerState,
    b: TrackerState,
    timestamp: Duration,
    x_distance: int,
    y_distance: int,
)
    requires
        b.tracked_slots == a.tracked_slots,
        shifted_by(a.tracked_slots, a.start, b.start, x_distance, y_distance),
        shifted_by(a.tracked_slots, a.slots, b.slots, x_distance, y_distance),
        moves_exactly(a.tracked_slots, a.start, a.slots),
        moves_exactly(b.tracked_slots, b.start, b.slots),
    ensures
        b.travelled() == a.travelled(),
        b.recognizes() == a.recognizes(),
        dominant_direction(b.travelled()) == dominant_direction(a.travelled()),
        b.recognition_event(timestamp) == a.recognition_event(timestamp),
{
    centroid_movement_ignores_place(
        a.tracked_slots,
        a.start,
        a.slots,
        b.start,
        b.slots,
        x_distance,
        y_distance,
    );
}

/// The same of a whole step: of two trackers that differ only in where the tracked fingers are, by
/// one vector, a finger that moves by the same displacement gets the same event out of both, be it
/// a begin or an update, and they go on in the same phase and direction.
pub proof fn motion_events_ignore_place(
    a: TrackerState,
    b: TrackerState,
    slot: TouchSlot,
    a_pos: Point,
    b_pos: Point,
    timestamp: Duration,
    x_distance: int,
    y_distance: int,
)
    requires
        a.valid(),
        b.valid(),
        b.phase == a.phase,
        b.direction == a.direction,
        b.tracked_slots == a.tracked_slots,
        b.slots.dom() == a.slots.dom(),
        shifted_by(a.tracked_slots, a.start, b.start, x_distance, y_distance),
        shifted_by(a.tracked_slots, a.slots, b.slots, x_distance, y_distance),
        b_pos.x.value() == a_pos.x.value() + x_distance,
        b_pos.y.value() == a_pos.y.value() + y_distance,
        a.phase == Phase::Recognizing ==> {
            &&& moves_exactly(a.tracked_slots, a.start, a.moved(slot, a_pos).slots)
            &&& moves_exactly(b.tracked_slots, b.start, b.moved(slot, b_pos).slots)
        },
        a.phase == Phase::Active ==> {
            &&& moves_exactly(a.tracked_slots, a.slots, a.moved(slot, a_pos).slots)
            &&& moves_exactly(b.tracked_slots, b.slots, b.moved(slot, b_pos).slots)
        },
    ensures
        b.motion_event(slot, b_pos, timestamp) == a.motion_event(slot, a_pos, timestamp),
        b.after_motion(slot, b_pos).phase == a.after_motion(slot, a_pos).phase,
        b.after_motion(slot, b_pos).direction == a.after_motion(slot, a_pos).direction,
{
    let a_moved: TrackerState = a.moved(slot, a_pos);
    let b_moved: TrackerState = b.moved(slot, b_pos);
    let keys: Seq<u64> = a.tracked_slots;
    assert(a.slots.contains_key(slot.key()) == b.slots.contains_key(slot.key())) by {
        assert(a.slots.dom().contains(slot.key()) == b.slots.dom().contains(slot.key()));
    }
    assert(shifted_by(keys, a_moved.slots, b_moved.slots, x_distance, y_distance)) by {
        assert forall|i: int| 0 <= i < keys.len() implies {
            let after: Point = #[trigger] b_moved.slots[keys[i]];
            let before: Point = a_moved.slots[keys[i]];
            &&& after.x.value() == before.x.value() + x_distance
            &&& after.y.value() == before.y.value() + y_distance
        } by {
            let _ = b.slots[keys[i]];
        }
    }
    match a.phase {
        Phase::Idle => {},
        Phase::Recognizing => {
            only_displacement_matters(a_moved, b_moved, timestamp, x_distance, y_distance);
        },
        Phase::Active => {
            centroid_movement_ignores_place(
                keys,
                a.slots,
                a_moved.slots,
                b.slots,
                b_moved.slots,
                x_distance,
                y_distance,
            );
        },
    }
}

/// The given slots, where there are any, average exactly along both axes.
pub open spec fn centroid_is_exact(
    keys: Seq<u64>,
    at: Map<u64, Point>,
    x_grid: nat,
    y_grid: nat,
) -> bool {
    keys.len() > 0 ==> {
        &&& averages_exactly(keys, at, Axis::X, x_grid)
        &&& averages_exactly(keys, at, Axis::Y, y_grid)
    }
}

/// On a grid that holds the means too, nothing is rounded: what is said here of exact movements
/// holds of fingers on a touchscreen.
pub proof fn movement_on_a_grid_is_exact(
    keys: Seq<u64>,
    from: Map<u64, Point>,
    to: Map<u64, Point>,
    x_grid: nat,
    y_grid: nat,
)
    requires
        centroid_is_exact(keys, from, x_grid, y_grid),
        centroid_is_exact(keys, to, x_grid, y_grid),
    ensures
        moves_exactly(keys, from, to),
{
    if keys.len() > 0 {
        centroid_on_a_grid_is_exact(keys, from, Axis::X, x_grid);
        centroid_on_a_grid_is_exact(keys, from, Axis::Y, y_grid);
        centroid_on_a_grid_is_exact(keys, to, Axis::X, x_grid);
        centroid_on_a_grid_is_exact(keys, to, Axis::Y, y_grid);
        centroid_difference_on_a_grid_is_exact(keys, from, to, Axis::X, x_grid);
        centroid_difference_on_a_grid_is_exact(keys, from, to, Axis::Y, y_grid);
    }
}

/// On a grid, where on the screen the fingers are does not matter for recognition.
pub proof fn only_displacement_matters_on_a_grid(
    a: TrackerState,
    b: TrackerState,
    timestamp: Duration,
    x_distance: int,
    y_distance: int,
    x_grid: nat,
    y_grid: nat,
)
    requires
        b.tracked_slots == a.tracked_slots,
        shifted_by(a.tracked_slots, a.start, b.start, x_distance, y_distance),
        shifted_by(a.tracked_slots, a.slots, b.slots, x_distance, y_distance),
        centroid_is_exact(a.tracked_slots, a.start, x_grid, y_grid),
        centroid_is_exact(a.tracked_slots, a.slots, x_grid, y_grid),
        centroid_is_exact(b.tracked_slots, b.start, x_grid, y_grid),
        centroid_is_exact(b.tracked_slots, b.slots, x_grid, y_grid),
    ensures
        b.travelled() == a.travelled(),
        b.recognizes() == a.recognizes(),
        dominant_direction(b.travelled()) == dominant_direction(a.travelled()),
        b.recognition_event(timestamp) == a.recognition_event(timestamp),
{
    movement_on_a_grid_is_exact(a.tracked_slots, a.start, a.slots, x_grid, y_grid);
    movement_on_a_grid_is_exact(b.tracked_slots, b.start, b.slots, x_grid, y_grid);
    only_displacement_matters(a, b, timestamp, x_distance, y_distance);
}

/// On a grid, where on the screen the fingers are does not matter for what a moving finger causes.
pub proof fn motion_events_ignore_place_on_a_grid(
    a: TrackerState,
    b: TrackerState,
    slot: TouchSlot,
    a_pos: Point,
    b_pos: Point,
    timestamp: Duration,
    x_distance: int,
    y_distance: int,
    x_grid: nat,
    y_grid: nat,
)
    requires
        a.valid(),
        b.valid(),
        b.phase == a.phase,
        b.direction == a.direction,
        b.tracked_slots == a.tracked_slots,
        b.slots.dom() == a.slots.dom(),
        shifted_by(a.tracked_slots, a.start, b.start, x_distance, y_distance),
        shifted_by(a.tracked_slots, a.slots, b.slots, x_distance, y_distance),
        b_pos.x.value() == a_pos.x.value() + x_distance,
        b_pos.y.value() == a_pos.y.value() + y_distance,
        centroid_is_exact(a.tracked_slots, a.moved(slot, a_pos).slots, x_grid, y_grid),
        centroid_is_exact(b.tracked_slots, b.moved(slot, b_pos).slots, x_grid, y_grid),
        a.phase == Phase::Recognizing ==> {
            &&& centroid_is_exact(a.tracked_slots, a.start, x_grid, y_grid)
            &&& centroid_is_exact(b.tracked_slots, b.start, x_grid, y_grid)
        },
        a.phase == Phase::Active ==> {
            &&& centroid_is_exact(a.tracked_slots, a.slots, x_grid, y_grid)
            &&& centroid_is_exact(b.tracked_slots, b.slots, x_grid, y_grid)
        },
    ensures
        b.motion_event(slot, b_pos, timestamp) == a.motion_event(slot, a_pos, timestamp),
        b.after_motion(slot, b_pos).phase == a.after_motion(slot, a_pos).phase,
        b.after_motion(slot, b_pos).direction == a.after_motion(slot, a_pos).direction,
{
    let keys: Seq<u64> = a.tracked_slots;
    let a_to: Map<u64, Point> = a.moved(slot, a_pos).slots;
    let b_to: Map<u64, Point> = b.moved(slot, b_pos).slots;
    match a.phase {
        Phase::Idle => {},
        Phase::Recognizing => {
            movement_on_a_grid_is_exact(keys, a.start, a_to, x_grid, y_grid);
            movement_on_a_grid_is_exact(keys, b.start, b_to, x_grid, y_grid);
        },
        Phase::Active => {
            movement_on_a_grid_is_exact(keys, a.slots, a_to, x_grid, y_grid);
            movement_on_a_grid_is_exact(keys, b.slots, b_to, x_grid, y_grid);
        },
    }
    motion_events_ignore_place(a, b, slot, a_pos, b_pos, timestamp, x_distance, y_distance);
}

} // verus!
