//! Touch swipe gesture tracker.
//!
//! Tracks active touch slots and recognizes when enough fingers are swiping together in the same
//! direction, producing synthetic gesture begin / update / end signals.

use std::collections::HashMap;
use std::time::Duration;

use vstd::prelude::*;

use crate::binary64::Binary64;
use crate::geometry::{centroid, total, Point, TouchSlot};
use crate::laws::{step, Touch};

verus! {

broadcast use vstd::std_specs::hash::group_hash_axioms;

/// Recognition threshold in logical pixels, 16, as the bits of a double. The cumulative movement
/// of the centroid must exceed this before a gesture is recognized. The same as for touchpads in
/// GNOME Shell and libadwaita.
pub const GESTURE_THRESHOLD_PX: u64 = 0x4030_0000_0000_0000;

/// Maximum number of touch slots we track (sanity bound).
pub const MAX_SLOTS: usize = 10;

#[derive(Debug, Clone, Copy, PartialEq, Eq, Structural)]
pub enum SwipeDirection {
    Horizontal,
    Vertical,
}

#[derive(Debug, Clone, Copy, PartialEq)]
pub enum GestureEvent {
    Begin { direction: SwipeDirection, delta_x: Binary64, delta_y: Binary64, timestamp: Duration },
    Update { delta_x: Binary64, delta_y: Binary64, timestamp: Duration },
    End { timestamp: Duration },
    Cancel,
}

#[derive(Debug, Clone, Copy, PartialEq, Eq, Structural)]
pub enum Phase {
    /// Collecting touch-down events, not yet enough fingers.
    Idle,
    /// We have enough slots but haven't exceeded the movement threshold yet.
    Recognizing,
    /// Gesture is active: direction is locked and we emit updates.
    Active,
}

#[derive(Debug)]
pub struct TouchSwipeGestureTracker {
    /// All currently tracked touch slots, by key, and their latest positions.
    slots: HashMap<u64, Point>,
    /// The slots that were present when we entered the Recognizing phase. These are the ones whose
    /// movement we average for the centroid delta. None joins once recognition begins.
    tracked_slots: Vec<u64>,
    /// Positions of the tracked slots at the moment we entered Recognizing.
    start_positions: HashMap<u64, Point>,
    /// Previous centroid position, used to compute per-update deltas.
    prev_centroid: Point,
    phase: Phase,
    direction: SwipeDirection,
    /// Minimum number of simultaneous touch points required to start a gesture.
    min_fingers: usize,
}

/// What a tracker knows. Slots are named by their keys.
#[verifier::ext_equal]
pub ghost struct TrackerState {
    /// Latest position of every slot that is down.
    pub slots: Map<u64, Point>,
    /// The slots whose movement is averaged, in the order in which they are added up.
    pub tracked_slots: Seq<u64>,
    /// Where the averaged slots were when recognition began.
    pub start: Map<u64, Point>,
    /// The centroid from which the next update is measured.
    pub prev_centroid: Point,
    pub phase: Phase,
    pub direction: SwipeDirection,
    pub min_fingers: usize,
}

/// The positions of the given slots, in their order.
pub open spec fn positions(keys: Seq<u64>, at: Map<u64, Point>) -> Seq<Point> {
    keys.map_values(|key: u64| at[key])
}

/// `keys` lists the slots of `at`, each once, in some order.
pub open spec fn lists(keys: Seq<u64>, at: Map<u64, Point>) -> bool {
    keys.no_duplicates() && keys.to_set() == at.dom()
}

/// The length of a displacement, computed in doubles, exceeds the recognition threshold.
pub open spec fn exceeds_threshold(delta: Point) -> bool {
    let threshold: Binary64 = Binary64 { bits: GESTURE_THRESHOLD_PX };
    let dist_sq: Binary64 = delta.x.spec_times(delta.x).spec_plus(delta.y.spec_times(delta.y));
    threshold.spec_times(threshold).spec_less_than(dist_sq)
}

/// The axis with more movement; vertical where neither has.
pub open spec fn dominant_direction(delta: Point) -> SwipeDirection {
    if delta.y.spec_abs().spec_less_than(delta.x.spec_abs()) {
        SwipeDirection::Horizontal
    } else {
        SwipeDirection::Vertical
    }
}

impl TrackerState {
    /// A tracker that has seen nothing.
    pub open spec fn idle(min_fingers: usize) -> TrackerState {
        TrackerState {
            slots: Map::empty(),
            tracked_slots: Seq::empty(),
            start: Map::empty(),
            prev_centroid: Point::spec_origin(),
            phase: Phase::Idle,
            direction: SwipeDirection::Horizontal,
            min_fingers,
        }
    }

    /// Current centroid of the tracked slots.
    pub open spec fn centroid(self) -> Point {
        centroid(positions(self.tracked_slots, self.slots))
    }

    /// Centroid of the tracked slots when recognition began.
    pub open spec fn start_centroid(self) -> Point {
        centroid(positions(self.tracked_slots, self.start))
    }

    /// How far the centroid has come since recognition began.
    pub open spec fn travelled(self) -> Point {
        self.centroid().spec_minus(self.start_centroid())
    }

    /// What always holds of a tracker.
    pub open spec fn valid(self) -> bool {
        &&& self.slots.dom().finite()
        &&& self.slots.len() <= MAX_SLOTS
        &&& self.tracked_slots.no_duplicates()
        &&& self.tracked_slots.to_set().subset_of(self.slots.dom())
        &&& self.tracked_slots.to_set() == self.start.dom()
        &&& match self.phase {
            Phase::Idle => {
                &&& self == (TrackerState { slots: self.slots, ..TrackerState::idle(self.min_fingers) })
                &&& self.slots.len() < self.min_fingers || self.slots.len() == 0
            },
            Phase::Recognizing => {
                &&& self.slots.len() >= self.min_fingers
                &&& self.direction == SwipeDirection::Horizontal
            },
            Phase::Active => {
                &&& self.tracked_slots.len() > 0
                &&& self.prev_centroid == self.centroid()
            },
        }
    }

    /// A finger is put down.
    pub open spec fn down_leads_to(self, slot: TouchSlot, pos: Point, post: TrackerState) -> bool {
        let slots: Map<u64, Point> = self.slots.insert(slot.key(), pos);
        if self.phase == Phase::Active || self.slots.len() >= MAX_SLOTS {
            post == self
        } else if self.phase == Phase::Idle && slots.len() >= self.min_fingers {
            &&& lists(post.tracked_slots, slots)
            &&& post == (TrackerState {
                slots,
                tracked_slots: post.tracked_slots,
                start: slots,
                prev_centroid: centroid(positions(post.tracked_slots, slots)),
                phase: Phase::Recognizing,
                ..self
            })
        } else {
            post == (TrackerState { slots, ..self })
        }
    }

    /// The tracker once it knows the new position of a slot, before it acts on it.
    pub open spec fn moved(self, slot: TouchSlot, pos: Point) -> TrackerState {
        TrackerState { slots: self.slots.insert(slot.key(), pos), ..self }
    }

    /// With the positions as they are, the movement counts as a gesture.
    pub open spec fn recognizes(self) -> bool {
        self.tracked_slots.len() > 0 && exceeds_threshold(self.travelled())
    }

    /// The event that recognition causes, with the positions as they are.
    pub open spec fn recognition_event(self, timestamp: Duration) -> Option<GestureEvent> {
        let delta: Point = self.travelled();
        if self.recognizes() {
            Some(
                GestureEvent::Begin {
                    direction: dominant_direction(delta),
                    delta_x: delta.x,
                    delta_y: delta.y,
                    timestamp,
                },
            )
        } else {
            None
        }
    }

    /// The gesture begins if the movement counts as one.
    pub open spec fn after_recognition(self) -> TrackerState {
        if self.recognizes() {
            TrackerState {
                phase: Phase::Active,
                direction: dominant_direction(self.travelled()),
                prev_centroid: self.centroid(),
                ..self
            }
        } else {
            self
        }
    }

    /// A finger moves.
    pub open spec fn after_motion(self, slot: TouchSlot, pos: Point) -> TrackerState {
        let moved: TrackerState = self.moved(slot, pos);
        if !self.slots.contains_key(slot.key()) {
            self
        } else if self.phase == Phase::Recognizing {
            moved.after_recognition()
        } else if self.phase == Phase::Active && self.tracked_slots.contains(slot.key()) {
            TrackerState { prev_centroid: moved.centroid(), ..moved }
        } else {
            moved
        }
    }

    /// The event that a moving finger causes.
    pub open spec fn motion_event(
        self,
        slot: TouchSlot,
        pos: Point,
        timestamp: Duration,
    ) -> Option<GestureEvent> {
        let moved: TrackerState = self.moved(slot, pos);
        if !self.slots.contains_key(slot.key()) {
            None
        } else if self.phase == Phase::Recognizing {
            moved.recognition_event(timestamp)
        } else if self.phase == Phase::Active && self.tracked_slots.contains(slot.key()) {
            let delta: Point = moved.centroid().spec_minus(self.prev_centroid);
            Some(GestureEvent::Update { delta_x: delta.x, delta_y: delta.y, timestamp })
        } else {
            None
        }
    }

    /// A finger is lifted.
    pub open spec fn after_up(self, slot: TouchSlot) -> TrackerState {
        let slots: Map<u64, Point> = self.slots.remove(slot.key());
        match self.phase {
            Phase::Active => if self.tracked_slots.contains(slot.key()) {
                TrackerState::idle(self.min_fingers)
            } else {
                TrackerState { slots, ..self }
            },
            Phase::Recognizing => if slots.len() < self.min_fingers {
                TrackerState::idle(self.min_fingers)
            } else {
                TrackerState {
                    slots,
                    tracked_slots: self.tracked_slots.filter(|key: u64| key != slot.key()),
                    start: self.start.remove(slot.key()),
                    ..self
                }
            },
            Phase::Idle => TrackerState { slots, ..self },
        }
    }

    /// The event that a lifted finger causes.
    pub open spec fn up_event(self, slot: TouchSlot, timestamp: Duration) -> Option<GestureEvent> {
        match self.phase {
            Phase::Active => if self.tracked_slots.contains(slot.key()) {
                Some(GestureEvent::End { timestamp })
            } else {
                None
            },
            Phase::Recognizing => if self.slots.remove(slot.key()).len() < self.min_fingers {
                Some(GestureEvent::Cancel)
            } else {
                None
            },
            Phase::Idle => None,
        }
    }
}

impl View for TouchSwipeGestureTracker {
    type V = TrackerState;

    closed spec fn view(&self) -> TrackerState {
        TrackerState {
            slots: self.slots@,
            tracked_slots: self.tracked_slots@,
            start: self.start_positions@,
            prev_centroid: self.prev_centroid,
            phase: self.phase,
            direction: self.direction,
            min_fingers: self.min_fingers,
        }
    }
}

impl TouchSwipeGestureTracker {
    /// A tracker that recognizes swipes of at least `min_fingers` fingers.
    pub fn new(min_fingers: usize) -> (tracker: Self)
        ensures
            tracker@ == TrackerState::idle(min_fingers),
            tracker@.valid(),
    {
        let tracker = Self {
            slots: HashMap::new(),
            tracked_slots: Vec::new(),
            start_positions: HashMap::new(),
            prev_centroid: Point::origin(),
            phase: Phase::Idle,
            direction: SwipeDirection::Horizontal,
            min_fingers,
        };
        assert(tracker@ == TrackerState::idle(min_fingers));
        assert(tracker@.tracked_slots.to_set() =~= tracker@.start.dom());
        tracker
    }

    /// Returns `true` if a gesture is currently active (recognized and emitting updates).
    pub fn is_active(&self) -> (active: bool)
        ensures
            active == (self@.phase == Phase::Active),
    {
        self.phase == Phase::Active
    }

    /// Returns the locked direction of the current gesture.
    ///
    /// Only meaningful when `is_active()` returns `true`.
    pub fn direction(&self) -> (direction: SwipeDirection)
        ensures
            direction == self@.direction,
    {
        self.direction
    }

    /// Resets the tracker to its idle state, cancelling any in-progress gesture.
    pub fn reset(&mut self)
        ensures
            final(self)@ == TrackerState::idle(old(self)@.min_fingers),
            step(old(self)@, Touch::Reset, None, final(self)@),
            final(self)@.valid(),
    {
        self.reset_internal();
    }

    fn reset_internal(&mut self)
        ensures
            final(self)@ == TrackerState::idle(old(self)@.min_fingers),
            final(self)@.valid(),
    {
        self.slots.clear();
        self.tracked_slots.clear();
        self.start_positions.clear();
        self.prev_centroid = Point::origin();
        self.phase = Phase::Idle;
        self.direction = SwipeDirection::Horizontal;
        // min_fingers is intentionally preserved across resets.
        assert(self@ == TrackerState::idle(old(self)@.min_fingers));
        assert(self@.tracked_slots.to_set() =~= self@.start.dom());
    }
}

/// Filtering out one slot leaves the others, each still once.
pub proof fn lemma_without(keys: Seq<u64>, gone: u64)
    requires
        keys.no_duplicates(),
    ensures
        keys.filter(|key: u64| key != gone).no_duplicates(),
        keys.filter(|key: u64| key != gone).to_set() == keys.to_set().remove(gone),
    decreases keys.len(),
{
    reveal(Seq::filter);
    let left: Seq<u64> = keys.filter(|key: u64| key != gone);
    if keys.len() == 0 {
        assert(left.to_set() =~= keys.to_set().remove(gone));
    } else {
        let rest: Seq<u64> = keys.drop_last();
        let rest_left: Seq<u64> = rest.filter(|key: u64| key != gone);
        lemma_without(rest, gone);
        assert(keys =~= rest.push(keys.last()));
        assert forall|key: u64| left.contains(key) <==> keys.contains(key) && key != gone by {
            assert(rest_left.to_set().contains(key) <==> rest.contains(key) && key != gone);
            assert(rest_left.contains(key) == rest_left.to_set().contains(key));
            if keys.contains(key) && key != keys.last() {
                let at: int = keys.index_of(key);
                assert(rest[at] == key);
            }
            if rest.contains(key) {
                let at: int = rest.index_of(key);
                assert(keys[at] == key);
            }
            if rest_left.contains(key) {
                let at: int = rest_left.index_of(key);
                assert(left[at] == key);
            }
            if key == keys.last() && key != gone {
                assert(left.last() == key);
            }
        }
        assert(left.to_set() =~= keys.to_set().remove(gone));
        assert(!rest.contains(keys.last()));
        assert(!rest_left.to_set().contains(keys.last()));
        assert(!rest_left.contains(keys.last()));
        assert(left.no_duplicates());
    }
}

/// There are at most as many tracked slots as slots.
proof fn lemma_tracked_bounded(keys: Seq<u64>, at: Map<u64, Point>)
    requires
        keys.no_duplicates(),
        keys.to_set().subset_of(at.dom()),
        at.dom().finite(),
    ensures
        keys.len() <= at.len(),
{
    keys.unique_seq_to_set();
    vstd::set_lib::lemma_len_subset(keys.to_set(), at.dom());
}

/// The keys of a map, in the order in which the map gives them.
fn keys_of(at: &HashMap<u64, Point>) -> (keys: Vec<u64>)
    ensures
        lists(keys@, at@),
{
    let mut keys: Vec<u64> = Vec::new();
    let ghost all: Seq<&u64> = vstd::std_specs::iter::IteratorSpec::remaining(&at.keys());
    for key in iter: at.keys()
        invariant
            iter.seq() == all,
            keys@.len() == iter.index(),
            forall|i: int| 0 <= i < keys@.len() ==> keys@[i] == *all[i],
    {
        keys.push(*key);
    }
    assert(keys@ =~= all.unref());
    keys
}

/// The average position of the given slots.
fn average(keys: &Vec<u64>, at: &HashMap<u64, Point>) -> (average: Point)
    requires
        keys.len() <= MAX_SLOTS,
        keys@.to_set().subset_of(at@.dom()),
    ensures
        average == centroid(positions(keys@, at@)),
{
    if keys.len() == 0 {
        return Point::origin();
    }
    let ghost points: Seq<Point> = positions(keys@, at@);
    let mut sum: Point = Point::origin();
    for i in 0..keys.len()
        invariant
            keys@.to_set().subset_of(at@.dom()),
            points == positions(keys@, at@),
            sum == total(points.take(i as int)),
    {
        proof {
            assert(keys@.to_set().contains(keys@[i as int]));
            assert(points.take(i + 1).drop_last() =~= points.take(i as int));
        }
        if let Some(pos) = at.get(&keys[i]) {
            sum = sum.plus(*pos);
        }
    }
    assert(points.take(keys@.len() as int) =~= points);
    Point { x: sum.x.over(keys.len()), y: sum.y.over(keys.len()) }
}

/// Whether a slot is among the given ones.
fn includes(keys: &Vec<u64>, wanted: u64) -> (found: bool)
    ensures
        found == keys@.contains(wanted),
{
    for i in 0..keys.len()
        invariant
            forall|j: int| 0 <= j < i ==> keys@[j] != wanted,
    {
        if keys[i] == wanted {
            return true;
        }
    }
    false
}

/// The given slots without one of them.
fn without(keys: &Vec<u64>, gone: u64) -> (left: Vec<u64>)
    ensures
        left@ == keys@.filter(|key: u64| key != gone),
{
    let mut left: Vec<u64> = Vec::new();
    let ghost stays = |key: u64| key != gone;
    proof {
        reveal(Seq::filter);
    }
    for i in 0..keys.len()
        invariant
            stays == (|key: u64| key != gone),
            left@ == keys@.take(i as int).filter(stays),
    {
        proof {
            reveal(Seq::filter);
            assert(keys@.take(i + 1).drop_last() =~= keys@.take(i as int));
        }
        if keys[i] != gone {
            left.push(keys[i]);
        }
    }
    assert(keys@.take(keys@.len() as int) =~= keys@);
    left
}

/// Putting a finger down keeps a tracker valid.
pub proof fn down_keeps_valid(pre: TrackerState, slot: TouchSlot, pos: Point, post: TrackerState)
    requires
        pre.valid(),
        pre.down_leads_to(slot, pos, post),
    ensures
        post.valid(),
{
}

/// Moving a finger keeps a tracker valid.
pub proof fn motion_keeps_valid(pre: TrackerState, slot: TouchSlot, pos: Point)
    requires
        pre.valid(),
    ensures
        pre.after_motion(slot, pos).valid(),
{
    let moved: TrackerState = pre.moved(slot, pos);
    let post: TrackerState = pre.after_motion(slot, pos);
    if pre.slots.contains_key(slot.key()) {
        assert(moved.slots.dom() =~= pre.slots.dom());
        if !pre.tracked_slots.contains(slot.key()) {
            assert(positions(pre.tracked_slots, moved.slots) =~= positions(
                pre.tracked_slots,
                pre.slots,
            ));
        }
    }
}

/// Lifting a finger keeps a tracker valid.
pub proof fn up_keeps_valid(pre: TrackerState, slot: TouchSlot)
    requires
        pre.valid(),
    ensures
        pre.after_up(slot).valid(),
{
    let post: TrackerState = pre.after_up(slot);
    idle_is_valid(pre.min_fingers);
    assert(post.slots == pre.slots.remove(slot.key()) || post == TrackerState::idle(
        pre.min_fingers,
    ));
    assert(pre.slots.remove(slot.key()).dom() =~= pre.slots.dom().remove(slot.key()));
    match pre.phase {
        Phase::Active => {
            if !pre.tracked_slots.contains(slot.key()) {
                assert(positions(pre.tracked_slots, post.slots) =~= positions(
                    pre.tracked_slots,
                    pre.slots,
                ));
            }
        },
        Phase::Recognizing => {
            lemma_without(pre.tracked_slots, slot.key());
        },
        Phase::Idle => {},
    }
}

/// A tracker that has seen nothing is valid.
pub proof fn idle_is_valid(min_fingers: usize)
    ensures
        TrackerState::idle(min_fingers).valid(),
{
    let idle: TrackerState = TrackerState::idle(min_fingers);
    assert(idle.tracked_slots.to_set() =~= idle.start.dom());
}

impl TouchSwipeGestureTracker {
    /// A finger is put down.
    pub fn touch_down(&mut self, slot: TouchSlot, pos: Point) -> (event: Option<GestureEvent>)
        requires
            old(self)@.valid(),
        ensures
            old(self)@.down_leads_to(slot, pos, final(self)@),
            step(old(self)@, Touch::Down { slot, pos }, event, final(self)@),
            final(self)@.valid(),
            event is None,
    {
        let ghost pre: TrackerState = self@;
        // If a gesture is already active, ignore additional fingers.
        if self.phase == Phase::Active {
            return None;
        }

        // Enforce the slot limit.
        if self.slots.len() >= MAX_SLOTS {
            return None;
        }

        self.slots.insert(slot.to_key(), pos);

        // Transition from Idle to Recognizing once we have enough fingers.
        if self.phase == Phase::Idle && self.slots.len() >= self.min_fingers {
            self.phase = Phase::Recognizing;
            self.tracked_slots = keys_of(&self.slots);
            self.start_positions = self.slots.clone();
            proof {
                lemma_tracked_bounded(self.tracked_slots@, self.slots@);
            }
            self.prev_centroid = self.centroid_of_tracked();
        }
        proof {
            assert(pre.down_leads_to(slot, pos, self@));
            down_keeps_valid(pre, slot, pos, self@);
        }
        None
    }

    /// A finger moves.
    pub fn touch_motion(&mut self, slot: TouchSlot, pos: Point, timestamp: Duration) -> (event:
        Option<GestureEvent>)
        requires
            old(self)@.valid(),
        ensures
            final(self)@ == old(self)@.after_motion(slot, pos),
            final(self)@.valid(),
            event == old(self)@.motion_event(slot, pos, timestamp),
            step(old(self)@, Touch::Motion { slot, pos, timestamp }, event, final(self)@),
    {
        let ghost pre: TrackerState = self@;
        let key: u64 = slot.to_key();
        proof {
            motion_keeps_valid(pre, slot, pos);
            lemma_tracked_bounded(self.tracked_slots@, self.slots@);
        }
        // Update stored position regardless of phase.
        if self.slots.contains_key(&key) {
            self.slots.insert(key, pos);
        } else {
            // Motion for unknown slot: ignore.
            return None;
        }
        assert(self@ == pre.moved(slot, pos));
        assert(self.slots@.dom() =~= pre.slots.dom());

        match self.phase {
            Phase::Idle => None,
            Phase::Recognizing => self.try_recognize(timestamp),
            Phase::Active => {
                // Only emit updates for motion on tracked slots.
                if !includes(&self.tracked_slots, key) {
                    return None;
                }
                let centroid: Point = self.centroid_of_tracked();
                let delta: Point = centroid.minus(self.prev_centroid);
                self.prev_centroid = centroid;
                Some(GestureEvent::Update { delta_x: delta.x, delta_y: delta.y, timestamp })
            },
        }
    }

    /// A finger is lifted.
    pub fn touch_up(&mut self, slot: TouchSlot, timestamp: Duration) -> (event: Option<
        GestureEvent,
    >)
        requires
            old(self)@.valid(),
        ensures
            final(self)@ == old(self)@.after_up(slot),
            final(self)@.valid(),
            event == old(self)@.up_event(slot, timestamp),
            step(old(self)@, Touch::Up { slot, timestamp }, event, final(self)@),
    {
        let ghost pre: TrackerState = self@;
        let key: u64 = slot.to_key();
        proof {
            up_keeps_valid(pre, slot);
        }
        self.slots.remove(&key);

        match self.phase {
            Phase::Active => {
                // If one of the original tracked slots lifts, end the gesture.
                if includes(&self.tracked_slots, key) {
                    self.reset_internal();
                    Some(GestureEvent::End { timestamp })
                } else {
                    None
                }
            },
            Phase::Recognizing => {
                // Lost a finger before recognition: check if we still have enough.
                self.tracked_slots = without(&self.tracked_slots, key);
                self.start_positions.remove(&key);
                if self.slots.len() < self.min_fingers {
                    self.reset_internal();
                    Some(GestureEvent::Cancel)
                } else {
                    None
                }
            },
            Phase::Idle => None,
        }
    }

    /// Compute the centroid of the currently tracked slots.
    fn centroid_of_tracked(&self) -> (centroid: Point)
        requires
            self@.tracked_slots.len() <= MAX_SLOTS,
            self@.tracked_slots.to_set().subset_of(self@.slots.dom()),
        ensures
            centroid == self@.centroid(),
    {
        average(&self.tracked_slots, &self.slots)
    }

    /// Check whether cumulative movement of the centroid exceeds the threshold.
    fn try_recognize(&mut self, timestamp: Duration) -> (event: Option<GestureEvent>)
        requires
            old(self)@.tracked_slots.len() <= MAX_SLOTS,
            old(self)@.tracked_slots.to_set().subset_of(old(self)@.slots.dom()),
            old(self)@.tracked_slots.to_set() == old(self)@.start.dom(),
        ensures
            final(self)@ == old(self)@.after_recognition(),
            event == old(self)@.recognition_event(timestamp),
    {
        if self.tracked_slots.len() == 0 {
            return None;
        }
        let centroid: Point = self.centroid_of_tracked();
        let start_centroid: Point = average(&self.tracked_slots, &self.start_positions);

        let delta: Point = centroid.minus(start_centroid);
        let dist_sq: Binary64 = delta.x.times(delta.x).plus(delta.y.times(delta.y));

        let threshold: Binary64 = Binary64::from_bits(GESTURE_THRESHOLD_PX);
        if !threshold.times(threshold).less_than(dist_sq) {
            return None;
        }

        // Lock the direction based on which axis has more movement.
        self.direction = if delta.y.abs().less_than(delta.x.abs()) {
            SwipeDirection::Horizontal
        } else {
            SwipeDirection::Vertical
        };

        self.phase = Phase::Active;
        self.prev_centroid = centroid;

        Some(
            GestureEvent::Begin {
                direction: self.direction,
                delta_x: delta.x,
                delta_y: delta.y,
                timestamp,
            },
        )
    }
}

} // verus!
