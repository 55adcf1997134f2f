//! Touch slots and positions.

use vstd::prelude::*;

use crate::binary64::Binary64;

verus! {

/// Identifies one touch point for as long as it stays down.
///
/// A device that tracks a single touch point has no slot number.
#[derive(Debug, Clone, Copy, PartialEq, Eq, Hash, Structural)]
pub struct TouchSlot {
    /// Slot number, where the device gives one.
    pub id: Option<u32>,
}

impl TouchSlot {
    /// The number by which a slot is found again.
    pub open spec fn key(self) -> u64 {
        match self.id {
            None => 0,
            Some(id) => (id + 1) as u64,
        }
    }

    /// Computes [`TouchSlot::key`].
    pub fn to_key(self) -> (key: u64)
        ensures
            key == self.key(),
    {
        match self.id {
            None => 0,
            Some(id) => id as u64 + 1,
        }
    }
}

/// No two slots share a key.
pub proof fn keys_tell_slots_apart(a: TouchSlot, b: TouchSlot)
    ensures
        a.key() == b.key() <==> a == b,
{
}

impl From<Option<u32>> for TouchSlot {
    fn from(id: Option<u32>) -> (slot: TouchSlot) {
        TouchSlot { id }
    }
}

impl vstd::std_specs::convert::FromSpecImpl<Option<u32>> for TouchSlot {
    open spec fn obeys_from_spec() -> bool {
        true
    }

    open spec fn from_spec(id: Option<u32>) -> TouchSlot {
        TouchSlot { id }
    }
}

/// A position, or a displacement, in logical pixels.
#[derive(Debug, Clone, Copy, PartialEq)]
pub struct Point {
    pub x: Binary64,
    pub y: Binary64,
}

/// One of the two axes.
pub ghost enum Axis {
    X,
    Y,
}

impl Point {
    /// The coordinate along an axis.
    pub open spec fn along(self, axis: Axis) -> Binary64 {
        match axis {
            Axis::X => self.x,
            Axis::Y => self.y,
        }
    }

    pub open spec fn spec_origin() -> Point {
        Point { x: Binary64 { bits: 0 }, y: Binary64 { bits: 0 } }
    }

    pub fn new(x: Binary64, y: Binary64) -> (point: Point)
        ensures
            point == (Point { x, y }),
    {
        Point { x, y }
    }

    /// The point at zero, zero.
    pub fn origin() -> (point: Point)
        ensures
            point == Point::spec_origin(),
    {
        Point { x: Binary64::zero(), y: Binary64::zero() }
    }

    /// Coordinates of both added, each rounded.
    pub open spec fn spec_plus(self, other: Point) -> Point {
        Point { x: self.x.spec_plus(other.x), y: self.y.spec_plus(other.y) }
    }

    /// `self + other`.
    pub fn plus(self, other: Point) -> (sum: Point)
        ensures
            sum == self.spec_plus(other),
    {
        Point { x: self.x.plus(other.x), y: self.y.plus(other.y) }
    }

    /// Coordinates of the other taken off, each rounded.
    pub open spec fn spec_minus(self, other: Point) -> Point {
        Point { x: self.x.spec_minus(other.x), y: self.y.spec_minus(other.y) }
    }

    /// `self - other`.
    pub fn minus(self, other: Point) -> (difference: Point)
        ensures
            difference == self.spec_minus(other),
    {
        Point { x: self.x.minus(other.x), y: self.y.minus(other.y) }
    }
}

/// The points added up from the first to the last, starting at the origin.
pub open spec fn total(points: Seq<Point>) -> Point
    decreases points.len(),
{
    if points.len() == 0 {
        Point::spec_origin()
    } else {
        total(points.drop_last()).spec_plus(points.last())
    }
}

/// The average of the points; the origin where there are none.
pub open spec fn centroid(points: Seq<Point>) -> Point {
    if points.len() == 0 {
        Point::spec_origin()
    } else {
        Point {
            x: total(points).x.spec_over(points.len()),
            y: total(points).y.spec_over(points.len()),
        }
    }
}

} // verus!
