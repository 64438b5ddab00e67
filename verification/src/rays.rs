//! Rays: an origin point and a direction vector.

use vstd::prelude::*;

use crate::tuples::{Point, Vector};

verus! {

/// A ray, immutable once constructed.  `position(t)` and the transform into a
/// shape's local space are evaluated by the unverified numeric layer.
pub struct Ray {
    pub origin: Point,
    pub direction: Vector,
}

impl Ray {
    pub fn new(origin: Point, direction: Vector) -> (r: Ray)
        ensures
            r.origin == origin,
            r.direction == direction,
    {
        Ray { origin, direction }
    }
}

pub fn ray(origin: Point, direction: Vector) -> (r: Ray)
    ensures
        r.origin == origin,
        r.direction == direction,
{
    Ray::new(origin, direction)
}

} // verus!
