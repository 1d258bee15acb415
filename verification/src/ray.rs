//! Rays: an origin and a direction, with parameterized point evaluation.

use vstd::prelude::*;
use crate::fixed::smul;
use crate::vec3::{Vec3, V3, add3, scale3};

verus! {

/// A ray `origin + t * direction`. Immutable once constructed.
#[derive(Clone, Copy, PartialEq, Eq, Structural, Debug)]
pub struct Ray {
    pub origin: Vec3,
    pub direction: Vec3,
}

/// The point at parameter `t` along the ray from `o` in direction `d`.
pub open spec fn ray_at3(o: V3, d: V3, t: int) -> V3 {
    add3(o, scale3(t, d))
}

impl Ray {
    pub fn new(origin: Vec3, direction: Vec3) -> (r: Ray)
        ensures
            r.origin == origin,
            r.direction == direction,
    {
        Ray { origin, direction }
    }

    /// The point at parameter `t`; `t` may be any scalar, including a
    /// negative one (callers clamp through intersection bounds).
    pub fn at(&self, t: i64) -> (r: Vec3)
        requires
            i64::MIN <= smul(t as int, self.direction@.x) <= i64::MAX,
            i64::MIN <= smul(t as int, self.direction@.y) <= i64::MAX,
            i64::MIN <= smul(t as int, self.direction@.z) <= i64::MAX,
            i64::MIN <= self.origin@.x + smul(t as int, self.direction@.x) <= i64::MAX,
            i64::MIN <= self.origin@.y + smul(t as int, self.direction@.y) <= i64::MAX,
            i64::MIN <= self.origin@.z + smul(t as int, self.direction@.z) <= i64::MAX,
        ensures
            r@ == ray_at3(self.origin@, self.direction@, t as int),
    {
        self.origin.add(self.direction.scale(t))
    }
}

} // verus!
