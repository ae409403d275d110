//! Rays on the fixed-point grid: an origin, a direction, and the points
//! `origin + t * direction` for fixed-point parameters `t`.

use vstd::prelude::*;

verus! {

use crate::{FP_ONE, POS_LIMIT, DIR_LIMIT};
use crate::num::tdiv;
use crate::utils::vector::{Vec3, bounded};
use vstd::math::abs;

#[derive(Clone, Copy, Debug, PartialEq, Eq, Structural)]
pub struct Ray {
    pub origin: Vec3,
    pub direction: Vec3,
}

/// A ray the core accepts: its origin inside the world and its direction
/// of limited magnitude, so that every intermediate product fits its
/// integer type. Direction components may be zero.
pub open spec fn ray_wf(r: Ray) -> bool {
    bounded(r.origin, POS_LIMIT as int) && bounded(r.direction, DIR_LIMIT as int)
}

/// The point at parameter `t` (fixed point), each component truncating.
pub open spec fn at_spec(r: Ray, t: int) -> (int, int, int) {
    (
        r.origin.x + tdiv(t * r.direction.x, FP_ONE as int),
        r.origin.y + tdiv(t * r.direction.y, FP_ONE as int),
        r.origin.z + tdiv(t * r.direction.z, FP_ONE as int),
    )
}

impl Ray {
    pub fn new(origin: Vec3, direction: Vec3) -> (r: Ray)
        ensures
            r.origin == origin,
            r.direction == direction,
    {
        Ray { origin, direction }
    }

    pub fn origin(&self) -> (o: Vec3)
        ensures
            o == self.origin,
    {
        self.origin
    }

    pub fn direction(&self) -> (d: Vec3)
        ensures
            d == self.direction,
    {
        self.direction
    }

    /// The point the ray reaches at parameter `t`.
    pub fn at(&self, t: i64) -> (p: Vec3)
        requires
            ray_wf(*self),
            abs(t as int) <= 0x100_0000_0000,
        ensures
            (p.x as int, p.y as int, p.z as int) == at_spec(*self, t as int),
            bounded(p, POS_LIMIT as int + 0x40_0000_0000_0000),
    {
        proof {
            lemma_at_bound(t as int, self.direction.x as int);
            lemma_at_bound(t as int, self.direction.y as int);
            lemma_at_bound(t as int, self.direction.z as int);
        }
        let sx: i128 = crate::num::div_i128(
            (t as i128) * (self.direction.x as i128),
            FP_ONE as i128,
        );
        let sy: i128 = crate::num::div_i128(
            (t as i128) * (self.direction.y as i128),
            FP_ONE as i128,
        );
        let sz: i128 = crate::num::div_i128(
            (t as i128) * (self.direction.z as i128),
            FP_ONE as i128,
        );
        Vec3 {
            x: self.origin.x + sx as i64,
            y: self.origin.y + sy as i64,
            z: self.origin.z + sz as i64,
        }
    }
}

/// Bound on one component of a ray-parameter step: with `|t| <= 2^40` and a
/// direction component within `DIR_LIMIT`, the step stays under `2^54`.
proof fn lemma_at_bound(t: int, d: int)
    requires
        abs(t) <= 0x100_0000_0000,
        abs(d) <= DIR_LIMIT as int,
    ensures
        -(0x400_0000_0000_0000_0000int) <= t * d <= 0x400_0000_0000_0000_0000int,
        abs(tdiv(t * d, FP_ONE as int)) <= 0x40_0000_0000_0000int,
{
    crate::num::lemma_mul_abs_bound(t, d, 0x100_0000_0000, DIR_LIMIT as int);
    crate::num::lemma_tdiv_quot_bound(t * d, FP_ONE as int, 0x400_0000_0000_0000_0000);
}


/// The ray's direction normalized onto the grid, as `direction().unit()`
/// computes it.
pub open spec fn unit_dir(r: Ray) -> Vec3 {
    let u = crate::utils::vector::unit_spec(
        r.direction.x as int,
        r.direction.y as int,
        r.direction.z as int,
    );
    Vec3 { x: u.0 as i64, y: u.1 as i64, z: u.2 as i64 }
}

/// Whether the core accepts this ray: the run-time check of `ray_wf`.
pub fn ray_ok(r: &Ray) -> (b: bool)
    ensures
        b == ray_wf(*r),
{
    -POS_LIMIT <= r.origin.x && r.origin.x <= POS_LIMIT && -POS_LIMIT <= r.origin.y && r.origin.y
        <= POS_LIMIT && -POS_LIMIT <= r.origin.z && r.origin.z <= POS_LIMIT && -DIR_LIMIT
        <= r.direction.x && r.direction.x <= DIR_LIMIT && -DIR_LIMIT <= r.direction.y
        && r.direction.y <= DIR_LIMIT && -DIR_LIMIT <= r.direction.z && r.direction.z <= DIR_LIMIT
}

} // verus!
