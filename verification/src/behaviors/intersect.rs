//! The record a successful ray/primitive intersection produces.

use vstd::prelude::*;

verus! {

use crate::FP_ONE;
use crate::POS_LIMIT;
use crate::utils::vector::{Vec3, bounded, dot3};
use crate::utils::ray::{Ray, ray_wf, at_spec};
use vstd::math::abs;

/// A hit: the ray parameter, the hit point, the surface normal oriented
/// against the incoming ray, whether the outward normal already pointed
/// that way, and the index of the material to shade with.
#[derive(Clone, Copy, Debug, PartialEq, Eq, Structural)]
pub struct IntersectResult {
    pub t: i64,
    pub point: Vec3,
    pub normal: Vec3,
    pub front_face: bool,
    pub material: usize,
}

/// The record built from a hit at parameter `t` with outward normal
/// `outward`: the point is taken on the ray, and the normal is flipped
/// whenever the outward normal points along the ray rather than against it.
pub open spec fn ir_spec(r: Ray, t: int, outward: Vec3, mat: int) -> IntersectResult {
    let p = at_spec(r, t);
    let pv = Vec3 { x: p.0 as i64, y: p.1 as i64, z: p.2 as i64 };
    let ff = dot3(r.direction, outward) < 0;
    let n = if ff {
        outward
    } else {
        Vec3 { x: (-outward.x) as i64, y: (-outward.y) as i64, z: (-outward.z) as i64 }
    };
    IntersectResult { t: t as i64, point: pv, normal: n, front_face: ff, material: mat as usize }
}

impl IntersectResult {
    pub fn new(ray: &Ray, t: i64, outward_normal: Vec3, mat: usize) -> (res: IntersectResult)
        requires
            ray_wf(*ray),
            abs(t as int) <= 0x100_0000_0000,
            bounded(outward_normal, FP_ONE as int),
        ensures
            res == ir_spec(*ray, t as int, outward_normal, mat as int),
            bounded(res.point, POS_LIMIT as int + 0x40_0000_0000_0000),
            bounded(res.normal, FP_ONE as int),
            res.t == t,
            res.material == mat,
    {
        let point = ray.at(t);
        let d = ray.direction();
        let front_face = d.dot_wide(&outward_normal) < 0;
        let normal = if front_face {
            outward_normal
        } else {
            outward_normal.neg()
        };
        IntersectResult { t, point, normal, front_face, material: mat }
    }
}

} // verus!
