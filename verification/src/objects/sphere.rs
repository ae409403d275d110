//! The sphere primitive and its intersection kernel.
//!
//! The kernel solves the quadratic `|O + tD - C|^2 = r^2` in the half-b
//! form over exact wide integers, takes the integer square root of the
//! discriminant, and lands the two roots back on the fixed-point grid by
//! truncating division. The whole computation is pinned by spec-level
//! mirrors, so a caller knows exactly which parameter is reported.

use vstd::prelude::*;

verus! {

use crate::{FP_ONE, POS_LIMIT};
use crate::num::{tdiv, sqrt_floor, div_i128, isqrt_u128};
use crate::utils::vector::{Vec3, bounded, dot3, unit_spec};
use crate::utils::ray::{Ray, ray_wf};
use crate::behaviors::intersect::{IntersectResult, ir_spec};
use crate::objects::aabb::{Aabb, slab_pass};
use vstd::math::abs;

#[derive(Clone, Copy, Debug, PartialEq, Eq, Structural)]
pub struct Sphere {
    pub center: Vec3,
    pub radius: i64,
    pub material: usize,
}

pub open spec fn sphere_wf(s: Sphere) -> bool {
    bounded(s.center, POS_LIMIT as int) && 0 <= s.radius <= POS_LIMIT
}

/// The box from `center - radius` to `center + radius` on every axis.
pub open spec fn sphere_bbox_spec(s: Sphere) -> Aabb {
    Aabb {
        lower: Vec3 {
            x: (s.center.x - s.radius) as i64,
            y: (s.center.y - s.radius) as i64,
            z: (s.center.z - s.radius) as i64,
        },
        upper: Vec3 {
            x: (s.center.x + s.radius) as i64,
            y: (s.center.y + s.radius) as i64,
            z: (s.center.z + s.radius) as i64,
        },
    }
}

/// The two roots of the sphere quadratic, in ascending order, on the
/// fixed-point grid; `None` when the direction is degenerate, the
/// discriminant is negative, or the ray already misses the bounding box
/// over the forward range `[0, i64::MAX]`. Because of that gate, queries
/// are meaningful only for `0 <= t_min`, which `intersect` requires; a
/// backward query would be denied hits behind the origin. A grazing ray
/// whose slab interval rounds away may be excluded here although the
/// root computation itself lies in range.
pub open spec fn sphere_roots_raw(s: Sphere, r: Ray) -> Option<(int, int)> {
    let ocx = r.origin.x - s.center.x;
    let ocy = r.origin.y - s.center.y;
    let ocz = r.origin.z - s.center.z;
    let a = dot3(r.direction, r.direction);
    let hb = ocx * r.direction.x + ocy * r.direction.y + ocz * r.direction.z;
    let cc = ocx * ocx + ocy * ocy + ocz * ocz - s.radius * s.radius;
    let disc = hb * hb - a * cc;
    if a == 0 || disc < 0 {
        None
    } else {
        let sd = sqrt_floor(disc);
        Some((tdiv((-hb - sd) * FP_ONE, a), tdiv((-hb + sd) * FP_ONE, a)))
    }
}

pub open spec fn sphere_roots(s: Sphere, r: Ray) -> Option<(int, int)> {
    if !slab_pass(sphere_bbox_spec(s), r, 0, i64::MAX as int) {
        None
    } else {
        sphere_roots_raw(s, r)
    }
}

/// The nearer root inside `[t_min, t_max]`, else the farther root inside
/// it, else nothing: the least reported parameter in range.
pub open spec fn sphere_first_t(s: Sphere, r: Ray, t_min: int, t_max: int) -> Option<int> {
    match sphere_roots(s, r) {
        None => None,
        Some((t1, t2)) => {
            if t_min <= t1 <= t_max {
                Some(t1)
            } else if t_min <= t2 <= t_max {
                Some(t2)
            } else {
                None
            }
        },
    }
}

/// The record reported for a hit at parameter `t`: outward normal from the
/// center through the hit point, normalized on the grid.
pub open spec fn sphere_result(s: Sphere, r: Ray, t: int) -> IntersectResult {
    let p = crate::utils::ray::at_spec(r, t);
    let ow = unit_spec(p.0 - s.center.x, p.1 - s.center.y, p.2 - s.center.z);
    let owv = Vec3 { x: ow.0 as i64, y: ow.1 as i64, z: ow.2 as i64 };
    ir_spec(r, t, owv, s.material as int)
}

impl Sphere {
    pub fn bounding_box(&self) -> (b: Aabb)
        requires
            sphere_wf(*self),
        ensures
            b == sphere_bbox_spec(*self),
            crate::objects::aabb::box_wf(b),
    {
        let radius_vector = Vec3::new(self.radius, self.radius, self.radius);
        Aabb {
            lower: self.center.minus(radius_vector),
            upper: self.center.plus(radius_vector),
        }
    }

    #[verifier::rlimit(60)]
    pub fn intersect(&self, ray: &Ray, t_min: i64, t_max: i64) -> (res: Option<IntersectResult>)
        requires
            sphere_wf(*self),
            ray_wf(*ray),
            0 <= t_min,
            t_max <= 0x100_0000_0000,
        ensures
            (res is Some) == (sphere_first_t(*self, *ray, t_min as int, t_max as int) is Some),
            res is Some ==> res->0 == sphere_result(
                *self,
                *ray,
                sphere_first_t(*self, *ray, t_min as int, t_max as int)->0,
            ),
            res is Some ==> t_min <= res->0.t <= t_max
                && res->0.t == sphere_first_t(*self, *ray, t_min as int, t_max as int)->0,
    {
        let bb = self.bounding_box();
        if bb.intersect(ray, 0, i64::MAX).is_none() {
            return None;
        }

        let o = ray.origin();
        let d = ray.direction();
        let ocx: i128 = (o.x - self.center.x) as i128;
        let ocy: i128 = (o.y - self.center.y) as i128;
        let ocz: i128 = (o.z - self.center.z) as i128;
        let dx: i128 = d.x as i128;
        let dy: i128 = d.y as i128;
        let dz: i128 = d.z as i128;

        proof {
            crate::num::lemma_mul_abs_bound(ocx as int, dx as int, 0x4000_0000, 0x4000_0000);
            crate::num::lemma_mul_abs_bound(ocy as int, dy as int, 0x4000_0000, 0x4000_0000);
            crate::num::lemma_mul_abs_bound(ocz as int, dz as int, 0x4000_0000, 0x4000_0000);
            crate::num::lemma_mul_abs_bound(dx as int, dx as int, 0x4000_0000, 0x4000_0000);
            crate::num::lemma_mul_abs_bound(dy as int, dy as int, 0x4000_0000, 0x4000_0000);
            crate::num::lemma_mul_abs_bound(dz as int, dz as int, 0x4000_0000, 0x4000_0000);
            crate::num::lemma_mul_abs_bound(ocx as int, ocx as int, 0x4000_0000, 0x4000_0000);
            crate::num::lemma_mul_abs_bound(ocy as int, ocy as int, 0x4000_0000, 0x4000_0000);
            crate::num::lemma_mul_abs_bound(ocz as int, ocz as int, 0x4000_0000, 0x4000_0000);
            crate::num::lemma_mul_abs_bound(
                self.radius as int,
                self.radius as int,
                0x2000_0000,
                0x2000_0000,
            );
        }
        let a: i128 = dx * dx + dy * dy + dz * dz;
        let hb: i128 = ocx * dx + ocy * dy + ocz * dz;
        let cc: i128 = ocx * ocx + ocy * ocy + ocz * ocz - (self.radius as i128)
            * (self.radius as i128);
        proof {
            assert(abs(hb as int) <= 0x4000_0000_0000_0000);
            assert(abs(a as int) <= 0x4000_0000_0000_0000);
            assert(abs(cc as int) <= 0x4000_0000_0000_0000);
            crate::num::lemma_mul_abs_bound(
                hb as int,
                hb as int,
                0x4000_0000_0000_0000,
                0x4000_0000_0000_0000,
            );
            crate::num::lemma_mul_abs_bound(
                a as int,
                cc as int,
                0x4000_0000_0000_0000,
                0x4000_0000_0000_0000,
            );
            assert(abs((hb * hb - a * cc) as int) <= 0x2000_0000_0000_0000_0000_0000_0000_0000);
        }
        let disc: i128 = hb * hb - a * cc;

        if a == 0 || disc < 0 {
            return None;
        }

        let sd: i128 = isqrt_u128(disc as u128) as i128;
        proof {
            crate::num::lemma_mul_abs_bound(
                (-hb - sd) as int,
                FP_ONE as int,
                0x1_0000_0000_0000_0000_0000,
                FP_ONE as int,
            );
            crate::num::lemma_mul_abs_bound(
                (-hb + sd) as int,
                FP_ONE as int,
                0x1_0000_0000_0000_0000_0000,
                FP_ONE as int,
            );
        }
        let t1: i128 = div_i128((-hb - sd) * (FP_ONE as i128), a);
        let t2: i128 = div_i128((-hb + sd) * (FP_ONE as i128), a);

        let root: i64;
        if t_min as i128 <= t1 && t1 <= t_max as i128 {
            root = t1 as i64;
        } else if t_min as i128 <= t2 && t2 <= t_max as i128 {
            root = t2 as i64;
        } else {
            return None;
        }

        let point = ray.at(root);
        let outward_normal = crate::utils::vector::normalize_wide(
            (point.x - self.center.x) as i128,
            (point.y - self.center.y) as i128,
            (point.z - self.center.z) as i128,
        );
        Some(IntersectResult::new(ray, root, outward_normal, self.material))
    }
}

/// The reported roots come out in ascending order.
pub proof fn lemma_sphere_roots_ordered(s: Sphere, r: Ray)
    requires
        sphere_roots(s, r) is Some,
    ensures
        (sphere_roots(s, r)->0).0 <= (sphere_roots(s, r)->0).1,
{
    let ocx = r.origin.x - s.center.x;
    let ocy = r.origin.y - s.center.y;
    let ocz = r.origin.z - s.center.z;
    let a = dot3(r.direction, r.direction);
    let hb = ocx * r.direction.x + ocy * r.direction.y + ocz * r.direction.z;
    let cc = ocx * ocx + ocy * ocy + ocz * ocz - s.radius * s.radius;
    let disc = hb * hb - a * cc;
    crate::num::lemma_sqrt_floor_exists(disc);
    let sd = sqrt_floor(disc);
    assert(a > 0) by (nonlinear_arith)
        requires
            a == dot3(r.direction, r.direction),
            a != 0,
            dot3(r.direction, r.direction) == r.direction.x * r.direction.x + r.direction.y
                * r.direction.y + r.direction.z * r.direction.z,
    ;
    assert(sd >= 0);
    assert((-hb - sd) * FP_ONE <= (-hb + sd) * FP_ONE) by (nonlinear_arith)
        requires
            sd >= 0,
            FP_ONE > 0,
    ;
    crate::num::lemma_tdiv_mono((-hb - sd) * FP_ONE, (-hb + sd) * FP_ONE, a);
}

} // verus!
