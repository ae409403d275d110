//! Specular scattering: the incoming direction mirrored about the normal,
//! perturbed by the fuzz factor; rays deflected under the surface are
//! absorbed.

use vstd::prelude::*;

verus! {

use crate::{FP_ONE, BIAS};
use crate::utils::vector::{Vec3, bounded, dot3, scale_v};
use crate::utils::ray::Ray;
use crate::utils::color::Color;
use crate::behaviors::intersect::IntersectResult;
use crate::behaviors::scatter::ScatterResult;
use crate::materials::Material;

#[derive(Clone, Copy, Debug, PartialEq, Eq, Structural)]
pub struct Metal {
    pub albedo: Vec3,
    pub fuzz: i64,
}

/// The scattered direction is the mirror image of the unit incoming
/// direction about the normal, perturbed by `fuzz` times the hemisphere
/// sample `u`.
pub open spec fn metal_dir_ok(m: Metal, r: Ray, h: IntersectResult, u: Vec3, dir: Vec3) -> bool {
    let ud = crate::utils::ray::unit_dir(r);
    let rf = crate::utils::vector::reflect_spec(ud, h.normal);
    let fz = crate::utils::vector::scale_spec(m.fuzz as int, u);
    (dir.x as int, dir.y as int, dir.z as int) == (rf.0 + fz.0, rf.1 + fz.1, rf.2 + fz.2)
}

/// The unperturbed mirror direction, as a grid vector.
pub open spec fn reflect_dir_spec(r: Ray, normal: Vec3) -> Vec3 {
    let rf = crate::utils::vector::reflect_spec(crate::utils::ray::unit_dir(r), normal);
    Vec3 { x: rf.0 as i64, y: rf.1 as i64, z: rf.2 as i64 }
}

pub open spec fn metal_wf(m: Metal) -> bool {
    &&& 0 <= m.albedo.x <= FP_ONE
    &&& 0 <= m.albedo.y <= FP_ONE
    &&& 0 <= m.albedo.z <= FP_ONE
    &&& 0 <= m.fuzz <= FP_ONE
}

impl Metal {
    pub fn new(color: Color, fuzz: i64) -> (m: Material)
        requires
            fuzz >= 0,
        ensures
            crate::materials::mat_wf(m),
            m is Metal,
            m->Metal_0.fuzz == if fuzz < FP_ONE { fuzz as int } else { FP_ONE as int },
            m->Metal_0.albedo.x == crate::utils::color::chan_fx(color.r as int),
            m->Metal_0.albedo.y == crate::utils::color::chan_fx(color.g as int),
            m->Metal_0.albedo.z == crate::utils::color::chan_fx(color.b as int),
    {
        Material::Metal(
            Metal {
                albedo: color.normalize(),
                fuzz: if fuzz < FP_ONE { fuzz } else { FP_ONE },
            },
        )
    }

    pub fn grey(fuzz: i64) -> (m: Material)
        requires
            fuzz >= 0,
        ensures
            crate::materials::mat_wf(m),
            m is Metal,
            m->Metal_0.albedo == (Vec3 {
                x: (FP_ONE / 2) as i64,
                y: (FP_ONE / 2) as i64,
                z: (FP_ONE / 2) as i64,
            }),
            m->Metal_0.fuzz == if fuzz < FP_ONE { fuzz as int } else { FP_ONE as int },
    {
        Material::Metal(
            Metal {
                albedo: Vec3 { x: FP_ONE / 2, y: FP_ONE / 2, z: FP_ONE / 2 },
                fuzz: if fuzz < FP_ONE { fuzz } else { FP_ONE },
            },
        )
    }

    /// Reflect about the normal, perturb by `fuzz` times a hemisphere
    /// sample, and continue only if the result still points away from the
    /// surface.
    pub fn scatter(&self, ray: &Ray, result: IntersectResult) -> (res: Option<ScatterResult>)
        requires
            metal_wf(*self),
            crate::utils::ray::ray_wf(*ray),
            crate::materials::hit_ok(result),
        ensures
            res matches Some(s) ==> s.attenuation == self.albedo,
            res matches Some(s) ==> dot3(s.ray.direction, result.normal) > 0,
            res matches Some(s) ==> exists|u: Vec3|
                bounded(u, FP_ONE as int) && dot3(u, result.normal) >= 0 && #[trigger] metal_dir_ok(
                    *self,
                    *ray,
                    result,
                    u,
                    s.ray.direction,
                ),
            self.fuzz == 0 ==> ((res is Some) <==> dot3(
                reflect_dir_spec(*ray, result.normal),
                result.normal,
            ) > 0),
            res matches Some(s) ==> (
                s.ray.origin.x as int,
                s.ray.origin.y as int,
                s.ray.origin.z as int,
            ) == crate::materials::lambertian::offset_origin(result),
            res matches Some(s) ==> bounded(s.ray.direction, 0x4000_0000),
            res matches Some(s) ==> bounded(s.ray.origin, 0x100_0000_0000_0000 + FP_ONE as int),
    {
        let ud = ray.direction().unit();
        let reflect_dir = Vec3::reflect(ud, result.normal);
        let rnd_vector = Vec3::random_in_hemisphere(result.normal);
        proof {
            crate::num::lemma_mul_abs_bound(self.fuzz as int, rnd_vector.x as int, FP_ONE as int, FP_ONE as int);
            crate::num::lemma_mul_abs_bound(self.fuzz as int, rnd_vector.y as int, FP_ONE as int, FP_ONE as int);
            crate::num::lemma_mul_abs_bound(self.fuzz as int, rnd_vector.z as int, FP_ONE as int, FP_ONE as int);
            crate::num::lemma_tdiv_quot_bound(self.fuzz as int * rnd_vector.x, FP_ONE as int, FP_ONE as int * FP_ONE as int);
            crate::num::lemma_tdiv_quot_bound(self.fuzz as int * rnd_vector.y, FP_ONE as int, FP_ONE as int * FP_ONE as int);
            crate::num::lemma_tdiv_quot_bound(self.fuzz as int * rnd_vector.z, FP_ONE as int, FP_ONE as int * FP_ONE as int);
        }
        let fuzzed = reflect_dir.plus(scale_v(self.fuzz, rnd_vector));
        proof {
            assert(metal_dir_ok(*self, *ray, result, rnd_vector, fuzzed));
            if self.fuzz == 0 {
                assert(0 * rnd_vector.x == 0 && 0 * rnd_vector.y == 0 && 0 * rnd_vector.z == 0)
                    by (nonlinear_arith);
                assert(fuzzed == reflect_dir_spec(*ray, result.normal));
            }
        }
        let offset = scale_v(BIAS, result.normal);
        proof {
            crate::num::lemma_mul_abs_bound(BIAS as int, result.normal.x as int, 328, FP_ONE as int);
            crate::num::lemma_mul_abs_bound(BIAS as int, result.normal.y as int, 328, FP_ONE as int);
            crate::num::lemma_mul_abs_bound(BIAS as int, result.normal.z as int, 328, FP_ONE as int);
            crate::num::lemma_tdiv_quot_bound(BIAS as int * result.normal.x, FP_ONE as int, 328 * FP_ONE as int);
            crate::num::lemma_tdiv_quot_bound(BIAS as int * result.normal.y, FP_ONE as int, 328 * FP_ONE as int);
            crate::num::lemma_tdiv_quot_bound(BIAS as int * result.normal.z, FP_ONE as int, 328 * FP_ONE as int);
        }
        let origin = result.point.plus(offset);
        let reflected_ray = Ray::new(origin, fuzzed);
        if fuzzed.dot_wide(&result.normal) > 0 {
            let out = Some(ScatterResult { ray: reflected_ray, attenuation: self.albedo });
            proof {
                assert(out->0.ray.direction == reflected_ray.direction);
                assert(metal_dir_ok(*self, *ray, result, rnd_vector, out->0.ray.direction));
            }
            out
        } else {
            None
        }
    }
}

} // verus!
