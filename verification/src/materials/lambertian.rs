//! Diffuse scattering: a new direction near the surface normal, always
//! continuing the path.

use vstd::prelude::*;

verus! {

use crate::{FP_ONE, BIAS};
use crate::utils::vector::{Vec3, bounded, scale_v};
use crate::utils::ray::Ray;
use crate::utils::color::Color;
use crate::behaviors::intersect::IntersectResult;
use crate::behaviors::scatter::ScatterResult;
use crate::materials::Material;

#[derive(Clone, Copy, Debug, PartialEq, Eq, Structural)]
pub struct Lambertian {
    pub albedo: Vec3,
}

/// The hit point stepped off the surface by the bias along the normal.
pub open spec fn offset_origin(h: IntersectResult) -> (int, int, int) {
    let o = crate::utils::vector::scale_spec(BIAS as int, h.normal);
    (h.point.x + o.0, h.point.y + o.1, h.point.z + o.2)
}

/// The scattered direction is the normal plus the normalized unit-sphere
/// sample `u`, or the normal alone when the two cancel exactly.
pub open spec fn lambertian_dir_ok(normal: Vec3, u: Vec3, dir: Vec3) -> bool {
    let ut = crate::utils::vector::unit_spec(u.x as int, u.y as int, u.z as int);
    let sx = normal.x + ut.0;
    let sy = normal.y + ut.1;
    let sz = normal.z + ut.2;
    if sx == 0 && sy == 0 && sz == 0 {
        dir == normal
    } else {
        (dir.x as int, dir.y as int, dir.z as int) == (sx, sy, sz)
    }
}

pub open spec fn lambertian_wf(l: Lambertian) -> bool {
    &&& 0 <= l.albedo.x <= FP_ONE
    &&& 0 <= l.albedo.y <= FP_ONE
    &&& 0 <= l.albedo.z <= FP_ONE
}

impl Lambertian {
    pub fn new(color: Color) -> (m: Material)
        ensures
            crate::materials::mat_wf(m),
            m is Lambertian,
            m->Lambertian_0.albedo.x == crate::utils::color::chan_fx(color.r as int),
            m->Lambertian_0.albedo.y == crate::utils::color::chan_fx(color.g as int),
            m->Lambertian_0.albedo.z == crate::utils::color::chan_fx(color.b as int),
    {
        Material::Lambertian(Lambertian { albedo: color.normalize() })
    }

    pub fn grey() -> (m: Material)
        ensures
            crate::materials::mat_wf(m),
            m is Lambertian,
            m->Lambertian_0.albedo == (Vec3 { x: (FP_ONE / 2) as i64, y: (FP_ONE / 2) as i64, z: (FP_ONE / 2) as i64 }),
    {
        Material::Lambertian(
            Lambertian { albedo: Vec3 { x: FP_ONE / 2, y: FP_ONE / 2, z: FP_ONE / 2 } },
        )
    }

    /// Scatter toward the normal plus a random unit direction; if the two
    /// cancel, fall back to the normal itself. The outgoing origin steps
    /// off the surface along the normal. Always continues.
    pub fn scatter(&self, _ray: &Ray, result: IntersectResult) -> (res: Option<ScatterResult>)
        requires
            lambertian_wf(*self),
            crate::materials::hit_ok(result),
        ensures
            res is Some,
            res->0.attenuation == self.albedo,
            (res->0.ray.origin.x as int, res->0.ray.origin.y as int, res->0.ray.origin.z as int)
                == offset_origin(result),
            exists|u: Vec3|
                bounded(u, FP_ONE as int) && crate::utils::vector::dot3(u, u) < FP_ONE * FP_ONE
                    && #[trigger] lambertian_dir_ok(result.normal, u, res->0.ray.direction),
            bounded(res->0.ray.direction, 0x4000_0000),
            bounded(res->0.ray.origin, 0x100_0000_0000_0000 + FP_ONE as int),
    {
        let sample = Vec3::random_in_unit_sphere();
        let rnd_vector = sample.unit();
        let scatter_dir = result.normal.plus(rnd_vector);
        let offset = scale_v(BIAS, result.normal);
        proof {
            crate::num::lemma_mul_abs_bound(BIAS as int, result.normal.x as int, 328, FP_ONE as int);
            crate::num::lemma_mul_abs_bound(BIAS as int, result.normal.y as int, 328, FP_ONE as int);
            crate::num::lemma_mul_abs_bound(BIAS as int, result.normal.z as int, 328, FP_ONE as int);
            crate::num::lemma_tdiv_quot_bound(BIAS as int * result.normal.x, FP_ONE as int, 328 * FP_ONE as int);
            crate::num::lemma_tdiv_quot_bound(BIAS as int * result.normal.y, FP_ONE as int, 328 * FP_ONE as int);
            crate::num::lemma_tdiv_quot_bound(BIAS as int * result.normal.z, FP_ONE as int, 328 * FP_ONE as int);
        }
        let origin = result.point.plus(offset);
        let scattered_ray = if scatter_dir.near_zero() {
            Ray::new(origin, result.normal)
        } else {
            Ray::new(origin, scatter_dir)
        };
        proof {
            assert(lambertian_dir_ok(result.normal, sample, scattered_ray.direction));
        }
        Some(ScatterResult { ray: scattered_ray, attenuation: self.albedo })
    }
}

} // verus!
