//! The closed set of materials, dispatched by exhaustive matching.

use vstd::prelude::*;

pub mod dielectric;
pub mod diffuse_light;
pub mod lambertian;
pub mod metal;

verus! {

use crate::FP_ONE;
use crate::utils::vector::{Vec3, bounded};
use crate::utils::ray::Ray;
use crate::behaviors::intersect::IntersectResult;
use crate::behaviors::scatter::ScatterResult;
use crate::materials::lambertian::Lambertian;
use crate::materials::metal::Metal;
use crate::materials::dielectric::Dielectric;
use crate::materials::diffuse_light::DiffuseLight;

/// Largest magnitude a radiance channel of an emitter may carry.
pub const EMIT_LIMIT: i64 = 0x1_0000_0000;

#[derive(Clone, Copy, Debug, PartialEq, Eq, Structural)]
pub enum Material {
    Lambertian(Lambertian),
    Metal(Metal),
    Dielectric(Dielectric),
    DiffuseLight(DiffuseLight),
}

/// A material's parameters lie in their documented ranges: attenuation
/// channels within `[0, 1]`, fuzz within `[0, 1]`, a positive refractive
/// index, and bounded non-negative emission.
pub open spec fn mat_wf(m: Material) -> bool {
    match m {
        Material::Lambertian(l) => crate::materials::lambertian::lambertian_wf(l),
        Material::Metal(mt) => crate::materials::metal::metal_wf(mt),
        Material::Dielectric(d) => crate::materials::dielectric::dielectric_wf(d),
        Material::DiffuseLight(dl) => crate::materials::diffuse_light::diffuse_light_wf(dl),
    }
}

/// What the material emits: the light's radiance, or black.
pub open spec fn emit_spec(m: Material) -> Vec3 {
    match m {
        Material::DiffuseLight(dl) => dl.albedo,
        _ => Vec3 { x: 0, y: 0, z: 0 },
    }
}

/// The hit records scattering accepts: a normal of at most unit length at
/// a point on the bounded grid.
pub open spec fn hit_ok(h: IntersectResult) -> bool {
    bounded(h.normal, FP_ONE as int) && bounded(h.point, 0x100_0000_0000_0000)
}

impl Material {
    /// Whether and how the path continues at a hit. Whatever the random
    /// draws produce: a reported attenuation keeps every channel inside
    /// `[0, 1]` (the dielectric's is exactly white), the continuation ray
    /// starts at the hit point offset along the normal by at most a small
    /// bias, its direction is bounded, a light never scatters, and a
    /// diffuse or dielectric surface always does.
    pub fn scatter(&self, ray: &Ray, result: IntersectResult) -> (res: Option<ScatterResult>)
        requires
            mat_wf(*self),
            crate::utils::ray::ray_wf(*ray),
            hit_ok(result),
        ensures
            res matches Some(s) ==> 0 <= s.attenuation.x <= FP_ONE && 0 <= s.attenuation.y
                <= FP_ONE && 0 <= s.attenuation.z <= FP_ONE,
            self is Dielectric ==> (res matches Some(s) ==> s.attenuation == (Vec3 {
                x: FP_ONE,
                y: FP_ONE,
                z: FP_ONE,
            })),
            self is DiffuseLight ==> res is None,
            self is Lambertian ==> res is Some,
            self is Dielectric ==> res is Some,
            res matches Some(s) ==> bounded(s.ray.direction, 0x4000_0000)
                && bounded(s.ray.origin, 0x100_0000_0000_0000 + FP_ONE as int),
    {
        match self {
            Material::Lambertian(l) => l.scatter(ray, result),
            Material::Metal(mt) => mt.scatter(ray, result),
            Material::Dielectric(d) => d.scatter(ray, result),
            Material::DiffuseLight(dl) => dl.scatter(ray, result),
        }
    }

    /// The light a path picks up at this surface regardless of whether it
    /// continues.
    pub fn emit(&self) -> (c: Vec3)
        requires
            mat_wf(*self),
        ensures
            c == emit_spec(*self),
            0 <= c.x <= EMIT_LIMIT,
            0 <= c.y <= EMIT_LIMIT,
            0 <= c.z <= EMIT_LIMIT,
    {
        match self {
            Material::DiffuseLight(dl) => dl.emit(),
            _ => Vec3::zero(),
        }
    }
}

} // verus!
