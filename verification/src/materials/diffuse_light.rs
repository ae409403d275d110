//! Emitters: a diffuse light never scatters, it only radiates.

use vstd::prelude::*;

verus! {

use crate::utils::vector::{Vec3, scale_v};
use crate::utils::ray::Ray;
use crate::utils::color::Color;
use crate::behaviors::intersect::IntersectResult;
use crate::behaviors::scatter::ScatterResult;
use crate::materials::{Material, EMIT_LIMIT};

#[derive(Clone, Copy, Debug, PartialEq, Eq, Structural)]
pub struct DiffuseLight {
    pub albedo: Vec3,
}

pub open spec fn diffuse_light_wf(d: DiffuseLight) -> bool {
    &&& 0 <= d.albedo.x <= EMIT_LIMIT
    &&& 0 <= d.albedo.y <= EMIT_LIMIT
    &&& 0 <= d.albedo.z <= EMIT_LIMIT
}

impl DiffuseLight {
    /// A light of the given color, stretched by the intensity factor
    /// (fixed point).
    pub fn new(color: Color, intensity: i64) -> (m: Material)
        requires
            0 <= intensity <= 0x8000_0000,
        ensures
            crate::materials::mat_wf(m),
            m is DiffuseLight,
            ({
                let base = Vec3 {
                    x: crate::utils::color::chan_fx(color.r as int) as i64,
                    y: crate::utils::color::chan_fx(color.g as int) as i64,
                    z: crate::utils::color::chan_fx(color.b as int) as i64,
                };
                (
                    m->DiffuseLight_0.albedo.x as int,
                    m->DiffuseLight_0.albedo.y as int,
                    m->DiffuseLight_0.albedo.z as int,
                ) == crate::utils::vector::scale_spec(intensity as int, base)
            }),
    {
        let base = color.normalize();
        proof {
            crate::num::lemma_tdiv_scale_le(base.x as int, intensity as int, crate::FP_ONE as int);
            crate::num::lemma_tdiv_scale_le(base.y as int, intensity as int, crate::FP_ONE as int);
            crate::num::lemma_tdiv_scale_le(base.z as int, intensity as int, crate::FP_ONE as int);
        }
        Material::DiffuseLight(DiffuseLight { albedo: scale_v(intensity, base) })
    }

    /// A white light of the given intensity (fixed point).
    pub fn white(intensity: i64) -> (m: Material)
        requires
            0 <= intensity <= EMIT_LIMIT,
        ensures
            crate::materials::mat_wf(m),
            m is DiffuseLight,
            m->DiffuseLight_0.albedo == (Vec3 { x: intensity, y: intensity, z: intensity }),
    {
        Material::DiffuseLight(
            DiffuseLight { albedo: Vec3 { x: intensity, y: intensity, z: intensity } },
        )
    }

    /// A light terminates every path that reaches it.
    pub fn scatter(&self, _ray: &Ray, _result: IntersectResult) -> (res: Option<ScatterResult>)
        ensures
            res is None,
    {
        None
    }

    pub fn emit(&self) -> (c: Vec3)
        ensures
            c == self.albedo,
    {
        self.albedo
    }
}

} // verus!
