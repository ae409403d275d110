//! Transparent scattering: refract when Snell's law allows it and a
//! Schlick-weighted coin keeps the ray out of the reflective branch,
//! else reflect. The medium absorbs nothing, so attenuation is white.

use vstd::prelude::*;

verus! {

use crate::FP_ONE;
use crate::num::{mul_fx, div_fx, isqrt_u128};
use crate::utils::vector::{Vec3, bounded};
use crate::utils::ray::Ray;
use crate::behaviors::intersect::IntersectResult;
use crate::behaviors::scatter::ScatterResult;
use crate::materials::Material;
use vstd::math::abs;

#[derive(Clone, Copy, Debug, PartialEq, Eq, Structural)]
pub struct Dielectric {
    pub refraction_index: i64,
}

/// The index stays within a physically sensible band (between one
/// sixteenth and sixteen), which keeps every refraction ratio bounded.
pub open spec fn dielectric_wf(d: Dielectric) -> bool {
    0x1000 <= d.refraction_index <= 0x10_0000
}

/// The refraction ratio the scatter step uses: the reciprocal index when
/// the ray enters the medium, the index itself when it leaves.
pub open spec fn ratio_spec(d: Dielectric, front_face: bool) -> int {
    if front_face {
        crate::num::tdiv(FP_ONE as int * FP_ONE, d.refraction_index as int)
    } else {
        d.refraction_index as int
    }
}

/// The cosine of incidence as the scatter step computes it: the unit
/// direction against the normal, capped into `[-1, 1]`.
pub open spec fn cos_theta_spec(r: Ray, normal: Vec3) -> int {
    let ud = crate::utils::ray::unit_dir(r);
    let nuv = Vec3 { x: (-ud.x) as i64, y: (-ud.y) as i64, z: (-ud.z) as i64 };
    let raw = crate::num::tdiv(crate::utils::vector::dot3(nuv, normal), FP_ONE as int);
    let capped = if raw < FP_ONE {
        raw
    } else {
        FP_ONE as int
    };
    if capped < -FP_ONE {
        -FP_ONE as int
    } else {
        capped
    }
}

/// The matching sine estimate: the root of the remaining energy, clamped
/// at zero where grid rounding would push it negative.
pub open spec fn sin_theta_spec(r: Ray, normal: Vec3) -> int {
    let cos = cos_theta_spec(r, normal);
    let cos_sq = crate::num::tdiv(cos * cos, FP_ONE as int);
    let rest = if FP_ONE - cos_sq >= 0 {
        FP_ONE - cos_sq
    } else {
        0
    };
    crate::num::sqrt_floor(rest * FP_ONE)
}

/// Snell's law cannot be satisfied: the refracted sine would exceed one.
pub open spec fn total_internal_reflection(d: Dielectric, r: Ray, normal: Vec3, front_face: bool) -> bool {
    crate::num::tdiv(
        ratio_spec(d, front_face) * sin_theta_spec(r, normal),
        FP_ONE as int,
    ) > FP_ONE
}

/// The direction the scatter step hands back: the mirror image about the
/// normal, or the refracted decomposition.
pub open spec fn dielectric_dir_ok(d: Dielectric, r: Ray, h: IntersectResult, dir: Vec3) -> bool {
    let ud = crate::utils::ray::unit_dir(r);
    ||| (dir.x as int, dir.y as int, dir.z as int) == crate::utils::vector::reflect_spec(
        ud,
        h.normal,
    )
    ||| (dir.x as int, dir.y as int, dir.z as int) == crate::utils::vector::refract_spec(
        ud,
        h.normal,
        ratio_spec(d, h.front_face),
    )
}

impl Dielectric {
    pub fn new(ir: i64) -> (m: Material)
        requires
            0x1000 <= ir <= 0x10_0000,
        ensures
            crate::materials::mat_wf(m),
            m is Dielectric,
            m->Dielectric_0.refraction_index == ir,
    {
        Material::Dielectric(Dielectric { refraction_index: ir })
    }

    /// Always continues from the hit point with attenuation exactly white.
    pub fn scatter(&self, ray: &Ray, result: IntersectResult) -> (res: Option<ScatterResult>)
        requires
            dielectric_wf(*self),
            crate::utils::ray::ray_wf(*ray),
            crate::materials::hit_ok(result),
        ensures
            res is Some,
            res->0.attenuation == (Vec3 { x: FP_ONE, y: FP_ONE, z: FP_ONE }),
            res->0.ray.origin == result.point,
            dielectric_dir_ok(*self, *ray, result, res->0.ray.direction),
            total_internal_reflection(*self, *ray, result.normal, result.front_face) ==> (
                res->0.ray.direction.x as int,
                res->0.ray.direction.y as int,
                res->0.ray.direction.z as int,
            ) == crate::utils::vector::reflect_spec(crate::utils::ray::unit_dir(*ray), result.normal),
            bounded(res->0.ray.direction, 0x4000_0000),
            bounded(res->0.ray.origin, 0x100_0000_0000_0000 + FP_ONE as int),
    {
        proof {
            crate::num::lemma_mul_abs_bound(FP_ONE as int, FP_ONE as int, FP_ONE as int, FP_ONE as int);
            crate::num::lemma_tdiv_quot_bound(
                FP_ONE as int * FP_ONE,
                self.refraction_index as int,
                FP_ONE as int * FP_ONE as int,
            );
        }
        let refraction_ratio: i64 = if result.front_face {
            div_fx(FP_ONE, self.refraction_index)
        } else {
            self.refraction_index
        };
        proof {
            crate::num::lemma_tdiv_quot_bound_den(
                FP_ONE as int * FP_ONE,
                self.refraction_index as int,
                FP_ONE as int * FP_ONE as int,
                0x1000,
            );
            crate::num::lemma_tdiv_bound(FP_ONE as int * FP_ONE, self.refraction_index as int);
            assert(FP_ONE as int * FP_ONE >= 0) by (nonlinear_arith);
        }

        let ray_dir = ray.direction().unit();
        let nrd = ray_dir.neg();
        proof {
            lemma_small_dot(nrd, result.normal);
        }
        let cos_raw = nrd.dot_fx(&result.normal);
        let cos_capped: i64 = if cos_raw < FP_ONE {
            cos_raw
        } else {
            FP_ONE
        };
        let cos_theta: i64 = if cos_capped < -FP_ONE {
            -FP_ONE
        } else {
            cos_capped
        };
        proof {
            crate::num::lemma_mul_abs_bound(cos_theta as int, cos_theta as int, FP_ONE as int, FP_ONE as int);
            crate::num::lemma_tdiv_quot_bound(
                cos_theta as int * cos_theta,
                FP_ONE as int,
                FP_ONE as int * FP_ONE as int,
            );
        }
        let cos_sq = mul_fx(cos_theta, cos_theta);
        proof {
            assert(cos_theta as int * cos_theta >= 0) by (nonlinear_arith);
            crate::num::lemma_tdiv_bound(cos_theta as int * cos_theta, FP_ONE as int);
        }
        let sin_sq: i64 = if FP_ONE - cos_sq >= 0 {
            FP_ONE - cos_sq
        } else {
            0
        };
        proof {
            crate::num::lemma_mul_abs_bound(sin_sq as int, FP_ONE as int, FP_ONE as int, FP_ONE as int);
            assert(sin_sq as int * FP_ONE as int >= 0) by (nonlinear_arith)
                requires sin_sq >= 0;
        }
        let sin_theta = isqrt_u128((sin_sq as u128) * (FP_ONE as u128)) as i64;
        proof {
            lemma_sin_small(sin_sq as int * FP_ONE as int, sin_theta as int);
        }

        let cannot_refract = mul_fx(refraction_ratio, sin_theta) > FP_ONE;
        let schlick_approx = reflectance(cos_theta, refraction_ratio);
        let draw = crate::rng::rand_fx(0, FP_ONE);

        let dir = if cannot_refract || schlick_approx > draw {
            Vec3::reflect(ray_dir, result.normal)
        } else {
            Vec3::refract(ray_dir, result.normal, refraction_ratio)
        };

        Some(
            ScatterResult {
                ray: Ray::new(result.point, dir),
                attenuation: Vec3 { x: FP_ONE, y: FP_ONE, z: FP_ONE },
            },
        )
    }
}

/// Schlick's approximation, step for step as `reflectance` computes it.
pub open spec fn reflectance_spec(cosine: int, ref_idx: int) -> int {
    let s = FP_ONE as int;
    let r0 = crate::num::tdiv((s - ref_idx) * s, s + ref_idx);
    let r0_sq = crate::num::tdiv(r0 * r0, s);
    let a = s - cosine;
    let a2 = crate::num::tdiv(a * a, s);
    let a3 = crate::num::tdiv(a2 * a, s);
    let a4 = crate::num::tdiv(a3 * a, s);
    let a5 = crate::num::tdiv(a4 * a, s);
    r0_sq + crate::num::tdiv((s - r0_sq) * a5, s)
}

/// Schlick's approximation of the Fresnel reflectance:
/// `r0^2 + (1 - r0^2) (1 - cos)^5` with `r0 = (1 - n) / (1 + n)`.
pub fn reflectance(cosine: i64, ref_idx: i64) -> (r: i64)
    requires
        -FP_ONE <= cosine <= FP_ONE,
        0 <= ref_idx <= 0x100_0000,
    ensures
        r == reflectance_spec(cosine as int, ref_idx as int),
        abs(r as int) <= 0x100_0000_0000_0000,
{
    proof {
        crate::num::lemma_mul_abs_bound(
            (FP_ONE - ref_idx) as int,
            FP_ONE as int,
            0x100_0000,
            FP_ONE as int,
        );
        crate::num::lemma_tdiv_quot_bound_den(
            (FP_ONE - ref_idx) as int * FP_ONE,
            (FP_ONE + ref_idx) as int,
            0x100_0000int * FP_ONE as int,
            FP_ONE as int,
        );
    }
    let r0 = div_fx(FP_ONE - ref_idx, FP_ONE + ref_idx);
    proof {
        crate::num::lemma_mul_abs_bound(r0 as int, r0 as int, 0x100_0000, 0x100_0000);
        crate::num::lemma_tdiv_quot_bound(
            r0 as int * r0,
            FP_ONE as int,
            0x100_0000int * 0x100_0000int,
        );
    }
    let r0_sq = mul_fx(r0, r0);
    let a = FP_ONE - cosine;
    proof {
        lemma_pow_step(a as int, a as int, 2 * FP_ONE as int, 2 * FP_ONE as int);
    }
    let a2 = mul_fx(a, a);
    proof {
        lemma_pow_step(a2 as int, a as int, 4 * FP_ONE as int, 2 * FP_ONE as int);
    }
    let a3 = mul_fx(a2, a);
    proof {
        lemma_pow_step(a3 as int, a as int, 8 * FP_ONE as int, 2 * FP_ONE as int);
    }
    let a4 = mul_fx(a3, a);
    proof {
        lemma_pow_step(a4 as int, a as int, 16 * FP_ONE as int, 2 * FP_ONE as int);
    }
    let a5 = mul_fx(a4, a);
    proof {
        crate::num::lemma_mul_abs_bound(
            (FP_ONE - r0_sq) as int,
            a5 as int,
            0x2_0000_0000_0000,
            32 * FP_ONE as int,
        );
        crate::num::lemma_tdiv_quot_bound(
            (FP_ONE - r0_sq) as int * a5,
            FP_ONE as int,
            0x2_0000_0000_0000int * 32 * FP_ONE as int,
        );
    }
    let tail = mul_fx(FP_ONE - r0_sq, a5);
    r0_sq + tail
}

/// One step of the fixed-point power chain keeps a computable bound.
proof fn lemma_pow_step(x: int, a: int, mx: int, ma: int)
    requires
        abs(x) <= mx,
        abs(a) <= ma,
        0 < mx,
        0 < ma,
    ensures
        -(mx * ma) <= x * a <= mx * ma,
        abs(crate::num::tdiv(x * a, FP_ONE as int)) <= (mx * ma) / (FP_ONE as int),
{
    crate::num::lemma_mul_abs_bound(x, a, mx, ma);
    assert(mx * ma > 0) by (nonlinear_arith)
        requires 0 < mx && 0 < ma;
    crate::num::lemma_tdiv_quot_bound(x * a, FP_ONE as int, mx * ma);
}

/// A unit direction dotted with a unit normal stays small.
proof fn lemma_small_dot(a: Vec3, b: Vec3)
    requires
        bounded(a, FP_ONE as int),
        bounded(b, FP_ONE as int),
    ensures
        abs(crate::num::tdiv(crate::utils::vector::dot3(a, b), FP_ONE as int)) <= 3 * FP_ONE,
{
    crate::num::lemma_mul_abs_bound(a.x as int, b.x as int, FP_ONE as int, FP_ONE as int);
    crate::num::lemma_mul_abs_bound(a.y as int, b.y as int, FP_ONE as int, FP_ONE as int);
    crate::num::lemma_mul_abs_bound(a.z as int, b.z as int, FP_ONE as int, FP_ONE as int);
    crate::num::lemma_tdiv_quot_bound(
        crate::utils::vector::dot3(a, b),
        FP_ONE as int,
        3 * FP_ONE as int * FP_ONE as int,
    );
}

/// The sine estimate stays within a few units.
proof fn lemma_sin_small(n: int, c: int)
    requires
        0 <= n <= FP_ONE as int * FP_ONE as int,
        crate::num::is_sqrt_floor(n, c),
    ensures
        0 <= c <= FP_ONE,
{
    if c > FP_ONE {
        assert(c * c > FP_ONE as int * FP_ONE as int) by (nonlinear_arith)
            requires c > FP_ONE;
        assert(false);
    }
}

} // verus!
