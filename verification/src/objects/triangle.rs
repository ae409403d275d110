//! The triangle primitive and its intersection kernel.
//!
//! The kernel is the Moller-Trumbore algorithm carried out over exact wide
//! integers: the determinant and the scaled barycentric numerators are
//! computed without rounding, the inside tests compare numerators against
//! the determinant, and only the final ray parameter and barycentric
//! coordinates land on the fixed-point grid by truncating division.

use vstd::prelude::*;

verus! {

use crate::{FP_ONE, POS_LIMIT, DIR_LIMIT};
use crate::num::{tdiv, div_i128};
use crate::utils::vector::{
    Vec3, bounded, cross_x, cross_y, cross_z, unit_spec, cross_wide, dot_vw, normalize_wide,
};
use crate::utils::ray::{Ray, ray_wf};
use crate::behaviors::intersect::{IntersectResult, ir_spec};
use crate::objects::aabb::{Aabb, slab_pass, box_wf};
use vstd::math::{abs, min, max};

#[derive(Clone, Copy, Debug, PartialEq, Eq, Structural)]
pub struct VertexNormals {
    pub n0: Vec3,
    pub n1: Vec3,
    pub n2: Vec3,
}

#[derive(Clone, Copy, Debug, PartialEq, Eq, Structural)]
pub struct Triangle {
    pub v0: Vec3,
    pub v1: Vec3,
    pub v2: Vec3,
    pub normals: Option<VertexNormals>,
    pub material: usize,
}

pub open spec fn triangle_wf(t: Triangle) -> bool {
    &&& bounded(t.v0, POS_LIMIT as int)
    &&& bounded(t.v1, POS_LIMIT as int)
    &&& bounded(t.v2, POS_LIMIT as int)
    &&& (t.normals is Some ==> bounded((t.normals->0).n0, DIR_LIMIT as int) && bounded(
        (t.normals->0).n1,
        DIR_LIMIT as int,
    ) && bounded((t.normals->0).n2, DIR_LIMIT as int))
}

/// Clip a mathematical integer onto the `i64` range.
pub open spec fn clamp64(x: int) -> int {
    if x > i64::MAX {
        i64::MAX as int
    } else if x < i64::MIN {
        i64::MIN as int
    } else {
        x
    }
}

/// The raw kernel: the ray parameter and the two scaled barycentric
/// coordinates of the crossing point, or nothing when the ray is parallel,
/// culled as a back face, or lands outside the triangle. The parameter is
/// not yet held to any range.
pub open spec fn tri_raw(v0: Vec3, v1: Vec3, v2: Vec3, doublesided: bool, r: Ray) -> Option<
    (int, int, int),
> {
    let e1 = Vec3 { x: (v1.x - v0.x) as i64, y: (v1.y - v0.y) as i64, z: (v1.z - v0.z) as i64 };
    let e2 = Vec3 { x: (v2.x - v0.x) as i64, y: (v2.y - v0.y) as i64, z: (v2.z - v0.z) as i64 };
    let px = cross_x(r.direction, e2);
    let py = cross_y(r.direction, e2);
    let pz = cross_z(r.direction, e2);
    let det = e1.x * px + e1.y * py + e1.z * pz;
    if (!doublesided && det <= 0) || det == 0 {
        None
    } else {
        let dd = if det > 0 { det } else { -det };
        let tv = Vec3 {
            x: (r.origin.x - v0.x) as i64,
            y: (r.origin.y - v0.y) as i64,
            z: (r.origin.z - v0.z) as i64,
        };
        let un_raw = tv.x * px + tv.y * py + tv.z * pz;
        let un = if det > 0 { un_raw } else { -un_raw };
        if un < 0 || un > dd {
            None
        } else {
            let qx = cross_x(tv, e1);
            let qy = cross_y(tv, e1);
            let qz = cross_z(tv, e1);
            let vn_raw = r.direction.x * qx + r.direction.y * qy + r.direction.z * qz;
            let vn = if det > 0 { vn_raw } else { -vn_raw };
            if vn < 0 || un + vn > dd {
                None
            } else {
                let tn_raw = e2.x * qx + e2.y * qy + e2.z * qz;
                let tn = if det > 0 { tn_raw } else { -tn_raw };
                Some(
                    (
                        tdiv(tn * FP_ONE, dd),
                        tdiv(un * FP_ONE, dd),
                        tdiv(vn * FP_ONE, dd),
                    ),
                )
            }
        }
    }
}

/// The triangle's box: the vertices' component-wise extremes, widened by
/// one grid step on each side.
pub open spec fn tri_bbox_spec(t: Triangle) -> Aabb {
    Aabb {
        lower: Vec3 {
            x: (min(min(t.v0.x as int, t.v1.x as int), t.v2.x as int) - 1) as i64,
            y: (min(min(t.v0.y as int, t.v1.y as int), t.v2.y as int) - 1) as i64,
            z: (min(min(t.v0.z as int, t.v1.z as int), t.v2.z as int) - 1) as i64,
        },
        upper: Vec3 {
            x: (max(max(t.v0.x as int, t.v1.x as int), t.v2.x as int) + 1) as i64,
            y: (max(max(t.v0.y as int, t.v1.y as int), t.v2.y as int) + 1) as i64,
            z: (max(max(t.v0.z as int, t.v1.z as int), t.v2.z as int) + 1) as i64,
        },
    }
}

/// The parameter the triangle reports for a query over `[t_min, t_max]`:
/// the kernel's parameter when the forward-range slab test passes and the
/// parameter lies in range. The box gate spans `[0, i64::MAX]`, so queries
/// are meaningful only for `0 <= t_min`, which `intersect` requires. A
/// grazing ray whose slab interval rounds away may be excluded here
/// although the kernel's parameter itself lies in range.
pub open spec fn tri_first_t(t: Triangle, r: Ray, t_min: int, t_max: int) -> Option<int> {
    if !slab_pass(tri_bbox_spec(t), r, 0, i64::MAX as int) {
        None
    } else {
        match tri_raw(t.v0, t.v1, t.v2, false, r) {
            None => None,
            Some((tt, u, v)) => {
                if t_min <= tt <= t_max {
                    Some(tt)
                } else {
                    None
                }
            },
        }
    }
}

/// The outward normal reported for a hit with barycentric coordinates
/// `(u, v)`: the interpolated vertex normal when the triangle carries
/// normals, else the geometric normal of its plane.
/// The normalized blend of the three vertex normals with barycentric
/// weights `(1 - u - v, u, v)`.
pub open spec fn interp_normal_spec(n0: Vec3, n1: Vec3, n2: Vec3, u: int, v: int) -> (
    int,
    int,
    int,
) {
    let w0 = FP_ONE - u - v;
    let wx = tdiv(w0 * n0.x, FP_ONE as int) + tdiv(u * n1.x, FP_ONE as int) + tdiv(
        v * n2.x,
        FP_ONE as int,
    );
    let wy = tdiv(w0 * n0.y, FP_ONE as int) + tdiv(u * n1.y, FP_ONE as int) + tdiv(
        v * n2.y,
        FP_ONE as int,
    );
    let wz = tdiv(w0 * n0.z, FP_ONE as int) + tdiv(u * n1.z, FP_ONE as int) + tdiv(
        v * n2.z,
        FP_ONE as int,
    );
    unit_spec(wx, wy, wz)
}

pub open spec fn tri_outward_spec(t: Triangle, u: int, v: int) -> (int, int, int) {
    match t.normals {
        Some(ns) => interp_normal_spec(ns.n0, ns.n1, ns.n2, u, v),
        None => {
            let e1 = Vec3 {
                x: (t.v1.x - t.v0.x) as i64,
                y: (t.v1.y - t.v0.y) as i64,
                z: (t.v1.z - t.v0.z) as i64,
            };
            let e2 = Vec3 {
                x: (t.v2.x - t.v0.x) as i64,
                y: (t.v2.y - t.v0.y) as i64,
                z: (t.v2.z - t.v0.z) as i64,
            };
            unit_spec(cross_x(e1, e2), cross_y(e1, e2), cross_z(e1, e2))
        },
    }
}

/// The record reported for the kernel's hit `(t, u, v)`.
pub open spec fn tri_result(t: Triangle, r: Ray, tt: int, u: int, v: int) -> IntersectResult {
    let ow = tri_outward_spec(t, u, v);
    let owv = Vec3 { x: ow.0 as i64, y: ow.1 as i64, z: ow.2 as i64 };
    ir_spec(r, tt, owv, t.material as int)
}

impl Triangle {
    pub fn vertices(&self) -> (r: (Vec3, Vec3, Vec3))
        ensures
            r == (self.v0, self.v1, self.v2),
    {
        (self.v0, self.v1, self.v2)
    }

    pub fn normals(&self) -> (r: VertexNormals)
        requires
            self.normals is Some,
        ensures
            r == self.normals->0,
    {
        self.normals.unwrap()
    }

    pub fn bbox(&self) -> (b: Aabb)
        requires
            triangle_wf(*self),
        ensures
            b == tri_bbox_spec(*self),
            box_wf(b),
            crate::objects::aabb::box_contains(b, b),
    {
        let mut lo = self.v0;
        let mut hi = self.v0;
        if self.v1.x < lo.x { lo.x = self.v1.x }
        if self.v1.y < lo.y { lo.y = self.v1.y }
        if self.v1.z < lo.z { lo.z = self.v1.z }
        if self.v2.x < lo.x { lo.x = self.v2.x }
        if self.v2.y < lo.y { lo.y = self.v2.y }
        if self.v2.z < lo.z { lo.z = self.v2.z }
        if self.v1.x > hi.x { hi.x = self.v1.x }
        if self.v1.y > hi.y { hi.y = self.v1.y }
        if self.v1.z > hi.z { hi.z = self.v1.z }
        if self.v2.x > hi.x { hi.x = self.v2.x }
        if self.v2.y > hi.y { hi.y = self.v2.y }
        if self.v2.z > hi.z { hi.z = self.v2.z }
        Aabb {
            lower: Vec3 { x: lo.x - 1, y: lo.y - 1, z: lo.z - 1 },
            upper: Vec3 { x: hi.x + 1, y: hi.y + 1, z: hi.z + 1 },
        }
    }

    #[verifier::rlimit(60)]
    pub fn intersect(&self, ray: &Ray, t_min: i64, t_max: i64) -> (res: Option<IntersectResult>)
        requires
            triangle_wf(*self),
            ray_wf(*ray),
            0 <= t_min,
            t_max <= 0x100_0000_0000,
        ensures
            (res is Some) == (tri_first_t(*self, *ray, t_min as int, t_max as int) is Some),
            res is Some ==> {
                let (tt, u, v) = tri_raw(self.v0, self.v1, self.v2, false, *ray)->0;
                res->0 == tri_result(*self, *ray, tt, u, v)
            },
            res is Some ==> t_min <= res->0.t <= t_max
                && res->0.t == tri_first_t(*self, *ray, t_min as int, t_max as int)->0,
    {
        let bb = self.bbox();
        if bb.intersect(ray, 0, i64::MAX).is_none() {
            return None;
        }

        let result = ray_triangle_intersect(self.v0, self.v1, self.v2, false, ray, t_min, t_max);
        match result {
            None => None,
            Some((tt, u, v)) => {
                if tt < t_min || tt > t_max {
                    return None;
                }
                proof {
                    let (st, su, sv) = tri_raw(self.v0, self.v1, self.v2, false, *ray)->0;
                    assert(tt == clamp64(st) && t_min <= tt <= t_max);
                    assert(st == clamp64(st));
                }
                let outward = match self.normals {
                    Some(ns) => interp_normal(ns.n0, ns.n1, ns.n2, u, v),
                    None => {
                        let e1 = self.v1.minus(self.v0);
                        let e2 = self.v2.minus(self.v0);
                        let cw = cross_wide(&e1, &e2);
                        normalize_wide(cw.0, cw.1, cw.2)
                    },
                };
                Some(IntersectResult::new(ray, tt, outward, self.material))
            },
        }
    }
}

/// Interpolate the three vertex normals at barycentric `(u, v)` and
/// normalize the blend.
fn interp_normal(n0: Vec3, n1: Vec3, n2: Vec3, u: i64, v: i64) -> (r: Vec3)
    requires
        bounded(n0, DIR_LIMIT as int),
        bounded(n1, DIR_LIMIT as int),
        bounded(n2, DIR_LIMIT as int),
        0 <= u <= FP_ONE,
        0 <= v <= FP_ONE,
    ensures
        (r.x as int, r.y as int, r.z as int) == interp_normal_spec(n0, n1, n2, u as int, v as int),
        bounded(r, FP_ONE as int),
{
    let w0: i64 = FP_ONE - u - v;
    proof {
        crate::num::lemma_mul_abs_bound(w0 as int, n0.x as int, 0x2_0000, 0x4000_0000);
        crate::num::lemma_mul_abs_bound(w0 as int, n0.y as int, 0x2_0000, 0x4000_0000);
        crate::num::lemma_mul_abs_bound(w0 as int, n0.z as int, 0x2_0000, 0x4000_0000);
        crate::num::lemma_mul_abs_bound(u as int, n1.x as int, 0x2_0000, 0x4000_0000);
        crate::num::lemma_mul_abs_bound(u as int, n1.y as int, 0x2_0000, 0x4000_0000);
        crate::num::lemma_mul_abs_bound(u as int, n1.z as int, 0x2_0000, 0x4000_0000);
        crate::num::lemma_mul_abs_bound(v as int, n2.x as int, 0x2_0000, 0x4000_0000);
        crate::num::lemma_mul_abs_bound(v as int, n2.y as int, 0x2_0000, 0x4000_0000);
        crate::num::lemma_mul_abs_bound(v as int, n2.z as int, 0x2_0000, 0x4000_0000);
    }
    let wx: i128 = div_i128((w0 as i128) * (n0.x as i128), FP_ONE as i128) + div_i128(
        (u as i128) * (n1.x as i128),
        FP_ONE as i128,
    ) + div_i128((v as i128) * (n2.x as i128), FP_ONE as i128);
    let wy: i128 = div_i128((w0 as i128) * (n0.y as i128), FP_ONE as i128) + div_i128(
        (u as i128) * (n1.y as i128),
        FP_ONE as i128,
    ) + div_i128((v as i128) * (n2.y as i128), FP_ONE as i128);
    let wz: i128 = div_i128((w0 as i128) * (n0.z as i128), FP_ONE as i128) + div_i128(
        (u as i128) * (n1.z as i128),
        FP_ONE as i128,
    ) + div_i128((v as i128) * (n2.z as i128), FP_ONE as i128);
    normalize_wide(wx, wy, wz)
}

/// The Moller-Trumbore kernel. The reported ray parameter is the kernel's
/// exact parameter clipped onto `i64`; the range arguments are not applied
/// here, since nearest-among-many callers restrict the range themselves.
#[verifier::rlimit(60)]
pub fn ray_triangle_intersect(
    v0: Vec3,
    v1: Vec3,
    v2: Vec3,
    doublesided: bool,
    ray: &Ray,
    _t_min: i64,
    _t_max: i64,
) -> (res: Option<(i64, i64, i64)>)
    requires
        bounded(v0, POS_LIMIT as int),
        bounded(v1, POS_LIMIT as int),
        bounded(v2, POS_LIMIT as int),
        ray_wf(*ray),
    ensures
        (res is Some) == (tri_raw(v0, v1, v2, doublesided, *ray) is Some),
        res is Some ==> {
            let (tt, u, v) = tri_raw(v0, v1, v2, doublesided, *ray)->0;
            res->0 == (clamp64(tt) as i64, u as i64, v as i64) && 0 <= u <= FP_ONE && 0 <= v
                <= FP_ONE
        },
{
    let o = ray.origin();
    let d = ray.direction();
    let e1 = v1.minus(v0);
    let e2 = v2.minus(v0);
    let pvec = cross_wide(&d, &e2);
    let det: i128 = dot_vw(&e1, pvec);

    if !doublesided {
        if det <= 0 {
            return None;
        }
    } else {
        if det == 0 {
            return None;
        }
    }

    let neg: bool = det < 0;
    let dd: i128 = if neg { -det } else { det };

    let tv = o.minus(v0);
    let un_raw: i128 = dot_vw(&tv, pvec);
    let un: i128 = if neg { -un_raw } else { un_raw };
    if un < 0 || un > dd {
        return None;
    }

    let qvec = cross_wide(&tv, &e1);
    let vn_raw: i128 = dot_vw(&d, qvec);
    let vn: i128 = if neg { -vn_raw } else { vn_raw };
    if vn < 0 || un + vn > dd {
        return None;
    }

    let tn_raw: i128 = dot_vw(&e2, qvec);
    let tn: i128 = if neg { -tn_raw } else { tn_raw };

    proof {
        crate::num::lemma_mul_abs_bound(
            tn as int,
            FP_ONE as int,
            0x3000_0000_0000_0000_0000_0000,
            FP_ONE as int,
        );
        crate::num::lemma_mul_abs_bound(
            un as int,
            FP_ONE as int,
            0x3000_0000_0000_0000_0000_0000,
            FP_ONE as int,
        );
        crate::num::lemma_mul_abs_bound(
            vn as int,
            FP_ONE as int,
            0x3000_0000_0000_0000_0000_0000,
            FP_ONE as int,
        );
        crate::num::lemma_tdiv_scale_le(un as int, FP_ONE as int, dd as int);
        crate::num::lemma_tdiv_scale_le(vn as int, FP_ONE as int, dd as int);
    }
    let t_fx: i128 = div_i128(tn * (FP_ONE as i128), dd);
    let u_fx: i128 = div_i128(un * (FP_ONE as i128), dd);
    let v_fx: i128 = div_i128(vn * (FP_ONE as i128), dd);

    let t_clip: i64 = if t_fx > i64::MAX as i128 {
        i64::MAX
    } else if t_fx < i64::MIN as i128 {
        i64::MIN
    } else {
        t_fx as i64
    };

    Some((t_clip, u_fx as i64, v_fx as i64))
}

} // verus!
